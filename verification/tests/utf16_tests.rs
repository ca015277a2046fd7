use cleat_fgo::utf16::{decode_text_file, decode_utf16le, decode_utf16le_lossy, encode_utf16le, Utf16Error};

fn le(s: &str) -> Vec<u8> {
    s.encode_utf16().flat_map(|u| u.to_le_bytes()).collect()
}

#[test]
fn decodes_ascii_and_cjk() {
    assert_eq!(decode_utf16le(&le("Saber")).unwrap(), "Saber");
    assert_eq!(decode_utf16le(&le("アルトリア")).unwrap(), "アルトリア");
    assert_eq!(decode_utf16le(&[0x41, 0x00, 0x42, 0x30]).unwrap(), "A\u{3042}");
}

#[test]
fn decodes_surrogate_pairs() {
    // U+1F600 is D83D DE00.
    assert_eq!(decode_utf16le(&[0x3D, 0xD8, 0x00, 0xDE]).unwrap(), "\u{1F600}");
    assert_eq!(decode_utf16le(&le("a\u{20BB7}b")).unwrap(), "a\u{20BB7}b");
}

#[test]
fn empty_input_is_empty_text() {
    assert_eq!(decode_utf16le(&[]).unwrap(), "");
}

#[test]
fn odd_length_is_rejected() {
    assert_eq!(decode_utf16le(&[0x41, 0x00, 0x42]), Err(Utf16Error::OddLength));
}

#[test]
fn unpaired_surrogates_are_rejected() {
    assert_eq!(decode_utf16le(&[0x3D, 0xD8]), Err(Utf16Error::Invalid));
    assert_eq!(decode_utf16le(&[0x00, 0xDE, 0x41, 0x00]), Err(Utf16Error::Invalid));
    assert_eq!(decode_utf16le(&[0x3D, 0xD8, 0x41, 0x00]), Err(Utf16Error::Invalid));
}

#[test]
fn encodes_like_std() {
    for s in ["", "Saber", "宝具", "a\u{1F600}z", "\u{FFFF}\u{10000}\u{10FFFF}"] {
        assert_eq!(encode_utf16le(s), le(s));
    }
}

#[test]
fn encode_then_decode_gives_text_back() {
    for s in ["", "x", "セイバー", "\u{1F600}\u{1F601}", "[g][o]▲[/o][/g]"] {
        assert_eq!(decode_utf16le(&encode_utf16le(s)).unwrap(), s);
    }
}

#[test]
fn lossy_replaces_unpaired_surrogates() {
    assert_eq!(decode_utf16le_lossy(&[0x41, 0x00, 0x3D, 0xD8, 0x42, 0x00]), "A\u{FFFD}B");
    assert_eq!(decode_utf16le_lossy(&[0x00, 0xDE]), "\u{FFFD}");
    let units: Vec<u16> = vec![0x41, 0xD83D, 0x42, 0xDE00, 0xD83D, 0xDE00];
    let bytes: Vec<u8> = units.iter().flat_map(|u| u.to_le_bytes()).collect();
    assert_eq!(decode_utf16le_lossy(&bytes), String::from_utf16_lossy(&units));
}

#[test]
fn lossy_ignores_a_trailing_byte_and_keeps_the_bom() {
    assert_eq!(decode_utf16le_lossy(&[0xFF, 0xFE, 0x41, 0x00, 0x42]), "\u{FEFF}A");
}

#[test]
fn lossy_agrees_with_strict_on_valid_text() {
    let s = "ロカライズ\u{1F600}";
    assert_eq!(decode_utf16le_lossy(&le(s)), decode_utf16le(&le(s)).unwrap());
}

#[test]
fn text_file_drops_a_leading_bom() {
    assert_eq!(decode_text_file(&[0xFF, 0xFE, 0x7B, 0x00, 0x7D, 0x00]), "{}");
    assert_eq!(decode_text_file(&[0x7B, 0x00, 0xFF, 0xFE]), "{\u{FEFF}");
    assert_eq!(decode_text_file(&[0xFF, 0xFE]), "");
    assert_eq!(decode_text_file(&[0x41, 0x00, 0x00, 0xDC, 0x42]), "A\u{FFFD}");
}
