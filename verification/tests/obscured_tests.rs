use cleat_fgo::obscured::{obscured_decode, obscured_encode, xor_with_key};

#[test]
fn xor_cycles_the_key() {
    assert_eq!(xor_with_key(&[0x00, 0xFF, 0x0F, 0xF0, 0x55], &[0x01, 0x02]), vec![0x01, 0xFD, 0x0E, 0xF2, 0x54]);
}

#[test]
fn xor_twice_gives_data_back() {
    let data = [1u8, 2, 3, 4, 5, 6, 7];
    let key = [9u8, 200, 31];
    assert_eq!(xor_with_key(&xor_with_key(&data, &key), &key), data.to_vec());
}

#[test]
fn encodes_utf16le_xor_key() {
    // "A" is 41 00 in UTF-16LE.
    assert_eq!(obscured_encode("A", &[0x01, 0x02]), Some(vec![0x40, 0x02]));
}

#[test]
fn decodes_a_known_value() {
    assert_eq!(obscured_decode(&[0x40, 0x02], &[0x01, 0x02]), Some("A".to_string()));
}

#[test]
fn roundtrip() {
    let key = [0x4B, 0x00, 0x65, 0x00, 0x79, 0x00];
    for text in ["セイバー", "Saber", "\u{1F600}x"] {
        let hidden = obscured_encode(text, &key).unwrap();
        assert_eq!(obscured_decode(&hidden, &key).unwrap(), text);
    }
}

#[test]
fn empty_key_gives_nothing() {
    assert_eq!(obscured_encode("A", &[]), None);
    assert_eq!(obscured_decode(&[0x41, 0x00], &[]), None);
}

#[test]
fn empty_value_gives_nothing() {
    assert_eq!(obscured_decode(&[], &[1]), None);
    assert_eq!(obscured_encode("", &[1]), Some(vec![]));
}

#[test]
fn odd_or_invalid_gives_nothing() {
    assert_eq!(obscured_decode(&[0x41, 0x00, 0x42], &[0x00]), None);
    assert_eq!(obscured_decode(&[0x3D, 0xD8], &[0x00]), None);
}
