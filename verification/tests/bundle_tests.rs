use std::io::Write;

use cleat_fgo::bundle::{
    bundle_iv, bundle_key, try_parse_bundle, BundleError, EntryError, InfoField, ScriptBundle,
    MAGIC,
};
use cleat_fgo::crypto::{cbc_decrypt, Decrypted};
use cleat_fgo::utf16::Utf16Error;
use flate2::write::ZlibEncoder;
use flate2::Compression;
use simple_rijndael::impls::RijndaelCbc;
use simple_rijndael::paddings::{Pkcs7Padding, ZeroPadding};

const KEY: &[u8; 32] = b"mYq3t6v9y$B&E)H@McQfTjWnZr4u7x!z";
const IV: &[u8; 32] = b"TjWnZr4u7x!A%D*G-KaNdRgUkXp2s5v8";

fn le(s: &str) -> Vec<u8> {
    s.encode_utf16().flat_map(|u| u.to_le_bytes()).collect()
}

fn zlib(bytes: &[u8]) -> Vec<u8> {
    let mut enc = ZlibEncoder::new(Vec::new(), Compression::default());
    enc.write_all(bytes).unwrap();
    enc.finish().unwrap()
}

fn encrypt(bytes: Vec<u8>) -> Vec<u8> {
    RijndaelCbc::<Pkcs7Padding>::new(KEY, 32).unwrap().encrypt(IV, bytes).unwrap()
}

fn entry(text: &str) -> Vec<u8> {
    encrypt(zlib(&le(text)))
}

/// Lays out a bundle: header, entry table, then the data of each entry.
fn build(count: i32, entries: &[(&[u8], Vec<u8>)]) -> Vec<u8> {
    let table: usize = entries.iter().map(|(id, _)| 13 + id.len()).sum();
    let mut out = Vec::new();
    out.extend_from_slice(&MAGIC.to_be_bytes());
    out.extend_from_slice(&count.to_be_bytes());
    let mut offset = 8 + table;
    for (id, data) in entries {
        out.extend_from_slice(&(offset as u32).to_be_bytes());
        out.push(id.len() as u8);
        out.extend_from_slice(id);
        out.extend_from_slice(&(data.len() as u32).to_be_bytes());
        out.extend_from_slice(&0u32.to_be_bytes());
        offset += data.len();
    }
    for (_, data) in entries {
        out.extend_from_slice(data);
    }
    out
}

fn parse(data: &[u8]) -> Result<ScriptBundle, BundleError> {
    try_parse_bundle(data).expect("not malformed").map(|(b, _)| b)
}

fn loaded(data: &[u8]) -> usize {
    try_parse_bundle(data).expect("not malformed").unwrap().1
}

fn entry_err(entry: usize, id: &str, error: EntryError) -> Option<BundleError> {
    Some(BundleError::Entry { entry, id: id.to_string(), error })
}

#[test]
fn key_and_iv_are_the_bundle_constants() {
    assert_eq!(bundle_key(), KEY.to_vec());
    assert_eq!(bundle_iv(), IV.to_vec());
}

#[test]
fn cbc_agrees_with_the_cipher_library() {
    let plain: Vec<u8> = (0..100u8).collect();
    let cipher = encrypt(plain.clone());
    assert_ne!(cipher[..32], plain[..32]);
    match cbc_decrypt(KEY, IV, &cipher) {
        Decrypted::Plain(p) => assert_eq!(p, plain),
        _ => panic!("expected plaintext"),
    }
    let lib = RijndaelCbc::<Pkcs7Padding>::new(KEY, 32).unwrap().decrypt(IV, cipher.clone()).unwrap();
    assert_eq!(lib, plain);
}

#[test]
fn cbc_rejects_partial_blocks() {
    assert!(matches!(cbc_decrypt(KEY, IV, &[0u8; 33]), Decrypted::BadLength));
    assert!(matches!(cbc_decrypt(KEY, IV, &[]), Decrypted::Malformed));
}

#[test]
fn loads_entries() {
    let data = build(2, &[(b"0100", entry("こんにちは")), (b"0200", entry("Hello"))]);
    let b = parse(&data).unwrap();
    assert_eq!(b.len(), 2);
    assert_eq!(b.get("0100"), Some("こんにちは"));
    assert_eq!(b.get("0200"), Some("Hello"));
    assert_eq!(b.get("0300"), None);
    assert_eq!(loaded(&data), 2);
}

#[test]
fn loads_long_text() {
    let text = "「マスター、指示を。」\n".repeat(200);
    let data = build(1, &[("ＩＤ".as_bytes(), entry(&text))]);
    let b = parse(&data).unwrap();
    assert_eq!(b.get("ＩＤ"), Some(text.as_str()));
}

#[test]
fn later_entry_with_same_id_wins() {
    let data = build(2, &[(b"a", entry("first")), (b"a", entry("second"))]);
    let b = parse(&data).unwrap();
    assert_eq!(b.len(), 1);
    assert_eq!(b.get("a"), Some("second"));
    assert_eq!(loaded(&data), 2);
}

#[test]
fn entry_beyond_the_file_is_skipped() {
    let mut data = build(2, &[(b"a", entry("kept")), (b"b", entry("lost"))]);
    let cut = data.len() - 1;
    data.truncate(cut);
    let b = parse(&data).unwrap();
    assert_eq!(b.len(), 1);
    assert_eq!(loaded(&data), 1);
    assert_eq!(b.get("a"), Some("kept"));
    assert_eq!(b.get("b"), None);
}

#[test]
fn empty_bundle() {
    let b = parse(&build(0, &[])).unwrap();
    assert_eq!(b.len(), 0);
    assert_eq!(ScriptBundle::empty().len(), 0);
}

#[test]
fn header_errors() {
    assert_eq!(parse(&[0x7A, 0x68]).err(), Some(BundleError::MissingMagic));
    assert_eq!(parse(&[1, 2, 3, 4, 0, 0, 0, 0]).err(), Some(BundleError::BadMagic(0x01020304)));
    assert_eq!(parse(&[0x7A, 0x68, 0x42, 0x44, 0]).err(), Some(BundleError::MissingCount));
}

#[test]
fn table_errors() {
    let full = build(1, &[(b"abc", entry("x"))]);
    let cases = [
        (10, InfoField::Index),
        (12, InfoField::IdLength),
        (14, InfoField::Id),
        (18, InfoField::Size),
        (22, InfoField::Crc),
    ];
    for (len, field) in cases {
        assert_eq!(parse(&full[..len]).err(), Some(BundleError::TruncatedInfo(0, field)));
    }
    // A count larger than the table.
    let mut more = build(1, &[(b"abc", entry("x"))]);
    more[7] = 2;
    let err = parse(&more).err().unwrap();
    assert!(matches!(err, BundleError::TruncatedInfo(1, _)));
}

#[test]
fn invalid_id_is_rejected() {
    let data = build(1, &[(&[0xFF, 0xFE], entry("x"))]);
    assert_eq!(parse(&data).err(), Some(BundleError::InvalidId(0)));
}

#[test]
fn entry_errors() {
    let data = build(2, &[(b"a", entry("ok")), (b"b", vec![0u8; 31])]);
    assert_eq!(parse(&data).err(), entry_err(1, "b", EntryError::CipherLength));

    let data = build(1, &[(b"a", encrypt(b"not zlib at all".to_vec()))]);
    assert_eq!(parse(&data).err(), entry_err(0, "a", EntryError::Decompress));

    let data = build(1, &[(b"a", encrypt(zlib(&[0x41, 0x00, 0x42])))]);
    assert_eq!(parse(&data).err(), entry_err(0, "a", EntryError::Text(Utf16Error::OddLength)));

    let data = build(1, &[(b"a", encrypt(zlib(&[0x3D, 0xD8])))]);
    assert_eq!(parse(&data).err(), entry_err(0, "a", EntryError::Text(Utf16Error::Invalid)));
}

#[test]
fn inputs_the_cipher_library_fails_on() {
    // A negative count.
    let mut neg = build(0, &[]);
    neg[4] = 0xFF;
    assert!(try_parse_bundle(&neg).is_none());
    // An empty ciphertext.
    let data = build(1, &[(b"a", vec![])]);
    assert!(try_parse_bundle(&data).is_none());
    // A padding byte beyond the plaintext.
    let mut block = vec![0u8; 32];
    block[31] = 0xFF;
    let cipher = RijndaelCbc::<ZeroPadding>::new(KEY, 32).unwrap().encrypt(IV, block).unwrap();
    assert_eq!(cipher.len(), 32);
    let data = build(1, &[(b"a", cipher)]);
    assert!(try_parse_bundle(&data).is_none());
}

#[test]
fn only_script_asset_names_are_replaced() {
    let data = build(
        4,
        &[(b"0100", entry("zero")), (b"?@x", entry("q")), (b"Ab", entry("no")), (b"0", entry("one char"))],
    );
    let b = parse(&data).unwrap();
    assert_eq!(b.lookup_asset("0100"), Some("zero"));
    assert_eq!(b.lookup_asset("?@x"), Some("q"));
    assert_eq!(b.lookup_asset("Ab"), None);
    assert_eq!(b.get("Ab"), Some("no"));
    assert_eq!(b.lookup_asset("0"), None);
    assert_eq!(b.lookup_asset("0999"), None);
    assert_eq!(b.lookup_asset(""), None);
}

#[test]
fn insert_then_get() {
    let mut b = ScriptBundle::empty();
    b.insert("1".to_string(), "one".to_string());
    b.insert("1".to_string(), "uno".to_string());
    assert_eq!(b.get("1"), Some("uno"));
    assert_eq!(b.len(), 1);
}
