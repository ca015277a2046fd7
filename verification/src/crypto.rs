//! Decryption and decompression of script bundle entries: Rijndael with
//! 32-byte blocks and a 32-byte key in CBC mode with PKCS#7 padding, then
//! zlib.
//!
//! The block cipher and the unpadding are those of `simple_rijndael`, the
//! inflater is `flate2`'s; the CBC chaining between blocks is written here.
use vstd::prelude::*;
use vstd::slice::slice_subrange;
use std::io::Read;
use flate2::read::ZlibDecoder;
use simple_rijndael::paddings::{Padding, Pkcs7Padding};
use simple_rijndael::rijndael::Rijndael;
use simple_rijndael::Errors;

verus! {

/// The error type of `simple_rijndael`.
#[verifier::external_type_specification]
#[verifier::external_body]
pub struct ExRijndaelErrors(Errors);

/// The cipher's block size in bytes.
pub const BLOCK: usize = 32;

// ── Outside calls ────────────────────────────────────────────────────────

/// What `simple_rijndael`'s `Rijndael::decrypt` gives for one 32-byte block
/// under a 32-byte key with 32-byte blocks.
pub uninterp spec fn rijndael_decrypt_block(key: Seq<u8>, block: Seq<u8>) -> Seq<u8>;

/// What `flate2`'s `ZlibDecoder` reads to the end from a byte slice:
/// `None` when it reports an error.
pub uninterp spec fn zlib_inflate(data: Seq<u8>) -> Option<Seq<u8>>;

/// `simple_rijndael::rijndael::Rijndael::new(key, 32)` followed by
/// `Rijndael::decrypt(block)`. The crate's source accepts key and block sizes
/// of 16, 24 and 32 bytes, so both calls succeed here; `decrypt` checks that
/// the block has the block size and pushes `block_size / 4` groups of four
/// bytes, so the plaintext block has 32 bytes. What those bytes are is
/// named, not stated.
#[verifier::external_body]
fn decrypt_block(key: &[u8], block: &[u8]) -> (r: Result<Vec<u8>, Errors>)
    requires
        key@.len() == 32,
        block@.len() == 32,
    ensures
        match r {
            Ok(p) => p@.len() == 32 && p@ == rijndael_decrypt_block(key@, block@),
            Err(_) => false,
        },
{
    match Rijndael::new(key, 32) {
        Ok(cipher) => cipher.decrypt(block),
        Err(e) => Err(e),
    }
}

/// `simple_rijndael::paddings::Pkcs7Padding::decode` for 32-byte blocks: the
/// crate checks that the length is a multiple of the block size, then drops
/// as many trailing bytes as the last byte says (it does not check the pad
/// bytes themselves). The crate indexes the last byte and subtracts without a
/// check, so the input must be non-empty and its last byte at most its length.
#[verifier::external_body]
fn pkcs7_decode(raw: Vec<u8>) -> (r: Result<Vec<u8>, Errors>)
    requires
        raw@.len() % 32 == 0,
        raw@.len() > 0,
        raw@.last() <= raw@.len(),
    ensures
        match r {
            Ok(p) => p@ == raw@.take(raw@.len() - raw@.last()),
            Err(_) => false,
        },
{
    Pkcs7Padding::new(32).decode(raw)
}

/// `flate2::read::ZlibDecoder::new(data)` read to the end with
/// `Read::read_to_end`: the inflated bytes, or `None` when the decoder
/// reports an error. What they are is named, not stated.
#[verifier::external_body]
pub(crate) fn inflate(data: &[u8]) -> (r: Option<Vec<u8>>)
    ensures
        r is Some <==> zlib_inflate(data@) is Some,
        r matches Some(v) ==> v@ == zlib_inflate(data@).unwrap(),
{
    let mut out = Vec::new();
    match ZlibDecoder::new(data).read_to_end(&mut out) {
        Ok(_) => Some(out),
        Err(_) => None,
    }
}

// ── CBC ──────────────────────────────────────────────────────────────────

/// The `j`-th 32-byte block of `data`.
pub open spec fn block_of(data: Seq<u8>, j: int) -> Seq<u8> {
    data.subrange(BLOCK * j, BLOCK * j + BLOCK)
}

/// CBC decryption before unpadding: each plaintext byte is the block
/// cipher's output XOR the byte one block earlier in the ciphertext (the IV
/// for the first block).
pub open spec fn cbc_raw(key: Seq<u8>, iv: Seq<u8>, data: Seq<u8>) -> Seq<u8> {
    Seq::new(
        data.len(),
        |i: int|
            rijndael_decrypt_block(key, block_of(data, i / 32))[i % 32] ^ (if i < 32 {
                iv[i]
            } else {
                data[i - 32]
            }),
    )
}

/// The outcome of decrypting a ciphertext.
pub enum SpecDecrypted {
    Plain(Seq<u8>),
    /// The length is not a multiple of the block size.
    BadLength,
    /// The cipher library fails on it: the ciphertext is empty, or the
    /// padding byte exceeds the plaintext length.
    Malformed,
}

pub open spec fn spec_cbc_decrypt(key: Seq<u8>, iv: Seq<u8>, data: Seq<u8>) -> SpecDecrypted {
    if data.len() % 32 != 0 {
        SpecDecrypted::BadLength
    } else if data.len() == 0 {
        SpecDecrypted::Malformed
    } else {
        let raw = cbc_raw(key, iv, data);
        if raw.last() > raw.len() {
            SpecDecrypted::Malformed
        } else {
            SpecDecrypted::Plain(raw.take(raw.len() - raw.last()))
        }
    }
}

/// CBC decryption, byte by byte: byte `t` of block `j` is byte `t` of the
/// block cipher's output for ciphertext block `j`, XOR byte `t` of the
/// previous ciphertext block (the IV for the first); then as many trailing
/// bytes are dropped as the last byte says. A length that is not a multiple
/// of 32 is refused.
pub proof fn lemma_cbc_bytes(key: Seq<u8>, iv: Seq<u8>, data: Seq<u8>)
    ensures
        data.len() % 32 != 0 ==> spec_cbc_decrypt(key, iv, data) is BadLength,
        cbc_raw(key, iv, data).len() == data.len(),
        forall|j: int, t: int|
            0 <= j && 0 <= t < 32 && 32 * j + t < data.len() ==> #[trigger] cbc_raw(key, iv, data)[32
                * j + t] == rijndael_decrypt_block(key, data.subrange(32 * j, 32 * j + 32))[t] ^ (
            if j == 0 {
                iv[t]
            } else {
                data[32 * (j - 1) + t]
            }),
        data.len() % 32 == 0 && data.len() > 0 && cbc_raw(key, iv, data).last() <= data.len()
            ==> spec_cbc_decrypt(key, iv, data) == SpecDecrypted::Plain(
            cbc_raw(key, iv, data).take(data.len() - cbc_raw(key, iv, data).last()),
        ),
{
    assert forall|j: int, t: int|
        0 <= j && 0 <= t < 32 && 32 * j + t < data.len() implies #[trigger] cbc_raw(key, iv, data)[32
            * j + t] == rijndael_decrypt_block(key, data.subrange(32 * j, 32 * j + 32))[t] ^ (if j
        == 0 {
        iv[t]
    } else {
        data[32 * (j - 1) + t]
    }) by {
        let i = 32 * j + t;
        assert(i / 32 == j && i % 32 == t) by (nonlinear_arith)
            requires
                i == 32 * j + t,
                0 <= t < 32,
        ;
    }
}

/// The outcome of decrypting a ciphertext.
pub enum Decrypted {
    Plain(Vec<u8>),
    BadLength,
    Malformed,
}

/// Decrypts Rijndael-256-CBC with PKCS#7 padding.
pub fn cbc_decrypt(key: &[u8], iv: &[u8], data: &[u8]) -> (r: Decrypted)
    requires
        key@.len() == 32,
        iv@.len() == 32,
    ensures
        match (r, spec_cbc_decrypt(key@, iv@, data@)) {
            (Decrypted::Plain(p), SpecDecrypted::Plain(q)) => p@ == q,
            (Decrypted::BadLength, SpecDecrypted::BadLength) => true,
            (Decrypted::Malformed, SpecDecrypted::Malformed) => true,
            _ => false,
        },
{
    let len: usize = data.len();
    if len % BLOCK != 0 {
        return Decrypted::BadLength;
    }
    if len == 0 {
        return Decrypted::Malformed;
    }
    let nblocks: usize = len / BLOCK;
    let ghost raw = cbc_raw(key@, iv@, data@);
    let mut out: Vec<u8> = Vec::new();
    let mut j: usize = 0;
    while j < nblocks
        invariant
            len == data@.len(),
            nblocks == len / 32,
            len % 32 == 0,
            key@.len() == 32,
            iv@.len() == 32,
            j <= nblocks,
            raw == cbc_raw(key@, iv@, data@),
            out@ =~= raw.take(32 * j),
        decreases nblocks - j,
    {
        let block = slice_subrange(data, BLOCK * j, BLOCK * j + BLOCK);
        let p = match decrypt_block(key, block) {
            Ok(p) => p,
            Err(_) => { return Decrypted::Malformed; },
        };
        let mut t: usize = 0;
        while t < BLOCK
            invariant
                len == data@.len(),
                nblocks == len / 32,
                len % 32 == 0,
                iv@.len() == 32,
                j < nblocks,
                t <= 32,
                raw == cbc_raw(key@, iv@, data@),
                p@ == rijndael_decrypt_block(key@, block_of(data@, j as int)),
                p@.len() == 32,
                out@ =~= raw.take(32 * j + t),
            decreases 32 - t,
        {
            let prev: u8 = if j == 0 {
                iv[t]
            } else {
                data[BLOCK * j + t - BLOCK]
            };
            proof {
                let i = 32 * j + t;
                assert(i / 32 == j && i % 32 == t) by (nonlinear_arith)
                    requires
                        i == 32 * j + t,
                        0 <= t < 32,
                ;
            }
            out.push(p[t] ^ prev);
            t = t + 1;
        }
        j = j + 1;
    }
    assert(out@ =~= raw);
    let last: u8 = out[len - 1];
    if last as usize > len {
        return Decrypted::Malformed;
    }
    match pkcs7_decode(out) {
        Ok(p) => Decrypted::Plain(p),
        Err(_) => Decrypted::Malformed,
    }
}

} // verus!
