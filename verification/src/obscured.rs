//! The game's `ObscuredString`: UTF-16LE text XOR-ed byte by byte with a key
//! that repeats cyclically. The same operation encrypts and decrypts.
//!
//! Reading and writing the managed object itself happens outside this crate;
//! here are the byte transformations on its `hiddenValue` and key bytes.
use vstd::prelude::*;
use crate::utf16::{
    decode_utf16le, encode_utf16le, lemma_encode_nonempty, lemma_utf16le_roundtrip,
    spec_decode_utf16le, spec_encode_utf16le,
};

verus! {

/// Each byte XOR-ed with the key byte at the same position, the key repeating.
pub open spec fn xor_cycle(data: Seq<u8>, key: Seq<u8>) -> Seq<u8>
    recommends
        key.len() > 0,
{
    Seq::new(data.len(), |i: int| data[i] ^ key[i % (key.len() as int)])
}

/// The plaintext of an obscured value: `None` when the key or the value is
/// empty, or when the XOR-ed bytes are not UTF-16LE text.
pub open spec fn spec_obscured_decode(hidden: Seq<u8>, key: Seq<u8>) -> Option<Seq<char>> {
    if key.len() == 0 || hidden.len() == 0 {
        None
    } else {
        match spec_decode_utf16le(xor_cycle(hidden, key)) {
            Ok(s) => Some(s),
            Err(_) => None,
        }
    }
}

/// The obscured bytes of a text under a key: `None` when the key is empty.
pub open spec fn spec_obscured_encode(text: Seq<char>, key: Seq<u8>) -> Option<Seq<u8>> {
    if key.len() == 0 {
        None
    } else {
        Some(xor_cycle(spec_encode_utf16le(text), key))
    }
}

/// Byte `i` of the result is byte `i` of the data XOR the key byte at `i`
/// modulo the key length; the length is kept.
pub proof fn lemma_xor_cycle_bytes(data: Seq<u8>, key: Seq<u8>)
    requires
        key.len() > 0,
    ensures
        xor_cycle(data, key).len() == data.len(),
        forall|i: int| 0 <= i < data.len() ==> #[trigger] xor_cycle(data, key)[i] == data[i] ^ key[i % (key.len() as int)],
{
}

/// XOR-ing twice with the same key gives the bytes back.
pub proof fn lemma_xor_cycle_involution(data: Seq<u8>, key: Seq<u8>)
    requires
        key.len() > 0,
    ensures
        xor_cycle(xor_cycle(data, key), key) == data,
{
    let once = xor_cycle(data, key);
    assert forall|i: int| 0 <= i < data.len() implies #[trigger] xor_cycle(once, key)[i]
        == data[i] by {
        let a = data[i];
        let b = key[i % (key.len() as int)];
        assert((a ^ b) ^ b == a) by (bit_vector);
    }
    assert(xor_cycle(once, key) =~= data);
}

/// Decrypting what was encrypted under the same non-empty key gives the
/// text back, for every non-empty text.
pub proof fn lemma_obscured_roundtrip(text: Seq<char>, key: Seq<u8>)
    requires
        key.len() > 0,
        text.len() > 0,
    ensures
        spec_obscured_encode(text, key) matches Some(hidden) && spec_obscured_decode(hidden, key)
            == Some(text),
{
    let plain = spec_encode_utf16le(text);
    lemma_encode_nonempty(text);
    lemma_xor_cycle_involution(plain, key);
    lemma_utf16le_roundtrip(text);
}

/// XORs `data` with `key` repeated cyclically.
pub fn xor_with_key(data: &[u8], key: &[u8]) -> (r: Vec<u8>)
    requires
        key@.len() > 0,
    ensures
        r@ == xor_cycle(data@, key@),
{
    let n: usize = data.len();
    let k: usize = key.len();
    let mut r: Vec<u8> = Vec::new();
    let mut i: usize = 0;
    while i < n
        invariant
            n == data@.len(),
            k == key@.len(),
            k > 0,
            i <= n,
            r@ =~= xor_cycle(data@, key@).take(i as int),
        decreases n - i,
    {
        r.push(data[i] ^ key[i % k]);
        i = i + 1;
    }
    r
}

/// Decrypts an obscured value (`hiddenValue` XOR the key bytes, read as
/// UTF-16LE). `None` when the key or the value is empty, when the byte count
/// is odd, or when the bytes are not valid UTF-16.
pub fn obscured_decode(hidden: &[u8], key: &[u8]) -> (r: Option<String>)
    ensures
        r is Some <==> spec_obscured_decode(hidden@, key@) is Some,
        r matches Some(s) ==> s@ == spec_obscured_decode(hidden@, key@).unwrap(),
{
    if key.len() == 0 {
        return None;
    }
    if hidden.len() == 0 {
        return None;
    }
    let plain = xor_with_key(hidden, key);
    match decode_utf16le(plain.as_slice()) {
        Ok(s) => Some(s),
        Err(_) => None,
    }
}

/// Encrypts `text` for an obscured value under `key`: its UTF-16LE bytes
/// XOR the key. `None` when the key is empty.
pub fn obscured_encode(text: &str, key: &[u8]) -> (r: Option<Vec<u8>>)
    ensures
        r is Some <==> spec_obscured_encode(text@, key@) is Some,
        r matches Some(b) ==> b@ == spec_obscured_encode(text@, key@).unwrap(),
{
    if key.len() == 0 {
        return None;
    }
    let plain = encode_utf16le(text);
    Some(xor_with_key(plain.as_slice(), key))
}

} // verus!
