//! TextBundle: the `.script` bundle files that carry translated story text.
//!
//! Layout, integers big-endian:
//!
//! ```text
//! magic       u32 = 0x7A684244
//! file_count  i32
//! file_count × { index u32 (offset of the entry's data)
//!                id    1-byte length + UTF-8 bytes
//!                size  u32 (length of the entry's data)
//!                crc   u32 (not checked) }
//! entry data: Rijndael-256-CBC (PKCS#7) → zlib → UTF-16LE text
//! ```
use vstd::prelude::*;
use vstd::hash_map::StringHashMap;
use vstd::slice::slice_subrange;
use vstd::utf8::{decode_utf8, valid_utf8};
use crate::crypto::{cbc_decrypt, inflate, spec_cbc_decrypt, zlib_inflate, Decrypted, SpecDecrypted};
use crate::text::chars_of;
use crate::utf16::{decode_utf16le, spec_decode_utf16le, Utf16Error};

verus! {

broadcast use vstd::hash_map::group_hash_map_axioms;

/// The bundle's magic number.
pub const MAGIC: u32 = 0x7A684244;

/// The 32-byte key of the bundle cipher.
pub open spec fn spec_bundle_key() -> Seq<u8> {
    seq![
        0x6du8, 0x59, 0x71, 0x33, 0x74, 0x36, 0x76, 0x39, 0x79, 0x24, 0x42, 0x26, 0x45, 0x29,
        0x48, 0x40, 0x4d, 0x63, 0x51, 0x66, 0x54, 0x6a, 0x57, 0x6e, 0x5a, 0x72, 0x34, 0x75,
        0x37, 0x78, 0x21, 0x7a,
    ]
}

/// The 32-byte IV of the bundle cipher.
pub open spec fn spec_bundle_iv() -> Seq<u8> {
    seq![
        0x54u8, 0x6a, 0x57, 0x6e, 0x5a, 0x72, 0x34, 0x75, 0x37, 0x78, 0x21, 0x41, 0x25, 0x44,
        0x2a, 0x47, 0x2d, 0x4b, 0x61, 0x4e, 0x64, 0x52, 0x67, 0x55, 0x6b, 0x58, 0x70, 0x32,
        0x73, 0x35, 0x76, 0x38,
    ]
}

/// The key, ASCII `mYq3t6v9y$B&E)H@McQfTjWnZr4u7x!z`.
pub fn bundle_key() -> (k: Vec<u8>)
    ensures
        k@ == spec_bundle_key(),
{
    let k: Vec<u8> = vec![
        0x6du8, 0x59, 0x71, 0x33, 0x74, 0x36, 0x76, 0x39, 0x79, 0x24, 0x42, 0x26, 0x45, 0x29,
        0x48, 0x40, 0x4d, 0x63, 0x51, 0x66, 0x54, 0x6a, 0x57, 0x6e, 0x5a, 0x72, 0x34, 0x75,
        0x37, 0x78, 0x21, 0x7a,
    ];
    assert(k@ =~= spec_bundle_key());
    k
}

/// The IV, ASCII `TjWnZr4u7x!A%D*G-KaNdRgUkXp2s5v8`.
pub fn bundle_iv() -> (v: Vec<u8>)
    ensures
        v@ == spec_bundle_iv(),
{
    let v: Vec<u8> = vec![
        0x54u8, 0x6a, 0x57, 0x6e, 0x5a, 0x72, 0x34, 0x75, 0x37, 0x78, 0x21, 0x41, 0x25, 0x44,
        0x2a, 0x47, 0x2d, 0x4b, 0x61, 0x4e, 0x64, 0x52, 0x67, 0x55, 0x6b, 0x58, 0x70, 0x32,
        0x73, 0x35, 0x76, 0x38,
    ];
    assert(v@ =~= spec_bundle_iv());
    v
}

// ── Errors ───────────────────────────────────────────────────────────────

/// The field of a file entry that the data ended inside.
#[derive(Debug, Clone, Copy, PartialEq, Eq, Structural)]
pub enum InfoField {
    Index,
    IdLength,
    Id,
    Size,
    Crc,
}

/// Why an entry's data could not be turned into text.
#[derive(Debug, Clone, Copy, PartialEq, Eq, Structural)]
pub enum EntryError {
    /// The ciphertext length is not a multiple of the 32-byte block.
    CipherLength,
    /// The decrypted bytes are not zlib data.
    Decompress,
    /// The inflated bytes are not UTF-16LE text.
    Text(Utf16Error),
}

/// Why a bundle could not be read. Entry numbers count from 0 in file order.
#[derive(Debug, Clone, PartialEq, Eq)]
pub enum BundleError {
    /// Fewer than 4 bytes.
    MissingMagic,
    /// The first 4 bytes, big-endian, are not the magic number.
    BadMagic(u32),
    /// The magic number is not followed by a 4-byte count.
    MissingCount,
    /// The data ends inside the file entry with that number.
    TruncatedInfo(usize, InfoField),
    /// The id of that file entry is not UTF-8.
    InvalidId(usize),
    /// The data of an entry does not decode: its number, its id, and why.
    Entry { entry: usize, id: String, error: EntryError },
}

// ── Format model ─────────────────────────────────────────────────────────

pub open spec fn be_u32_at(d: Seq<u8>, p: int) -> u32 {
    (d[p] * 0x1000000 + d[p + 1] * 0x10000 + d[p + 2] * 0x100 + d[p + 3]) as u32
}

/// A file entry as the model sees it: (index, id, size).
pub type InfoView = (u32, Seq<char>, u32);

/// The file entries: `count` of them from position `pos`, the first one
/// numbered `k`.
pub open spec fn spec_parse_infos(d: Seq<u8>, pos: int, count: nat, k: int) -> Result<
    Seq<InfoView>,
    BundleError,
>
    decreases count,
{
    if count == 0 {
        Ok(Seq::empty())
    } else if pos + 4 > d.len() {
        Err(BundleError::TruncatedInfo(k as usize, InfoField::Index))
    } else if pos + 5 > d.len() {
        Err(BundleError::TruncatedInfo(k as usize, InfoField::IdLength))
    } else {
        let id_end = pos + 5 + d[pos + 4];
        if id_end > d.len() {
            Err(BundleError::TruncatedInfo(k as usize, InfoField::Id))
        } else if !valid_utf8(d.subrange(pos + 5, id_end)) {
            Err(BundleError::InvalidId(k as usize))
        } else if id_end + 4 > d.len() {
            Err(BundleError::TruncatedInfo(k as usize, InfoField::Size))
        } else if id_end + 8 > d.len() {
            Err(BundleError::TruncatedInfo(k as usize, InfoField::Crc))
        } else {
            let info = (
                be_u32_at(d, pos),
                decode_utf8(d.subrange(pos + 5, id_end)),
                be_u32_at(d, id_end),
            );
            match spec_parse_infos(d, id_end + 8, (count - 1) as nat, k + 1) {
                Ok(rest) => Ok(seq![info] + rest),
                Err(e) => Err(e),
            }
        }
    }
}

/// What one entry contributes.
pub enum EntryStep {
    /// The entry's data reaches past the end of the file; it is left out.
    Skip,
    Text(Seq<char>),
    Fail(EntryError),
    /// The cipher library fails on the ciphertext (empty, or a padding byte
    /// beyond the plaintext).
    Malformed,
}

pub open spec fn spec_entry_step(d: Seq<u8>, index: u32, size: u32) -> EntryStep {
    if index + size > d.len() {
        EntryStep::Skip
    } else {
        match spec_cbc_decrypt(
            spec_bundle_key(),
            spec_bundle_iv(),
            d.subrange(index as int, index + size),
        ) {
            SpecDecrypted::BadLength => EntryStep::Fail(EntryError::CipherLength),
            SpecDecrypted::Malformed => EntryStep::Malformed,
            SpecDecrypted::Plain(p) => match zlib_inflate(p) {
                None => EntryStep::Fail(EntryError::Decompress),
                Some(z) => match spec_decode_utf16le(z) {
                    Ok(t) => EntryStep::Text(t),
                    Err(e) => EntryStep::Fail(EntryError::Text(e)),
                },
            },
        }
    }
}

/// What reading a bundle gives.
pub enum BundleOutcome {
    /// Asset id → text, and how many entries were loaded (an entry counts
    /// once for each time it is loaded); a later entry with the same id
    /// replaces an earlier one.
    Loaded(Map<Seq<char>, Seq<char>>, nat),
    /// The header or the entry table is not readable.
    Failed(BundleError),
    /// The entry with that number and id does not decode.
    EntryFailed(int, Seq<char>, EntryError),
    /// The count field is negative, or an entry's ciphertext is one the cipher
    /// library fails on.
    Malformed,
}

/// The entries from number `i` on, added to `acc`, `n` of them loaded so far.
pub open spec fn spec_load_entries(
    d: Seq<u8>,
    infos: Seq<InfoView>,
    i: int,
    acc: Map<Seq<char>, Seq<char>>,
    n: nat,
) -> BundleOutcome
    decreases infos.len() - i,
{
    if i >= infos.len() {
        BundleOutcome::Loaded(acc, n)
    } else {
        match spec_entry_step(d, infos[i].0, infos[i].2) {
            EntryStep::Skip => spec_load_entries(d, infos, i + 1, acc, n),
            EntryStep::Text(t) => spec_load_entries(
                d,
                infos,
                i + 1,
                acc.insert(infos[i].1, t),
                n + 1,
            ),
            EntryStep::Fail(e) => BundleOutcome::EntryFailed(i, infos[i].1, e),
            EntryStep::Malformed => BundleOutcome::Malformed,
        }
    }
}

/// What reading the bundle `d` gives.
pub open spec fn spec_parse_bundle(d: Seq<u8>) -> BundleOutcome {
    if d.len() < 4 {
        BundleOutcome::Failed(BundleError::MissingMagic)
    } else if be_u32_at(d, 0) != MAGIC {
        BundleOutcome::Failed(BundleError::BadMagic(be_u32_at(d, 0)))
    } else if d.len() < 8 {
        BundleOutcome::Failed(BundleError::MissingCount)
    } else if be_u32_at(d, 4) >= 0x8000_0000 {
        BundleOutcome::Malformed
    } else {
        match spec_parse_infos(d, 8, be_u32_at(d, 4) as nat, 0) {
            Err(e) => BundleOutcome::Failed(e),
            Ok(infos) => spec_load_entries(d, infos, 0, Map::empty(), 0),
        }
    }
}

/// The entry table holds as many entries as the count says.
proof fn lemma_infos_len(d: Seq<u8>, pos: int, count: nat, k: int)
    ensures
        spec_parse_infos(d, pos, count, k) matches Ok(v) ==> v.len() == count,
    decreases count,
{
    if count > 0 && pos + 5 <= d.len() {
        let id_end = pos + 5 + d[pos + 4];
        lemma_infos_len(d, id_end + 8, (count - 1) as nat, k + 1);
    }
}

proof fn lemma_load_bound(
    d: Seq<u8>,
    infos: Seq<InfoView>,
    i: int,
    acc: Map<Seq<char>, Seq<char>>,
    n: nat,
)
    requires
        0 <= i <= infos.len(),
        acc.dom().finite(),
        acc.len() <= n,
    ensures
        spec_load_entries(d, infos, i, acc, n) matches BundleOutcome::Loaded(m, c) ==> m.len()
            <= c <= n + (infos.len() - i),
    decreases infos.len() - i,
{
    if i < infos.len() {
        match spec_entry_step(d, infos[i].0, infos[i].2) {
            EntryStep::Skip => lemma_load_bound(d, infos, i + 1, acc, n),
            EntryStep::Text(t) => {
                let next = acc.insert(infos[i].1, t);
                assert(next.dom() =~= acc.dom().insert(infos[i].1));
                lemma_load_bound(d, infos, i + 1, next, n + 1);
            },
            _ => {},
        }
    }
}

/// A loaded bundle holds at most as many ids as entries were loaded, and no
/// more entries are loaded than the count field announces.
pub proof fn lemma_bundle_size(d: Seq<u8>)
    ensures
        spec_parse_bundle(d) matches BundleOutcome::Loaded(m, c) ==> m.len() <= c <= be_u32_at(
            d,
            4,
        ),
{
    if d.len() >= 8 && be_u32_at(d, 0) == MAGIC && be_u32_at(d, 4) < 0x8000_0000 {
        let count = be_u32_at(d, 4) as nat;
        lemma_infos_len(d, 8, count, 0);
        if let Ok(infos) = spec_parse_infos(d, 8, count, 0) {
            lemma_load_bound(d, infos, 0, Map::empty(), 0);
        }
    }
}

/// Integers are big-endian: the first of the four bytes is the most significant.
pub proof fn lemma_be_u32(d: Seq<u8>, p: int)
    requires
        0 <= p,
        p + 4 <= d.len(),
    ensures
        be_u32_at(d, p) as int == d[p] as int * 16777216 + d[p + 1] as int * 65536 + d[p + 2] as int
            * 256 + d[p + 3] as int,
{
}

/// The header: the magic number, then a count that must be non-negative;
/// a missing field, a wrong magic number or an unreadable entry table is an
/// error.
pub proof fn lemma_bundle_header(d: Seq<u8>)
    ensures
        d.len() < 4 ==> spec_parse_bundle(d) == BundleOutcome::Failed(BundleError::MissingMagic),
        d.len() >= 4 && be_u32_at(d, 0) != 0x7A684244 ==> spec_parse_bundle(d)
            == BundleOutcome::Failed(BundleError::BadMagic(be_u32_at(d, 0))),
        4 <= d.len() < 8 && be_u32_at(d, 0) == 0x7A684244 ==> spec_parse_bundle(d)
            == BundleOutcome::Failed(BundleError::MissingCount),
        d.len() >= 8 && be_u32_at(d, 0) == 0x7A684244 && be_u32_at(d, 4) >= 0x8000_0000
            ==> spec_parse_bundle(d) is Malformed,
        d.len() >= 8 && be_u32_at(d, 0) == 0x7A684244 && be_u32_at(d, 4) < 0x8000_0000 ==> (
        spec_parse_infos(d, 8, be_u32_at(d, 4) as nat, 0) matches Err(e) ==> spec_parse_bundle(d)
            == BundleOutcome::Failed(e)),
{
}

/// One file entry of the table at `pos`: index (4 bytes), id length (1 byte),
/// id (UTF-8), size (4 bytes), crc (4 bytes, unchecked); the next entry
/// follows right after it.
pub proof fn lemma_info_layout(d: Seq<u8>, pos: int, count: nat, k: int)
    requires
        0 <= pos,
        count > 0,
        spec_parse_infos(d, pos, count, k) is Ok,
    ensures
        ({
            let n = d[pos + 4] as int;
            let v = spec_parse_infos(d, pos, count, k)->Ok_0;
            &&& pos + 13 + n <= d.len()
            &&& valid_utf8(d.subrange(pos + 5, pos + 5 + n))
            &&& v[0] == (
                be_u32_at(d, pos),
                decode_utf8(d.subrange(pos + 5, pos + 5 + n)),
                be_u32_at(d, pos + 5 + n),
            )
            &&& spec_parse_infos(d, pos + 13 + n, (count - 1) as nat, k + 1) == Ok::<
                Seq<InfoView>,
                BundleError,
            >(v.skip(1))
        }),
{
    let n = d[pos + 4] as int;
    let v = spec_parse_infos(d, pos, count, k)->Ok_0;
    let rest = spec_parse_infos(d, pos + 13 + n, (count - 1) as nat, k + 1)->Ok_0;
    assert(v.skip(1) =~= rest);
}

// ── What a loaded bundle holds ───────────────────────────────────────────

/// Entry `k` of the table decodes to text.
pub open spec fn is_text_entry(d: Seq<u8>, infos: Seq<InfoView>, k: int) -> bool {
    spec_entry_step(d, infos[k].0, infos[k].2) is Text
}

/// Entry `k` of the table decodes to text and has the id `id`.
pub open spec fn is_text_with(d: Seq<u8>, infos: Seq<InfoView>, k: int, id: Seq<char>) -> bool {
    is_text_entry(d, infos, k) && infos[k].1 == id
}

/// The text entry `k` decodes to.
pub open spec fn entry_text(d: Seq<u8>, infos: Seq<InfoView>, k: int) -> Seq<char> {
    match spec_entry_step(d, infos[k].0, infos[k].2) {
        EntryStep::Text(t) => t,
        _ => Seq::empty(),
    }
}

/// Entry `k` decodes to text under `id`, and no later entry does.
pub open spec fn is_last_text_with(d: Seq<u8>, infos: Seq<InfoView>, k: int, id: Seq<char>) -> bool {
    &&& is_text_with(d, infos, k, id)
    &&& forall|l: int| k < l < infos.len() ==> !(#[trigger] is_text_with(d, infos, l, id))
}

/// Entry `k` is either left out (its data lies past the end of the file) or
/// decodes to text.
pub open spec fn entry_ok(d: Seq<u8>, infos: Seq<InfoView>, k: int) -> bool {
    spec_entry_step(d, infos[k].0, infos[k].2) is Skip || is_text_entry(d, infos, k)
}

/// How many of the entries from `i` on decode to text.
pub open spec fn text_entry_count(d: Seq<u8>, infos: Seq<InfoView>, i: int) -> nat
    decreases infos.len() - i,
{
    if i >= infos.len() {
        0
    } else {
        (if is_text_entry(d, infos, i) {
            1nat
        } else {
            0nat
        }) + text_entry_count(d, infos, i + 1)
    }
}

pub open spec fn loaded_map(r: BundleOutcome) -> Map<Seq<char>, Seq<char>> {
    match r {
        BundleOutcome::Loaded(m, _) => m,
        _ => Map::empty(),
    }
}

pub open spec fn loaded_count(r: BundleOutcome) -> nat {
    match r {
        BundleOutcome::Loaded(_, c) => c,
        _ => 0,
    }
}

proof fn lemma_load_ok(
    d: Seq<u8>,
    infos: Seq<InfoView>,
    i: int,
    acc: Map<Seq<char>, Seq<char>>,
    n: nat,
)
    requires
        0 <= i <= infos.len(),
        forall|k: int| i <= k < infos.len() ==> #[trigger] entry_ok(d, infos, k),
    ensures
        ({
            let r = spec_load_entries(d, infos, i, acc, n);
            &&& r is Loaded
            &&& loaded_count(r) == n + text_entry_count(d, infos, i)
            &&& forall|k: int, id: Seq<char>|
                i <= k < infos.len() && #[trigger] is_last_text_with(d, infos, k, id)
                    ==> loaded_map(r).contains_key(id) && loaded_map(r)[id] == entry_text(
                    d,
                    infos,
                    k,
                )
            &&& forall|id: Seq<char>| #[trigger]
                loaded_map(r).contains_key(id) ==> acc.contains_key(id) || exists|k: int|
                    i <= k < infos.len() && #[trigger] is_text_with(d, infos, k, id)
            &&& forall|id: Seq<char>|
                (forall|k: int| i <= k < infos.len() ==> !#[trigger] is_text_with(d, infos, k, id))
                    ==> (#[trigger] loaded_map(r).contains_key(id)) == acc.contains_key(id)
                    && loaded_map(r)[id] == acc[id]
        }),
    decreases infos.len() - i,
{
    if i < infos.len() {
        assert(entry_ok(d, infos, i));
        let r = spec_load_entries(d, infos, i, acc, n);
        match spec_entry_step(d, infos[i].0, infos[i].2) {
            EntryStep::Skip => {
                lemma_load_ok(d, infos, i + 1, acc, n);
                assert(!is_text_entry(d, infos, i));
                assert forall|id: Seq<char>| #[trigger]
                    loaded_map(r).contains_key(id) implies acc.contains_key(id) || exists|k: int|
                    i <= k < infos.len() && #[trigger] is_text_with(d, infos, k, id) by {
                    if !acc.contains_key(id) {
                        let k = choose|k: int|
                            i + 1 <= k < infos.len() && #[trigger] is_text_with(d, infos, k, id);
                        assert(i <= k < infos.len() && is_text_with(d, infos, k, id));
                    }
                }
            },
            EntryStep::Text(t) => {
                let id0 = infos[i].1;
                let acc2 = acc.insert(id0, t);
                lemma_load_ok(d, infos, i + 1, acc2, n + 1);
                assert(is_text_with(d, infos, i, id0));
                assert forall|k: int, id: Seq<char>|
                    i <= k < infos.len() && #[trigger] is_last_text_with(d, infos, k, id)
                    implies loaded_map(r).contains_key(id) && loaded_map(r)[id] == entry_text(
                    d,
                    infos,
                    k,
                ) by {
                    if k == i {
                        assert(id == id0);
                        assert forall|l: int| i + 1 <= l < infos.len() implies !#[trigger] is_text_with(
                            d,
                            infos,
                            l,
                            id,
                        ) by {
                            assert(i < l);
                        }
                    }
                }
                assert forall|id: Seq<char>| #[trigger]
                    loaded_map(r).contains_key(id) implies acc.contains_key(id) || exists|k: int|
                    i <= k < infos.len() && #[trigger] is_text_with(d, infos, k, id) by {
                    if !acc.contains_key(id) {
                        if id == id0 {
                            assert(is_text_with(d, infos, i, id));
                        } else {
                            let k = choose|k: int|
                                i + 1 <= k < infos.len() && #[trigger] is_text_with(d, infos, k, id);
                            assert(i <= k < infos.len() && is_text_with(d, infos, k, id));
                        }
                    }
                }
                assert forall|id: Seq<char>|
                    (forall|k: int| i <= k < infos.len() ==> !#[trigger] is_text_with(d, infos, k, id))
                    implies (#[trigger] loaded_map(r).contains_key(id)) == acc.contains_key(id)
                    && loaded_map(r)[id] == acc[id] by {
                    assert(!is_text_with(d, infos, i, id));
                    assert(id != id0);
                    assert forall|k: int| i + 1 <= k < infos.len() implies !#[trigger] is_text_with(
                        d,
                        infos,
                        k,
                        id,
                    ) by {
                        assert(i <= k);
                    }
                }
            },
            _ => {},
        }
    }
}

proof fn lemma_load_first_bad(
    d: Seq<u8>,
    infos: Seq<InfoView>,
    i: int,
    acc: Map<Seq<char>, Seq<char>>,
    n: nat,
    f: int,
)
    requires
        0 <= i <= f < infos.len(),
        forall|k: int| i <= k < f ==> #[trigger] entry_ok(d, infos, k),
        !entry_ok(d, infos, f),
    ensures
        match spec_entry_step(d, infos[f].0, infos[f].2) {
            EntryStep::Fail(e) => spec_load_entries(d, infos, i, acc, n)
                == BundleOutcome::EntryFailed(f, infos[f].1, e),
            _ => spec_load_entries(d, infos, i, acc, n) is Malformed,
        },
    decreases f - i,
{
    if i < f {
        assert(entry_ok(d, infos, i));
        match spec_entry_step(d, infos[i].0, infos[i].2) {
            EntryStep::Text(t) => lemma_load_first_bad(d, infos, i + 1, acc.insert(infos[i].1, t), n + 1, f),
            _ => lemma_load_first_bad(d, infos, i + 1, acc, n, f),
        }
    }
}

/// What a bundle whose header and entry table read gives, for any count:
/// - the table has as many entries as the count says;
/// - when every entry lies past the end of the file or decodes to text, the
///   bundle loads; each id maps to the text of the last entry with that id
///   that decodes, every id comes from such an entry, and the loaded count is
///   the number of entries that decode;
/// - otherwise the first entry that does not decode decides: its number, its
///   id and why, or the cipher library's failure on it.
pub proof fn lemma_bundle_entries(d: Seq<u8>)
    requires
        d.len() >= 8,
        be_u32_at(d, 0) == MAGIC,
        be_u32_at(d, 4) < 0x8000_0000,
        spec_parse_infos(d, 8, be_u32_at(d, 4) as nat, 0) is Ok,
    ensures
        ({
            let infos = spec_parse_infos(d, 8, be_u32_at(d, 4) as nat, 0)->Ok_0;
            let r = spec_parse_bundle(d);
            &&& infos.len() == be_u32_at(d, 4)
            &&& (forall|k: int| 0 <= k < infos.len() ==> #[trigger] entry_ok(d, infos, k)) ==> {
                &&& r is Loaded
                &&& loaded_count(r) == text_entry_count(d, infos, 0)
                &&& forall|k: int, id: Seq<char>|
                    0 <= k < infos.len() && #[trigger] is_last_text_with(d, infos, k, id)
                        ==> loaded_map(r).contains_key(id) && loaded_map(r)[id] == entry_text(
                        d,
                        infos,
                        k,
                    )
                &&& forall|id: Seq<char>| #[trigger]
                    loaded_map(r).contains_key(id) ==> exists|k: int|
                        0 <= k < infos.len() && #[trigger] is_text_with(d, infos, k, id)
            }
            &&& forall|f: int|
                0 <= f < infos.len() && !entry_ok(d, infos, f) && (forall|k: int|
                    0 <= k < f ==> #[trigger] entry_ok(d, infos, k)) ==> match spec_entry_step(
                    d,
                    infos[f].0,
                    infos[f].2,
                ) {
                    EntryStep::Fail(e) => r == BundleOutcome::EntryFailed(f, infos[f].1, e),
                    _ => r is Malformed,
                }
        }),
{
    let count = be_u32_at(d, 4) as nat;
    let infos = spec_parse_infos(d, 8, count, 0)->Ok_0;
    lemma_infos_len(d, 8, count, 0);
    let empty = Map::<Seq<char>, Seq<char>>::empty();
    if forall|k: int| 0 <= k < infos.len() ==> #[trigger] entry_ok(d, infos, k) {
        lemma_load_ok(d, infos, 0, empty, 0);
    }
    assert forall|f: int|
        0 <= f < infos.len() && !entry_ok(d, infos, f) && (forall|k: int|
            0 <= k < f ==> #[trigger] entry_ok(d, infos, k)) implies match spec_entry_step(
        d,
        infos[f].0,
        infos[f].2,
    ) {
        EntryStep::Fail(e) => spec_parse_bundle(d) == BundleOutcome::EntryFailed(f, infos[f].1, e),
        _ => spec_parse_bundle(d) is Malformed,
    } by {
        lemma_load_first_bad(d, infos, 0, empty, 0, f);
    }
}

/// An entry is left out exactly when its data reaches past the end of the
/// file, and decodes to text exactly when its ciphertext decrypts, the
/// plaintext inflates and the result is UTF-16LE text.
pub proof fn lemma_entry_step(d: Seq<u8>, index: u32, size: u32)
    ensures
        (spec_entry_step(d, index, size) is Skip) == (index + size > d.len()),
        forall|t: Seq<char>|
            spec_entry_step(d, index, size) == EntryStep::Text(t) <==> {
                &&& index + size <= d.len()
                &&& spec_cbc_decrypt(
                    spec_bundle_key(),
                    spec_bundle_iv(),
                    d.subrange(index as int, index + size),
                ) matches SpecDecrypted::Plain(p)
                &&& zlib_inflate(p) matches Some(z)
                &&& spec_decode_utf16le(z) == Ok::<Seq<char>, Utf16Error>(t)
            },
{
}

// ── The bundle ───────────────────────────────────────────────────────────

/// Loaded script entries: asset id → text.
pub struct ScriptBundle {
    entries: StringHashMap<String>,
}

impl View for ScriptBundle {
    type V = Map<Seq<char>, Seq<char>>;

    closed spec fn view(&self) -> Map<Seq<char>, Seq<char>> {
        self.entries@.map_values(|s: String| s@)
    }
}

impl ScriptBundle {
    /// A bundle with no entries.
    pub fn empty() -> (r: Self)
        ensures
            r@ == Map::<Seq<char>, Seq<char>>::empty(),
    {
        let r = ScriptBundle { entries: StringHashMap::new() };
        assert(r@ =~= Map::<Seq<char>, Seq<char>>::empty());
        r
    }

    /// Looks up an entry by its asset id.
    pub fn get(&self, id: &str) -> (r: Option<&str>)
        ensures
            match r {
                Some(s) => self@.contains_key(id@) && s@ == self@[id@],
                None => !self@.contains_key(id@),
            },
    {
        match self.entries.get(id) {
            Some(s) => Some(s.as_str()),
            None => None,
        }
    }

    /// The number of entries.
    pub fn len(&self) -> (n: usize)
        ensures
            n == self@.len(),
    {
        assert(self@.dom() =~= self.entries@.dom());
        self.entries.len()
    }

    /// Adds an entry, replacing one with the same id.
    pub fn insert(&mut self, id: String, text: String)
        ensures
            final(self)@ == old(self)@.insert(id@, text@),
    {
        self.entries.insert(id, text);
        assert(self@ =~= old(self)@.insert(id@, text@));
    }

    /// The script that replaces the asset `name`, if any. Script assets are
    /// named by their first two characters, both in the ASCII range `0`..=`@`
    /// (digits, `:`, `;`, `<`, `=`, `>`, `?`, `@`); other names are never replaced.
    pub fn lookup_asset(&self, name: &str) -> (r: Option<&str>)
        ensures
            is_script_asset_name(name@) && self@.contains_key(name@) ==> (r matches Some(s) && s@
                == self@[name@]),
            !(is_script_asset_name(name@) && self@.contains_key(name@)) ==> r is None,
    {
        let v = chars_of(name);
        if v.len() >= 2 && '0' <= v[0] && v[0] <= '@' && '0' <= v[1] && v[1] <= '@' {
            self.get(name)
        } else {
            None
        }
    }
}

/// Whether an asset name is a script's: its first two characters are in the
/// ASCII range `0`..=`@`.
pub open spec fn is_script_asset_name(name: Seq<char>) -> bool {
    &&& name.len() >= 2
    &&& '0' <= name[0] <= '@'
    &&& '0' <= name[1] <= '@'
}

/// Script asset names, by character code: at least two characters, the first
/// two between 0x30 (`0`) and 0x40 (`@`).
pub proof fn lemma_script_asset_name(name: Seq<char>)
    ensures
        is_script_asset_name(name) == (name.len() >= 2 && 0x30 <= (name[0] as int) <= 0x40 && 0x30
            <= (name[1] as int) <= 0x40),
{
}

// ── Parsing ──────────────────────────────────────────────────────────────

/// A file entry.
pub struct EntryInfo {
    pub index: u32,
    pub id: String,
    pub size: u32,
}

impl View for EntryInfo {
    type V = InfoView;

    open spec fn view(&self) -> InfoView {
        (self.index, self.id@, self.size)
    }
}

pub open spec fn info_views(v: Seq<EntryInfo>) -> Seq<InfoView> {
    v.map_values(|e: EntryInfo| e@)
}

/// The entries read so far followed by what the rest gives.
pub open spec fn chain_infos(prefix: Seq<InfoView>, rest: Result<Seq<InfoView>, BundleError>) -> Result<
    Seq<InfoView>,
    BundleError,
> {
    match rest {
        Ok(r) => Ok(prefix + r),
        Err(e) => Err(e),
    }
}

/// `String::from_utf8`: the text of UTF-8 bytes, or `None` when they are not
/// UTF-8 (vstd's `valid_utf8` and `decode_utf8` model UTF-8).
#[verifier::external_body]
fn string_from_utf8(bytes: &[u8]) -> (r: Option<String>)
    ensures
        r is Some <==> valid_utf8(bytes@),
        r matches Some(s) ==> s@ == decode_utf8(bytes@),
{
    String::from_utf8(bytes.to_vec()).ok()
}

/// Reads a big-endian `u32` at `pos`.
pub fn read_be_u32(data: &[u8], pos: usize) -> (v: u32)
    requires
        pos + 4 <= data@.len(),
    ensures
        v == be_u32_at(data@, pos as int),
{
    (data[pos] as u32) * 0x1000000 + (data[pos + 1] as u32) * 0x10000 + (data[pos + 2] as u32)
        * 0x100 + (data[pos + 3] as u32)
}

/// Reads `count` file entries from position 8.
fn parse_infos(data: &[u8], count: u32) -> (r: Result<Vec<EntryInfo>, BundleError>)
    requires
        data@.len() >= 8,
        count < 0x8000_0000,
    ensures
        match r {
            Ok(v) => spec_parse_infos(data@, 8, count as nat, 0) == Ok::<
                Seq<InfoView>,
                BundleError,
            >(info_views(v@)),
            Err(e) => spec_parse_infos(data@, 8, count as nat, 0) == Err::<
                Seq<InfoView>,
                BundleError,
            >(e),
        },
{
    let len: usize = data.len();
    let mut pos: usize = 8;
    let mut infos: Vec<EntryInfo> = Vec::new();
    let mut i: u32 = 0;
    assert(info_views(infos@) + Seq::<InfoView>::empty() =~= Seq::<InfoView>::empty());
    while i < count
        invariant
            len == data@.len(),
            8 <= pos <= len,
            i <= count,
            count < 0x8000_0000,
            spec_parse_infos(data@, 8, count as nat, 0) == chain_infos(
                info_views(infos@),
                spec_parse_infos(data@, pos as int, (count - i) as nat, i as int),
            ),
        decreases count - i,
    {
        let ghost rem = (count - i) as nat;
        if len - pos < 4 {
            return Err(BundleError::TruncatedInfo(i as usize, InfoField::Index));
        }
        let index = read_be_u32(data, pos);
        if len - pos < 5 {
            return Err(BundleError::TruncatedInfo(i as usize, InfoField::IdLength));
        }
        let n: usize = data[pos + 4] as usize;
        if len - pos - 5 < n {
            return Err(BundleError::TruncatedInfo(i as usize, InfoField::Id));
        }
        let id_end: usize = pos + 5 + n;
        let id = match string_from_utf8(slice_subrange(data, pos + 5, id_end)) {
            Some(s) => s,
            None => {
                return Err(BundleError::InvalidId(i as usize));
            },
        };
        if len - id_end < 4 {
            return Err(BundleError::TruncatedInfo(i as usize, InfoField::Size));
        }
        let size = read_be_u32(data, id_end);
        if len - id_end < 8 {
            return Err(BundleError::TruncatedInfo(i as usize, InfoField::Crc));
        }
        let info = EntryInfo { index, id, size };
        let ghost before = info_views(infos@);
        let ghost iv = info@;
        infos.push(info);
        proof {
            assert(info_views(infos@) =~= before.push(iv));
            match spec_parse_infos(data@, id_end + 8, (rem - 1) as nat, i + 1) {
                Ok(rest) => {
                    assert(before + (seq![iv] + rest) =~= before.push(iv) + rest);
                },
                Err(_) => {},
            }
        }
        pos = id_end + 8;
        i = i + 1;
    }
    assert(info_views(infos@) + Seq::<InfoView>::empty() =~= info_views(infos@));
    Ok(infos)
}

/// What one entry contributes, computed.
enum StepResult {
    Skip,
    Text(String),
    Fail(EntryError),
    Malformed,
}

fn entry_step(data: &[u8], key: &[u8], iv: &[u8], index: u32, size: u32) -> (r: StepResult)
    requires
        key@ == spec_bundle_key(),
        iv@ == spec_bundle_iv(),
    ensures
        match (r, spec_entry_step(data@, index, size)) {
            (StepResult::Skip, EntryStep::Skip) => true,
            (StepResult::Text(s), EntryStep::Text(t)) => s@ == t,
            (StepResult::Fail(e), EntryStep::Fail(f)) => e == f,
            (StepResult::Malformed, EntryStep::Malformed) => true,
            _ => false,
        },
{
    let len: u64 = data.len() as u64;
    let end: u64 = index as u64 + size as u64;
    if end > len {
        return StepResult::Skip;
    }
    let cipher = slice_subrange(data, index as usize, end as usize);
    match cbc_decrypt(key, iv, cipher) {
        Decrypted::BadLength => StepResult::Fail(EntryError::CipherLength),
        Decrypted::Malformed => StepResult::Malformed,
        Decrypted::Plain(p) => match inflate(p.as_slice()) {
            None => StepResult::Fail(EntryError::Decompress),
            Some(z) => match decode_utf16le(z.as_slice()) {
                Ok(t) => StepResult::Text(t),
                Err(e) => StepResult::Fail(EntryError::Text(e)),
            },
        },
    }
}

/// Reads a bundle. `None` on the inputs on which the cipher library fails
/// or the entry table cannot even be allocated: a negative count, or an entry
/// whose ciphertext is empty or decrypts to a padding byte beyond its length.
/// On success, the bundle and the number of entries loaded.
pub fn try_parse_bundle(data: &[u8]) -> (r: Option<Result<(ScriptBundle, usize), BundleError>>)
    ensures
        match spec_parse_bundle(data@) {
            BundleOutcome::Loaded(m, c) => r matches Some(Ok((b, n))) && b@ == m && n == c,
            BundleOutcome::Failed(e) => r matches Some(Err(f)) && f == e,
            BundleOutcome::EntryFailed(i, id, e) => r matches Some(
                Err(BundleError::Entry { entry, id: fid, error }),
            ) && entry == i && fid@ == id && error == e,
            BundleOutcome::Malformed => r is None,
        },
{
    let len: usize = data.len();
    if len < 4 {
        return Some(Err(BundleError::MissingMagic));
    }
    let magic = read_be_u32(data, 0);
    if magic != MAGIC {
        return Some(Err(BundleError::BadMagic(magic)));
    }
    if len < 8 {
        return Some(Err(BundleError::MissingCount));
    }
    let count = read_be_u32(data, 4);
    if count >= 0x8000_0000 {
        return None;
    }
    let infos = match parse_infos(data, count) {
        Ok(v) => v,
        Err(e) => {
            return Some(Err(e));
        },
    };
    let ghost views = info_views(infos@);
    let key = bundle_key();
    let iv = bundle_iv();
    let mut bundle = ScriptBundle::empty();
    let mut loaded: usize = 0;
    let n: usize = infos.len();
    let mut i: usize = 0;
    while i < n
        invariant
            n == infos@.len(),
            views == info_views(infos@),
            i <= n,
            loaded <= i,
            key@ == spec_bundle_key(),
            iv@ == spec_bundle_iv(),
            spec_parse_bundle(data@) == spec_load_entries(
                data@,
                views,
                i as int,
                bundle@,
                loaded as nat,
            ),
        decreases n - i,
    {
        let info = &infos[i];
        assert(views[i as int] == info@);
        match entry_step(data, key.as_slice(), iv.as_slice(), info.index, info.size) {
            StepResult::Skip => {},
            StepResult::Text(t) => {
                bundle.insert(info.id.clone(), t);
                loaded = loaded + 1;
            },
            StepResult::Fail(e) => {
                return Some(Err(BundleError::Entry { entry: i, id: info.id.clone(), error: e }));
            },
            StepResult::Malformed => {
                return None;
            },
        }
        i = i + 1;
    }
    Some(Ok((bundle, loaded)))
}

} // verus!
