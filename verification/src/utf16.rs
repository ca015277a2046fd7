//! UTF-16 little-endian text, as IL2CPP stores strings and as the script
//! bundles and obscured strings carry them.
use vstd::prelude::*;
use vstd::utf8::is_scalar;

verus! {

broadcast use vstd::utf8::char_is_scalar, vstd::utf8::char_u32_cast;

/// Why a byte sequence is not UTF-16LE text.
#[derive(Debug, Clone, Copy, PartialEq, Eq, Structural)]
pub enum Utf16Error {
    /// The byte count is odd, so the bytes are not a sequence of code units.
    OddLength,
    /// The code units hold an unpaired or misplaced surrogate.
    Invalid,
}

// ── Model ────────────────────────────────────────────────────────────────

pub open spec fn is_surrogate(u: u16) -> bool {
    0xD800 <= u <= 0xDFFF
}

pub open spec fn is_high_surrogate(u: u16) -> bool {
    0xD800 <= u <= 0xDBFF
}

pub open spec fn is_low_surrogate(u: u16) -> bool {
    0xDC00 <= u <= 0xDFFF
}

/// The scalar value that a high and a low surrogate stand for together.
pub open spec fn pair_value(hi: u16, lo: u16) -> u32 {
    (0x10000 + (hi - 0xD800) * 0x400 + (lo - 0xDC00)) as u32
}

/// UTF-16 decoding: `None` when the units hold an unpaired surrogate.
pub open spec fn utf16_decode(u: Seq<u16>) -> Option<Seq<char>>
    decreases u.len(),
{
    if u.len() == 0 {
        Some(Seq::empty())
    } else if !is_surrogate(u[0]) {
        match utf16_decode(u.skip(1)) {
            Some(rest) => Some(seq![(u[0] as u32) as char] + rest),
            None => None,
        }
    } else if is_high_surrogate(u[0]) && u.len() >= 2 && is_low_surrogate(u[1]) {
        match utf16_decode(u.skip(2)) {
            Some(rest) => Some(seq![pair_value(u[0], u[1]) as char] + rest),
            None => None,
        }
    } else {
        None
    }
}

/// Lossy UTF-16 decoding: each unpaired surrogate becomes U+FFFD.
pub open spec fn utf16_decode_lossy(u: Seq<u16>) -> Seq<char>
    decreases u.len(),
{
    if u.len() == 0 {
        Seq::empty()
    } else if !is_surrogate(u[0]) {
        seq![(u[0] as u32) as char] + utf16_decode_lossy(u.skip(1))
    } else if is_high_surrogate(u[0]) && u.len() >= 2 && is_low_surrogate(u[1]) {
        seq![pair_value(u[0], u[1]) as char] + utf16_decode_lossy(u.skip(2))
    } else {
        seq!['\u{FFFD}'] + utf16_decode_lossy(u.skip(1))
    }
}

/// The UTF-16 code units of one character.
pub open spec fn utf16_encode_char(c: char) -> Seq<u16> {
    let v = c as u32;
    if v < 0x10000 {
        seq![v as u16]
    } else {
        seq![(0xD800 + (v - 0x10000) / 0x400) as u16, (0xDC00 + (v - 0x10000) % 0x400) as u16]
    }
}

/// UTF-16 encoding of a character sequence.
pub open spec fn utf16_encode(s: Seq<char>) -> Seq<u16>
    decreases s.len(),
{
    if s.len() == 0 {
        Seq::empty()
    } else {
        utf16_encode_char(s[0]) + utf16_encode(s.skip(1))
    }
}

/// The code units that little-endian byte pairs spell (a trailing odd byte is ignored).
pub open spec fn le_units(b: Seq<u8>) -> Seq<u16> {
    Seq::new(b.len() / 2, |i: int| (b[2 * i] + 256 * b[2 * i + 1]) as u16)
}

/// The little-endian bytes of a sequence of code units.
pub open spec fn le_bytes(u: Seq<u16>) -> Seq<u8> {
    Seq::new(
        2 * u.len(),
        |j: int|
            if j % 2 == 0 {
                (u[j / 2] % 256) as u8
            } else {
                (u[j / 2] / 256) as u8
            },
    )
}

/// What decoding UTF-16LE bytes gives.
pub open spec fn spec_decode_utf16le(b: Seq<u8>) -> Result<Seq<char>, Utf16Error> {
    if b.len() % 2 != 0 {
        Err(Utf16Error::OddLength)
    } else {
        match utf16_decode(le_units(b)) {
            Some(s) => Ok(s),
            None => Err(Utf16Error::Invalid),
        }
    }
}

/// The UTF-16LE bytes of a character sequence.
pub open spec fn spec_encode_utf16le(s: Seq<char>) -> Seq<u8> {
    le_bytes(utf16_encode(s))
}

// ── Laws ─────────────────────────────────────────────────────────────────

/// Encoding one character and decoding it gives the character back.
proof fn lemma_encode_char_decodes(c: char, rest: Seq<u16>)
    ensures
        ({
            let e = utf16_encode_char(c);
            let u = e + rest;
            &&& 1 <= e.len() <= 2
            &&& u.skip(e.len() as int) == rest
            &&& e.len() == 1 ==> !is_surrogate(u[0]) && (u[0] as u32) as char == c
            &&& e.len() == 2 ==> is_high_surrogate(u[0]) && u.len() >= 2 && is_low_surrogate(u[1])
                && pair_value(u[0], u[1]) as char == c
        }),
{
    let v = c as u32;
    let e = utf16_encode_char(c);
    let u = e + rest;
    assert(is_scalar(v));
    assert(u.skip(e.len() as int) =~= rest);
    if v >= 0x10000 {
        let hi = (0xD800 + (v - 0x10000) / 0x400) as u16;
        let lo = (0xDC00 + (v - 0x10000) % 0x400) as u16;
        assert(u[0] == hi && u[1] == lo);
        assert(pair_value(hi, lo) == v);
    }
}

/// Decoding the UTF-16 encoding of any text gives the text back.
pub proof fn lemma_utf16_roundtrip(s: Seq<char>)
    ensures
        utf16_decode(utf16_encode(s)) == Some(s),
    decreases s.len(),
{
    if s.len() > 0 {
        let rest = utf16_encode(s.skip(1));
        lemma_utf16_roundtrip(s.skip(1));
        lemma_encode_char_decodes(s[0], rest);
        assert(utf16_encode(s) == utf16_encode_char(s[0]) + rest);
        assert(seq![s[0]] + s.skip(1) =~= s);
    } else {
        assert(utf16_encode(s) =~= Seq::<u16>::empty());
        assert(s =~= Seq::<char>::empty());
    }
}

/// Code units survive a trip through little-endian bytes.
pub proof fn lemma_le_roundtrip(u: Seq<u16>)
    ensures
        le_bytes(u).len() == 2 * u.len(),
        le_units(le_bytes(u)) == u,
{
    let b = le_bytes(u);
    assert forall|i: int| 0 <= i < u.len() implies #[trigger] le_units(b)[i] == u[i] by {
        assert((2 * i) / 2 == i && (2 * i) % 2 == 0);
        assert((2 * i + 1) / 2 == i && (2 * i + 1) % 2 == 1);
    }
    assert(le_units(b) =~= u);
}

/// Decoding the UTF-16LE bytes of any text gives the text back.
pub proof fn lemma_utf16le_roundtrip(s: Seq<char>)
    ensures
        spec_decode_utf16le(spec_encode_utf16le(s)) == Ok::<Seq<char>, Utf16Error>(s),
{
    lemma_le_roundtrip(utf16_encode(s));
    lemma_utf16_roundtrip(s);
}

/// Where strict decoding succeeds, lossy decoding gives the same text.
pub proof fn lemma_lossy_agrees(u: Seq<u16>)
    requires
        utf16_decode(u) is Some,
    ensures
        utf16_decode_lossy(u) == utf16_decode(u).unwrap(),
    decreases u.len(),
{
    if u.len() > 0 {
        if !is_surrogate(u[0]) {
            lemma_lossy_agrees(u.skip(1));
        } else {
            lemma_lossy_agrees(u.skip(2));
        }
    }
}

/// Decoding is piecewise: a unit outside the surrogate range is the
/// character with that value, a high surrogate (D800..=DBFF) followed by a
/// low one (DC00..=DFFF) is the character 0x10000 + (high - 0xD800) * 0x400 +
/// (low - 0xDC00), a lone surrogate fails, and decoded pieces join.
pub proof fn lemma_decode_pieces(a: Seq<u16>, b: Seq<u16>, u: u16, hi: u16, lo: u16)
    ensures
        utf16_decode(Seq::empty()) == Some(Seq::<char>::empty()),
        !(0xD800 <= u <= 0xDFFF) ==> utf16_decode(seq![u]) == Some(seq![(u as u32) as char]),
        0xD800 <= u <= 0xDFFF ==> utf16_decode(seq![u]) is None,
        0xD800 <= hi <= 0xDBFF && 0xDC00 <= lo <= 0xDFFF ==> utf16_decode(seq![hi, lo]) == Some(
            seq![((0x10000 + (hi - 0xD800) * 0x400 + (lo - 0xDC00)) as u32) as char],
        ),
        utf16_decode(a) is Some && utf16_decode(b) is Some ==> utf16_decode(a + b) == Some(
            utf16_decode(a).unwrap() + utf16_decode(b).unwrap(),
        ),
    decreases a.len(),
{
    assert(seq![u].skip(1) =~= Seq::<u16>::empty());
    assert(seq![hi, lo].skip(2) =~= Seq::<u16>::empty());
    assert(seq![(u as u32) as char] + Seq::<char>::empty() =~= seq![(u as u32) as char]);
    assert(seq![pair_value(hi, lo) as char] + Seq::<char>::empty() =~= seq![pair_value(hi, lo) as char]);
    if utf16_decode(a) is Some && utf16_decode(b) is Some && a.len() > 0 {
        let w = if !is_surrogate(a[0]) { 1int } else { 2int };
        assert((a + b).skip(w) =~= a.skip(w) + b);
        lemma_decode_pieces(a.skip(w), b, u, hi, lo);
        let x = utf16_decode(a.skip(w)).unwrap();
        let y = utf16_decode(b).unwrap();
        if !is_surrogate(a[0]) {
            assert(seq![(a[0] as u32) as char] + (x + y) =~= (seq![(a[0] as u32) as char] + x) + y);
        } else {
            assert((a + b)[1] == a[1]);
            assert(seq![pair_value(a[0], a[1]) as char] + (x + y) =~= (seq![pair_value(a[0], a[1]) as char] + x) + y);
        }
    } else if a.len() == 0 {
        assert(a + b =~= b);
        assert(Seq::<char>::empty() + utf16_decode(b).unwrap() =~= utf16_decode(b).unwrap());
    }
}

/// Little-endian bytes: each code unit is its first byte plus 256 times its
/// second, and an odd trailing byte is not a unit.
pub proof fn lemma_le_units(b: Seq<u8>)
    ensures
        le_units(b).len() == b.len() / 2,
        forall|i: int| 0 <= i < b.len() / 2 ==> #[trigger] le_units(b)[i] == b[2 * i] + 256 * b[2 * i + 1],
{
}

/// Non-empty text has a non-empty encoding.
pub proof fn lemma_encode_nonempty(s: Seq<char>)
    requires
        s.len() > 0,
    ensures
        spec_encode_utf16le(s).len() > 0,
{
    lemma_le_roundtrip(utf16_encode(s));
}

// ── Executable ───────────────────────────────────────────────────────────

/// `char::from_u32`: the character with scalar value `v`, or `None` when `v`
/// is not a Unicode scalar value (a surrogate or above 0x10FFFF), as the
/// standard library documents.
#[verifier::external_body]
pub(crate) fn char_from_u32(v: u32) -> (r: Option<char>)
    ensures
        is_scalar(v) ==> r == Some(v as char),
        !is_scalar(v) ==> r is None,
{
    char::from_u32(v)
}

/// `String::push`: appends one character.
#[verifier::external_body]
pub(crate) fn push_char(s: &mut String, c: char)
    ensures
        final(s)@ == old(s)@.push(c),
{
    s.push(c)
}

/// Reads little-endian byte pairs as code units.
pub fn units_from_le(data: &[u8]) -> (u: Vec<u16>)
    ensures
        u@ == le_units(data@),
{
    let len: usize = data.len();
    let n: usize = len / 2;
    let mut u: Vec<u16> = Vec::new();
    let mut i: usize = 0;
    while i < n
        invariant
            len == data@.len(),
            n == len / 2,
            i <= n,
            u@ =~= le_units(data@).take(i as int),
        decreases n - i,
    {
        let lo: u16 = data[2 * i] as u16;
        let hi: u16 = data[2 * i + 1] as u16;
        u.push(lo + hi * 256);
        i = i + 1;
    }
    u
}

/// Decodes UTF-16 code units; `None` on an unpaired surrogate.
pub fn decode_units(u: &Vec<u16>) -> (r: Option<String>)
    ensures
        r is Some <==> utf16_decode(u@) is Some,
        r matches Some(s) ==> s@ == utf16_decode(u@).unwrap(),
{
    let n: usize = u.len();
    let mut out = String::new();
    let mut i: usize = 0;
    assert(u@.skip(0) =~= u@);
    while i < n
        invariant
            n == u@.len(),
            i <= n,
            match utf16_decode(u@.skip(i as int)) {
                Some(rest) => utf16_decode(u@) == Some(out@ + rest),
                None => utf16_decode(u@) is None,
            },
        decreases n - i,
    {
        let ghost tail = u@.skip(i as int);
        let w: u16 = u[i];
        if w < 0xD800 || w > 0xDFFF {
            assert(tail.skip(1) =~= u@.skip(i + 1));
            let c = match char_from_u32(w as u32) {
                Some(c) => c,
                None => { return None; },
            };
            proof {
                if let Some(rest) = utf16_decode(tail.skip(1)) {
                    assert(out@.push(c) + rest =~= out@ + (seq![c] + rest));
                }
            }
            push_char(&mut out, c);
            i = i + 1;
        } else if w <= 0xDBFF && i + 1 < n && u[i + 1] >= 0xDC00 && u[i + 1] <= 0xDFFF {
            let lo: u16 = u[i + 1];
            assert(tail.skip(2) =~= u@.skip(i + 2));
            let v: u32 = 0x10000 + ((w - 0xD800) as u32) * 0x400 + ((lo - 0xDC00) as u32);
            assert(v == pair_value(w, lo));
            let c = match char_from_u32(v) {
                Some(c) => c,
                None => { return None; },
            };
            proof {
                if let Some(rest) = utf16_decode(tail.skip(2)) {
                    assert(out@.push(c) + rest =~= out@ + (seq![c] + rest));
                }
            }
            push_char(&mut out, c);
            i = i + 2;
        } else {
            return None;
        }
    }
    proof {
        assert(u@.skip(n as int) =~= Seq::<u16>::empty());
        assert(out@ + Seq::<char>::empty() =~= out@);
    }
    Some(out)
}

/// Decodes UTF-16 code units, replacing each unpaired surrogate by U+FFFD.
pub fn decode_units_lossy(u: &Vec<u16>) -> (r: String)
    ensures
        r@ == utf16_decode_lossy(u@),
{
    let n: usize = u.len();
    let mut out = String::new();
    let mut i: usize = 0;
    assert(u@.skip(0) =~= u@);
    assert(out@ + utf16_decode_lossy(u@) =~= utf16_decode_lossy(u@));
    while i < n
        invariant
            n == u@.len(),
            i <= n,
            utf16_decode_lossy(u@) == out@ + utf16_decode_lossy(u@.skip(i as int)),
        decreases n - i,
    {
        let ghost tail = u@.skip(i as int);
        let w: u16 = u[i];
        let c: char;
        let step: usize;
        if w < 0xD800 || w > 0xDFFF {
            c = match char_from_u32(w as u32) {
                Some(c) => c,
                None => '\u{FFFD}',
            };
            step = 1;
        } else if w <= 0xDBFF && i + 1 < n && u[i + 1] >= 0xDC00 && u[i + 1] <= 0xDFFF {
            let lo: u16 = u[i + 1];
            let v: u32 = 0x10000 + ((w - 0xD800) as u32) * 0x400 + ((lo - 0xDC00) as u32);
            assert(v == pair_value(w, lo));
            c = match char_from_u32(v) {
                Some(c) => c,
                None => '\u{FFFD}',
            };
            step = 2;
        } else {
            c = '\u{FFFD}';
            step = 1;
        }
        assert(tail.skip(step as int) =~= u@.skip(i + step));
        assert(utf16_decode_lossy(tail) == seq![c] + utf16_decode_lossy(tail.skip(step as int)));
        assert(out@.push(c) + utf16_decode_lossy(u@.skip(i + step)) =~= out@ + (seq![c]
            + utf16_decode_lossy(u@.skip(i + step))));
        push_char(&mut out, c);
        i = i + step;
    }
    assert(u@.skip(n as int) =~= Seq::<u16>::empty());
    assert(out@ + Seq::<char>::empty() =~= out@);
    out
}

/// Decodes UTF-16LE bytes leniently: a trailing odd byte is ignored and
/// each unpaired surrogate becomes U+FFFD. A byte order mark is kept.
pub fn decode_utf16le_lossy(data: &[u8]) -> (r: String)
    ensures
        r@ == utf16_decode_lossy(le_units(data@)),
{
    let units = units_from_le(data);
    decode_units_lossy(&units)
}

/// A text file's content: lossy UTF-16LE, without a leading byte order mark.
pub open spec fn spec_decode_text_file(b: Seq<u8>) -> Seq<char> {
    let s = utf16_decode_lossy(le_units(b));
    if s.len() > 0 && s[0] == '\u{FEFF}' {
        s.skip(1)
    } else {
        s
    }
}

/// Reads a UTF-16LE text file's bytes: lossy decoding (a trailing odd byte
/// ignored, unpaired surrogates replaced by U+FFFD), a leading byte order
/// mark discarded.
pub fn decode_text_file(data: &[u8]) -> (r: String)
    ensures
        r@ == spec_decode_text_file(data@),
{
    let units = units_from_le(data);
    if units.len() > 0 && units[0] == 0xFEFF {
        let n: usize = units.len();
        let mut rest: Vec<u16> = Vec::new();
        let mut i: usize = 1;
        while i < n
            invariant
                n == units@.len(),
                1 <= i <= n,
                rest@ =~= units@.subrange(1, i as int),
            decreases n - i,
        {
            rest.push(units[i]);
            i = i + 1;
        }
        let r = decode_units_lossy(&rest);
        proof {
            let u = units@;
            assert(u.skip(1) =~= rest@);
            assert(utf16_decode_lossy(u) == seq![(u[0] as u32) as char] + utf16_decode_lossy(u.skip(1)));
            assert((0xFEFFu32 as char) == '\u{FEFF}');
            assert(utf16_decode_lossy(u).skip(1) =~= utf16_decode_lossy(rest@));
        }
        r
    } else {
        let r = decode_units_lossy(&units);
        proof {
            let u = units@;
            if u.len() > 0 && !is_surrogate(u[0]) {
                assert(utf16_decode_lossy(u)[0] == (u[0] as u32) as char);
                assert(((u[0] as u32) as char) as u32 == u[0] as u32);
            }
        }
        r
    }
}

/// Decodes UTF-16LE bytes into text.
///
/// Fails with `OddLength` when the byte count is odd, and with `Invalid`
/// when the code units hold an unpaired surrogate.
pub fn decode_utf16le(data: &[u8]) -> (r: Result<String, Utf16Error>)
    ensures
        match r {
            Ok(s) => spec_decode_utf16le(data@) == Ok::<Seq<char>, Utf16Error>(s@),
            Err(e) => spec_decode_utf16le(data@) == Err::<Seq<char>, Utf16Error>(e),
        },
{
    if data.len() % 2 != 0 {
        return Err(Utf16Error::OddLength);
    }
    let units = units_from_le(data);
    match decode_units(&units) {
        Some(s) => Ok(s),
        None => Err(Utf16Error::Invalid),
    }
}

/// The UTF-16 code units of a text.
pub fn encode_units(s: &str) -> (u: Vec<u16>)
    ensures
        u@ == utf16_encode(s@),
{
    let mut u: Vec<u16> = Vec::new();
    let ghost chars = s@;
    assert(chars.skip(0) =~= chars);
    assert(u@ + utf16_encode(chars) =~= utf16_encode(chars));
    for c in it: s.chars()
        invariant
            it.seq() == chars,
            u@ + utf16_encode(chars.skip(it.index() as int)) == utf16_encode(chars),
    {
        let ghost k = it.index() as int;
        proof {
            assert(chars.skip(k)[0] == c);
            assert(chars.skip(k).skip(1) =~= chars.skip(k + 1));
        }
        let v: u32 = c as u32;
        if v < 0x10000 {
            u.push(v as u16);
            proof {
                assert(utf16_encode_char(c) =~= seq![v as u16]);
            }
        } else {
            let hi: u16 = (0xD800 + (v - 0x10000) / 0x400) as u16;
            let lo: u16 = (0xDC00 + (v - 0x10000) % 0x400) as u16;
            u.push(hi);
            u.push(lo);
            proof {
                assert(utf16_encode_char(c) =~= seq![hi, lo]);
            }
        }
        proof {
            assert(u@ + utf16_encode(chars.skip(k + 1)) =~= (u@.take(u@.len() - utf16_encode_char(c).len()) + utf16_encode_char(c)) + utf16_encode(chars.skip(k + 1)));
        }
    }
    proof {
        assert(chars.skip(chars.len() as int) =~= Seq::<char>::empty());
        assert(u@ + Seq::<u16>::empty() =~= u@);
    }
    u
}

/// The little-endian bytes of code units.
pub fn units_to_le(u: &Vec<u16>) -> (b: Vec<u8>)
    ensures
        b@ == le_bytes(u@),
{
    let n: usize = u.len();
    let mut b: Vec<u8> = Vec::new();
    let mut i: usize = 0;
    while i < n
        invariant
            n == u@.len(),
            i <= n,
            b@ =~= le_bytes(u@).take(2 * i),
        decreases n - i,
    {
        let w: u16 = u[i];
        b.push((w % 256) as u8);
        b.push((w / 256) as u8);
        proof {
            assert((2 * i) / 2 == i && (2 * i) % 2 == 0);
            assert((2 * i + 1) / 2 == i && (2 * i + 1) % 2 == 1);
            assert(b@ =~= le_bytes(u@).take(2 * i + 2));
        }
        i = i + 1;
    }
    b
}

/// Encodes text as UTF-16LE bytes.
pub fn encode_utf16le(s: &str) -> (b: Vec<u8>)
    ensures
        b@ == spec_encode_utf16le(s@),
{
    let u = encode_units(s);
    units_to_le(&u)
}

} // verus!
