//! Normalisation of game text before it is looked up in the translation tables.
use vstd::prelude::*;
use crate::utf16::{char_from_u32, push_char};

verus! {

broadcast use vstd::utf8::char_is_scalar;

// ── Width folding ────────────────────────────────────────────────────────

/// A fullwidth form (U+FF01..=U+FF5E) folds to its ASCII counterpart
/// (U+0021..=U+007E), the ideographic space U+3000 to a plain space; every
/// other character is kept.
pub open spec fn fold_width(c: char) -> char {
    if c == '\u{3000}' {
        ' '
    } else if 0xFF01 <= (c as u32) <= 0xFF5E {
        ((c as u32) - 0xFEE0) as char
    } else {
        c
    }
}

pub open spec fn spec_normalize_width(s: Seq<char>) -> Seq<char> {
    s.map_values(|c: char| fold_width(c))
}

/// What folding does to each character: a fullwidth form U+FF01..=U+FF5E
/// becomes the character 0xFEE0 below it (U+0021..=U+007E: ASCII punctuation,
/// digits and letters), U+3000 becomes a space, and every other character,
/// the ASCII ones included, stays as it is; the length is kept.
pub proof fn lemma_normalize_chars(s: Seq<char>)
    ensures
        spec_normalize_width(s).len() == s.len(),
        forall|i: int|
            0 <= i < s.len() && 0xFF01 <= (#[trigger] s[i] as u32) <= 0xFF5E ==> (
            spec_normalize_width(s)[i] as u32) == (s[i] as u32) - 0xFEE0,
        forall|i: int|
            0 <= i < s.len() && #[trigger] s[i] == '\u{3000}' ==> spec_normalize_width(s)[i]
                == ' ',
        forall|i: int|
            0 <= i < s.len() && (#[trigger] s[i] as u32) != 0x3000 && !(0xFF01 <= (s[i] as u32)
                <= 0xFF5E) ==> spec_normalize_width(s)[i] == s[i],
{
    assert forall|i: int| 0 <= i < s.len() && 0xFF01 <= (#[trigger] s[i] as u32) <= 0xFF5E implies (
    spec_normalize_width(s)[i] as u32) == (s[i] as u32) - 0xFEE0 by {
        let v = ((s[i] as u32) - 0xFEE0) as u32;
        assert(vstd::utf8::is_scalar(v));
        assert((v as char) as u32 == v);
    }
    assert forall|i: int|
        0 <= i < s.len() && (#[trigger] s[i] as u32) != 0x3000 && !(0xFF01 <= (s[i] as u32)
            <= 0xFF5E) implies spec_normalize_width(s)[i] == s[i] by {
        assert(s[i] != '\u{3000}');
    }
}

/// Folding widths twice changes nothing more than folding once, so keys
/// folded when a table is loaded and text folded when it is looked up meet.
pub proof fn lemma_normalize_idempotent(s: Seq<char>)
    ensures
        spec_normalize_width(spec_normalize_width(s)) == spec_normalize_width(s),
{
    let once = spec_normalize_width(s);
    assert forall|i: int| 0 <= i < s.len() implies #[trigger] fold_width(once[i]) == once[i] by {
        let c = s[i];
        if c != '\u{3000}' && 0xFF01 <= (c as u32) <= 0xFF5E {
            let v = ((c as u32) - 0xFEE0) as u32;
            assert(vstd::utf8::is_scalar(v));
            assert((v as char) as u32 == v);
        }
    }
    assert(spec_normalize_width(once) =~= once);
}

/// Folds fullwidth ASCII and the ideographic space to halfwidth, character
/// by character, so that game text and translation keys match whatever
/// width either side uses.
pub fn normalize_width(s: &str) -> (r: String)
    ensures
        r@ == spec_normalize_width(s@),
{
    let mut r = String::new();
    let ghost chars = s@;
    for c in it: s.chars()
        invariant
            it.seq() == chars,
            r@ =~= spec_normalize_width(chars.take(it.index() as int)),
    {
        let ghost k = it.index() as int;
        let u: u32 = c as u32;
        let f: char = if c == '\u{3000}' {
            ' '
        } else if 0xFF01 <= u && u <= 0xFF5E {
            match char_from_u32(u - 0xFEE0) {
                Some(d) => d,
                None => c,
            }
        } else {
            c
        };
        assert(f == fold_width(c));
        proof {
            assert(chars.take(k + 1) =~= chars.take(k).push(c));
        }
        push_char(&mut r, f);
    }
    proof {
        assert(chars.take(chars.len() as int) =~= chars);
    }
    r
}

// ── Markup ───────────────────────────────────────────────────────────────

pub open spec fn is_ascii_lower(c: char) -> bool {
    'a' <= c <= 'z'
}

/// A closing tag `[/x]` (x a lowercase ASCII letter) starts at `i`.
pub open spec fn closing_tag_at(s: Seq<char>, i: int) -> bool {
    &&& 0 <= i
    &&& i + 4 <= s.len()
    &&& s[i] == '['
    &&& s[i + 1] == '/'
    &&& is_ascii_lower(s[i + 2])
    &&& s[i + 3] == ']'
}

/// An opening tag `[x]` (x a lowercase ASCII letter) starts at `i`.
pub open spec fn opening_tag_at(s: Seq<char>, i: int) -> bool {
    &&& 0 <= i
    &&& i + 3 <= s.len()
    &&& s[i] == '['
    &&& is_ascii_lower(s[i + 1])
    &&& s[i + 2] == ']'
}

/// The text with every markup tag removed, scanning from the left: a tag
/// is dropped whole, any other character is kept.
pub open spec fn strip_markup(s: Seq<char>) -> Seq<char>
    decreases s.len(),
{
    if s.len() == 0 {
        Seq::empty()
    } else if closing_tag_at(s, 0) {
        strip_markup(s.skip(4))
    } else if opening_tag_at(s, 0) {
        strip_markup(s.skip(3))
    } else {
        seq![s[0]] + strip_markup(s.skip(1))
    }
}

/// Markup stripping, piece by piece: an opening tag `[x]` or a closing tag
/// `[/x]` (x a lowercase ASCII letter) at the front is dropped, any other
/// first character is kept, and empty text stays empty.
pub proof fn lemma_strip_steps(x: char, c: char, s: Seq<char>)
    ensures
        strip_markup(Seq::empty()) == Seq::<char>::empty(),
        'a' <= x <= 'z' ==> strip_markup(seq!['[', x, ']'] + s) == strip_markup(s),
        'a' <= x <= 'z' ==> strip_markup(seq!['[', '/', x, ']'] + s) == strip_markup(s),
        c != '[' ==> strip_markup(seq![c] + s) == seq![c] + strip_markup(s),
        !(c == '[' && s.len() >= 2 && 'a' <= s[0] <= 'z' && s[1] == ']') && !(c == '[' && s.len()
            >= 3 && s[0] == '/' && 'a' <= s[1] <= 'z' && s[2] == ']') ==> strip_markup(seq![c] + s)
            == seq![c] + strip_markup(s),
        ('a' <= x <= 'z') && x != '/' && !(s.len() > 0 && s[0] == ']') ==> strip_markup(
            seq!['[', x] + s,
        ) == seq!['['] + strip_markup(seq![x] + s),
{
    let o = seq!['[', x, ']'] + s;
    assert(o.skip(3) =~= s);
    let cl = seq!['[', '/', x, ']'] + s;
    assert(cl.skip(4) =~= s);
    let p = seq![c] + s;
    assert(p.skip(1) =~= s);
    let q = seq!['[', x] + s;
    assert(q.skip(1) =~= seq![x] + s);
}

/// Text without `[` carries no markup and is kept as it is.
pub proof fn lemma_strip_plain(s: Seq<char>)
    requires
        forall|i: int| 0 <= i < s.len() ==> s[i] != '[',
    ensures
        strip_markup(s) == s,
    decreases s.len(),
{
    if s.len() > 0 {
        let t = s.skip(1);
        assert forall|i: int| 0 <= i < t.len() implies t[i] != '[' by {
            assert(t[i] == s[i + 1]);
        }
        lemma_strip_plain(t);
        assert(seq![s[0]] + t =~= s);
    }
}

/// Stripping never lengthens the text.
pub proof fn lemma_strip_shortens(s: Seq<char>)
    ensures
        strip_markup(s).len() <= s.len(),
    decreases s.len(),
{
    if s.len() > 0 {
        if closing_tag_at(s, 0) {
            lemma_strip_shortens(s.skip(4));
        } else if opening_tag_at(s, 0) {
            lemma_strip_shortens(s.skip(3));
        } else {
            lemma_strip_shortens(s.skip(1));
        }
    }
}

/// The key under which a piece of game text is looked up.
pub open spec fn spec_lookup_key(s: Seq<char>) -> Seq<char> {
    strip_markup(spec_normalize_width(s))
}

/// The lookup key folds widths first and strips markup after, so tags
/// written with fullwidth brackets or letters are removed too.
pub proof fn lemma_lookup_key_order(s: Seq<char>)
    ensures
        spec_lookup_key(s) == strip_markup(spec_normalize_width(s)),
        spec_lookup_key(s).len() <= s.len(),
{
    lemma_normalize_chars(s);
    lemma_strip_shortens(spec_normalize_width(s));
}

pub(crate) fn chars_of(s: &str) -> (v: Vec<char>)
    ensures
        v@ == s@,
{
    let mut v: Vec<char> = Vec::new();
    for c in it: s.chars()
        invariant
            it.seq() == s@,
            v@ == it.seq().take(it.index() as int),
    {
        v.push(c);
    }
    v
}

/// Removes the rich-text tags `[x]` and `[/x]` (x a lowercase ASCII letter)
/// that the game embeds in its text, e.g. `[g][o]▲[/o][/g]` becomes `▲`.
pub fn strip_fgo_markup(s: &str) -> (r: String)
    ensures
        r@ == strip_markup(s@),
{
    let v = chars_of(s);
    let n: usize = v.len();
    let mut r = String::new();
    let mut i: usize = 0;
    assert(v@.skip(0) =~= v@);
    while i < n
        invariant
            n == v@.len(),
            i <= n,
            strip_markup(v@) == r@ + strip_markup(v@.skip(i as int)),
        decreases n - i,
    {
        let ghost t = v@.skip(i as int);
        if v[i] == '[' && n - i >= 4 && v[i + 1] == '/' && 'a' <= v[i + 2] && v[i + 2] <= 'z'
            && v[i + 3] == ']' {
            assert(closing_tag_at(t, 0));
            assert(t.skip(4) =~= v@.skip(i + 4));
            i = i + 4;
        } else if v[i] == '[' && n - i >= 3 && 'a' <= v[i + 1] && v[i + 1] <= 'z' && v[i + 2]
            == ']' {
            assert(!closing_tag_at(t, 0));
            assert(opening_tag_at(t, 0));
            assert(t.skip(3) =~= v@.skip(i + 3));
            i = i + 3;
        } else {
            let c = v[i];
            assert(!closing_tag_at(t, 0));
            assert(!opening_tag_at(t, 0));
            assert(t.skip(1) =~= v@.skip(i + 1));
            assert(r@.push(c) + strip_markup(t.skip(1)) =~= r@ + (seq![c] + strip_markup(
                t.skip(1),
            )));
            push_char(&mut r, c);
            i = i + 1;
        }
    }
    assert(v@.skip(n as int) =~= Seq::<char>::empty());
    assert(r@ + Seq::<char>::empty() =~= r@);
    r
}

/// The key for game text: widths folded, then markup removed.
pub fn lookup_key(raw: &str) -> (r: String)
    ensures
        r@ == spec_lookup_key(raw@),
{
    let folded = normalize_width(raw);
    strip_fgo_markup(folded.as_str())
}

} // verus!
