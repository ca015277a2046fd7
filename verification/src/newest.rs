//! Choosing the bundle file: among the files named `<number>.script`, the one
//! with the largest number supersedes the others.
use vstd::prelude::*;
use crate::text::chars_of;

verus! {

/// The position of the last `.` in `s`, or -1.
pub open spec fn last_dot(s: Seq<char>) -> int
    decreases s.len(),
{
    if s.len() == 0 {
        -1
    } else if s.last() == '.' {
        s.len() - 1
    } else {
        last_dot(s.drop_last())
    }
}

pub open spec fn is_digit(c: char) -> bool {
    '0' <= c <= '9'
}

pub open spec fn all_digits(s: Seq<char>) -> bool {
    forall|i: int| 0 <= i < s.len() ==> #[trigger] is_digit(s[i])
}

/// The number that decimal digits spell.
pub open spec fn digits_value(s: Seq<char>) -> nat
    decreases s.len(),
{
    if s.len() == 0 {
        0
    } else {
        digits_value(s.drop_last()) * 10 + ((s.last() as u32) - 0x30) as nat
    }
}

/// A purely numeric text: at least one ASCII digit and nothing else, whose
/// value fits in 64 bits.
pub open spec fn spec_parse_numeric(s: Seq<char>) -> Option<u64> {
    if s.len() > 0 && all_digits(s) && digits_value(s) <= u64::MAX {
        Some(digits_value(s) as u64)
    } else {
        None
    }
}

pub open spec fn script_extension() -> Seq<char> {
    seq!['s', 'c', 'r', 'i', 'p', 't']
}

/// The number of a bundle file: the file name has the extension `script`
/// (after its last dot, which is not its first character) and its stem is
/// purely numeric.
pub open spec fn spec_script_number(name: Seq<char>) -> Option<u64> {
    let d = last_dot(name);
    if d <= 0 || name.skip(d + 1) != script_extension() {
        None
    } else {
        spec_parse_numeric(name.take(d))
    }
}

proof fn lemma_last_dot(s: Seq<char>)
    ensures
        -1 <= last_dot(s) < s.len(),
        last_dot(s) >= 0 ==> s[last_dot(s)] == '.',
        forall|j: int| last_dot(s) < j < s.len() ==> s[j] != '.',
    decreases s.len(),
{
    if s.len() > 0 && s.last() != '.' {
        let t = s.drop_last();
        lemma_last_dot(t);
        assert forall|j: int| last_dot(s) < j < s.len() implies s[j] != '.' by {
            if j < t.len() {
                assert(s[j] == t[j]);
            }
        }
    }
}

/// Digits never spell less than any of their prefixes.
proof fn lemma_digits_prefix(s: Seq<char>, k: int)
    requires
        0 <= k <= s.len(),
        all_digits(s),
    ensures
        digits_value(s.take(k)) <= digits_value(s),
    decreases s.len(),
{
    if k < s.len() {
        let t = s.drop_last();
        assert(all_digits(t)) by {
            assert forall|i: int| 0 <= i < t.len() implies #[trigger] is_digit(t[i]) by {
                assert(is_digit(s[i]));
            }
        }
        lemma_digits_prefix(t, k);
        assert(t.take(k) =~= s.take(k));
    } else {
        assert(s.take(k) =~= s);
    }
}

/// The value of digits: no digits are 0, and appending a digit multiplies by
/// ten and adds the digit's value.
pub proof fn lemma_digits_value(s: Seq<char>, c: char)
    ensures
        digits_value(Seq::empty()) == 0,
        '0' <= c <= '9' ==> digits_value(s.push(c)) == 10 * digits_value(s) + ((c as u32) - 0x30),
{
    assert(s.push(c).drop_last() =~= s);
}

/// The only position `j` holding a dot with no dot after it is the last dot.
proof fn lemma_last_dot_is(s: Seq<char>, j: int)
    requires
        0 <= j < s.len(),
        s[j] == '.',
        forall|l: int| j < l < s.len() ==> s[l] != '.',
    ensures
        last_dot(s) == j,
{
    lemma_last_dot(s);
}

/// A bundle file name is a purely numeric stem followed by `.script`, and its
/// number is the stem's decimal value; every name with a number is such a name.
pub proof fn lemma_script_number(stem: Seq<char>, name: Seq<char>)
    ensures
        stem.len() > 0 && all_digits(stem) && digits_value(stem) <= u64::MAX ==> spec_script_number(
            stem + seq!['.', 's', 'c', 'r', 'i', 'p', 't'],
        ) == Some(digits_value(stem) as u64),
        spec_script_number(name) is Some ==> exists|st: Seq<char>|
            #![trigger digits_value(st)]
            {
                &&& name == st + seq!['.', 's', 'c', 'r', 'i', 'p', 't']
                &&& st.len() > 0
                &&& all_digits(st)
                &&& spec_script_number(name) == Some(digits_value(st) as u64)
            },
{
    let ext = seq!['.', 's', 'c', 'r', 'i', 'p', 't'];
    if stem.len() > 0 && all_digits(stem) && digits_value(stem) <= u64::MAX {
        let nm = stem + ext;
        assert(nm[stem.len() as int] == '.');
        assert forall|l: int| stem.len() < l < nm.len() implies nm[l] != '.' by {
            assert(nm[l] == ext[l - stem.len()]);
        }
        lemma_last_dot_is(nm, stem.len() as int);
        assert(nm.skip(stem.len() as int + 1) =~= script_extension());
        assert(nm.take(stem.len() as int) =~= stem);
    }
    if spec_script_number(name) is Some {
        let d = last_dot(name);
        lemma_last_dot(name);
        let st = name.take(d);
        assert(name.skip(d + 1) == script_extension());
        assert(name =~= st + ext) by {
            assert forall|l: int| 0 <= l < name.len() implies name[l] == (st + ext)[l] by {
                if l > d {
                    assert(name[l] == name.skip(d + 1)[l - d - 1]);
                }
            }
        }
        assert(digits_value(st) == digits_value(st));
    }
}

/// The value of a purely numeric text; `None` when it is empty, holds
/// anything but ASCII digits, or does not fit in 64 bits.
pub fn parse_numeric(s: &Vec<char>) -> (r: Option<u64>)
    ensures
        r == spec_parse_numeric(s@),
{
    let len: usize = s.len();
    if len == 0 {
        return None;
    }
    let mut acc: u64 = 0;
    let mut i: usize = 0;
    assert(s@.take(0) =~= Seq::<char>::empty());
    while i < len
        invariant
            i <= len,
            len == s@.len(),
            all_digits(s@.take(i as int)),
            acc == digits_value(s@.take(i as int)),
        decreases len - i,
    {
        let c = s[i];
        let ghost k = i as int;
        if !('0' <= c && c <= '9') {
            assert(!is_digit(s@[k]));
            assert(!all_digits(s@));
            return None;
        }
        let d: u64 = (c as u32 - 0x30) as u64;
        assert(s@.take(k + 1).drop_last() =~= s@.take(k));
        assert(all_digits(s@.take(k + 1))) by {
            assert forall|j: int| 0 <= j < k + 1 implies #[trigger] is_digit(s@.take(k + 1)[j]) by {
                if j < k {
                    assert(s@.take(k + 1)[j] == s@.take(k)[j]);
                }
            }
        }
        assert(s@.take(k + 1).last() == c);
        assert(digits_value(s@.take(k + 1)) == acc * 10 + d);
        match acc.checked_mul(10) {
            Some(m) => match m.checked_add(d) {
                Some(a) => {
                    acc = a;
                },
                None => {
                    proof {
                        if all_digits(s@) {
                            lemma_digits_prefix(s@, k + 1);
                        }
                    }
                    return None;
                },
            },
            None => {
                proof {
                    if all_digits(s@) {
                        lemma_digits_prefix(s@, k + 1);
                    }
                }
                return None;
            },
        }
        i = i + 1;
    }
    assert(s@.take(len as int) =~= s@);
    Some(acc)
}

/// The number of a bundle file name, e.g. `20260509.script` → 20260509; `None`
/// for any other name.
pub fn script_number(name: &str) -> (r: Option<u64>)
    ensures
        r == spec_script_number(name@),
{
    let v = chars_of(name);
    let len: usize = v.len();
    let mut d: usize = len;
    // Find the last dot.
    while d > 0
        invariant
            d <= len,
            len == v@.len(),
            forall|j: int| d <= j < len ==> v@[j] != '.',
        ensures
            d == 0 || v@[d - 1] == '.',
            forall|j: int| d <= j < len ==> v@[j] != '.',
        decreases d,
    {
        if v[d - 1] == '.' {
            break;
        }
        d = d - 1;
    }
    proof {
        lemma_last_dot(v@);
    }
    // `d` is one past the last dot, or 0 when there is none.
    if d <= 1 {
        assert(last_dot(v@) <= 0);
        return None;
    }
    let dot: usize = d - 1;
    assert(v@[dot as int] == '.');
    assert(last_dot(v@) == dot);
    let ghost ext = v@.skip(dot + 1);
    if len - d != 6 || v[d] != 's' || v[d + 1] != 'c' || v[d + 2] != 'r' || v[d + 3] != 'i'
        || v[d + 4] != 'p' || v[d + 5] != 't' {
        proof {
            if ext.len() == 6 {
                assert(ext[0] == v@[d as int]);
                assert(ext[1] == v@[d + 1]);
                assert(ext[2] == v@[d + 2]);
                assert(ext[3] == v@[d + 3]);
                assert(ext[4] == v@[d + 4]);
                assert(ext[5] == v@[d + 5]);
                assert(script_extension()[0] == 's');
            }
            assert(ext != script_extension());
        }
        return None;
    }
    assert(ext =~= script_extension());
    let mut stem: Vec<char> = Vec::new();
    let mut j: usize = 0;
    while j < dot
        invariant
            j <= dot,
            dot < len,
            len == v@.len(),
            stem@ =~= v@.take(j as int),
        decreases dot - j,
    {
        stem.push(v[j]);
        j = j + 1;
    }
    parse_numeric(&stem)
}

pub open spec fn name_views(names: Seq<String>) -> Seq<Seq<char>> {
    names.map_values(|s: String| s@)
}

/// `i` names the bundle to load among `names`: it has a number, no name has a
/// larger one, and no earlier name has the same one.
pub open spec fn is_newest(names: Seq<Seq<char>>, i: int) -> bool {
    &&& 0 <= i < names.len()
    &&& spec_script_number(names[i]) is Some
    &&& forall|j: int|
        0 <= j < names.len() && (#[trigger] spec_script_number(names[j])) is Some ==> {
            &&& spec_script_number(names[j]).unwrap() <= spec_script_number(names[i]).unwrap()
            &&& j < i ==> spec_script_number(names[j]).unwrap() < spec_script_number(
                names[i],
            ).unwrap()
        }
}

/// Picks, among file names in directory order, the bundle with the largest
/// number; on a tie the first one seen. `None` when no name is a bundle's.
pub fn pick_newest(names: &Vec<String>) -> (r: Option<usize>)
    ensures
        match r {
            Some(i) => is_newest(name_views(names@), i as int),
            None => forall|j: int|
                0 <= j < names@.len() ==> (#[trigger] spec_script_number(
                    name_views(names@)[j],
                )) is None,
        },
{
    let ghost ns = name_views(names@);
    let n: usize = names.len();
    let mut best: Option<(u64, usize)> = None;
    let mut i: usize = 0;
    while i < n
        invariant
            n == names@.len(),
            ns == name_views(names@),
            i <= n,
            match best {
                Some((num, b)) => {
                    &&& b < i
                    &&& spec_script_number(ns[b as int]) == Some(num)
                    &&& forall|j: int|
                        0 <= j < i && (#[trigger] spec_script_number(ns[j])) is Some ==> {
                            &&& spec_script_number(ns[j]).unwrap() <= num
                            &&& j < b ==> spec_script_number(ns[j]).unwrap() < num
                        }
                },
                None => forall|j: int| 0 <= j < i ==> (#[trigger] spec_script_number(ns[j])) is None,
            },
        decreases n - i,
    {
        assert(ns[i as int] == names@[i as int]@);
        match script_number(names[i].as_str()) {
            Some(num) => {
                match best {
                    Some((prev, _)) => {
                        if num > prev {
                            best = Some((num, i));
                        }
                    },
                    None => {
                        best = Some((num, i));
                    },
                }
            },
            None => {},
        }
        i = i + 1;
    }
    match best {
        Some((_, b)) => Some(b),
        None => None,
    }
}

} // verus!
