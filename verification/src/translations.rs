//! Translation tables in the Chaldea data format: per category, game text
//! (width-normalised) → Chinese translation.
use vstd::prelude::*;
use vstd::hash_map::StringHashMap;
use crate::text::{lemma_normalize_idempotent, normalize_width, spec_normalize_width};

verus! {

broadcast use vstd::hash_map::group_hash_map_axioms;

/// One parsed entry of a category file: the Japanese key and its `CN`
/// translation, which a file may lack.
pub type RawView = (Seq<char>, Option<Seq<char>>);

pub open spec fn raw_view(e: (String, Option<String>)) -> RawView {
    (
        e.0@,
        match e.1 {
            Some(s) => Some(s@),
            None => None,
        },
    )
}

pub open spec fn raw_views(v: Seq<(String, Option<String>)>) -> Seq<RawView> {
    v.map_values(|e: (String, Option<String>)| raw_view(e))
}

/// The table that a category file yields: entries without a translation are
/// dropped, keys are width-normalised, and of two entries whose keys
/// normalise alike the later one wins.
pub open spec fn spec_table(raw: Seq<RawView>) -> Map<Seq<char>, Seq<char>>
    decreases raw.len(),
{
    if raw.len() == 0 {
        Map::empty()
    } else {
        let m = spec_table(raw.drop_last());
        match raw.last().1 {
            Some(cn) => m.insert(spec_normalize_width(raw.last().0), cn),
            None => m,
        }
    }
}

/// A table holds finitely many entries.
pub proof fn lemma_table_finite(raw: Seq<RawView>)
    ensures
        spec_table(raw).dom().finite(),
    decreases raw.len(),
{
    if raw.len() > 0 {
        lemma_table_finite(raw.drop_last());
    }
}

/// An entry with a translation that no later entry with a translation and
/// the same normalised key overrides is what the table holds under its
/// normalised key.
pub proof fn lemma_table_read(raw: Seq<RawView>, i: int)
    requires
        0 <= i < raw.len(),
        raw[i].1 is Some,
        forall|j: int|
            i < j < raw.len() && (#[trigger] raw[j]).1 is Some ==> spec_normalize_width(raw[j].0)
                != spec_normalize_width(raw[i].0),
    ensures
        spec_table(raw).contains_key(spec_normalize_width(raw[i].0)),
        spec_table(raw)[spec_normalize_width(raw[i].0)] == raw[i].1.unwrap(),
    decreases raw.len(),
{
    let t = raw.drop_last();
    if i < raw.len() - 1 {
        assert forall|j: int|
            i < j < t.len() && (#[trigger] t[j]).1 is Some implies spec_normalize_width(t[j].0)
            != spec_normalize_width(t[i].0) by {
            assert(t[j] == raw[j]);
        }
        lemma_table_read(t, i);
        assert(raw.last() == raw[raw.len() - 1]);
    }
}

/// Every key of a table is the normalised key of an entry with a translation.
pub proof fn lemma_table_keys(raw: Seq<RawView>, k: Seq<char>)
    requires
        spec_table(raw).contains_key(k),
    ensures
        exists|j: int|
            0 <= j < raw.len() && (#[trigger] raw[j]).1 is Some && spec_normalize_width(raw[j].0)
                == k,
    decreases raw.len(),
{
    let t = raw.drop_last();
    let j = raw.len() - 1;
    if raw.last().1 is Some && spec_normalize_width(raw.last().0) == k {
        assert(raw[j] == raw.last());
    } else {
        lemma_table_keys(t, k);
        let w = choose|w: int|
            0 <= w < t.len() && (#[trigger] t[w]).1 is Some && spec_normalize_width(t[w].0) == k;
        assert(raw[w] == t[w]);
    }
}

/// Every entry with a translation is found under its normalised key.
pub proof fn lemma_table_contains(raw: Seq<RawView>, j: int)
    requires
        0 <= j < raw.len(),
        raw[j].1 is Some,
    ensures
        spec_table(raw).contains_key(spec_normalize_width(raw[j].0)),
    decreases raw.len(),
{
    if j < raw.len() - 1 {
        let t = raw.drop_last();
        assert(t[j] == raw[j]);
        lemma_table_contains(t, j);
    } else {
        assert(raw.last() == raw[j]);
    }
}

/// Every key of a table is already normalised.
pub proof fn lemma_table_keys_normalised(raw: Seq<RawView>, k: Seq<char>)
    requires
        spec_table(raw).contains_key(k),
    ensures
        spec_normalize_width(k) == k,
{
    lemma_table_keys(raw, k);
    let j = choose|j: int|
        0 <= j < raw.len() && (#[trigger] raw[j]).1 is Some && spec_normalize_width(raw[j].0) == k;
    lemma_normalize_idempotent(raw[j].0);
}

/// The parsed category files, each `None` when the file is missing or unreadable.
pub open spec fn file_views(files: Seq<Option<Vec<(String, Option<String>)>>>) -> Seq<
    Option<Seq<RawView>>,
> {
    files.map_values(
        |f: Option<Vec<(String, Option<String>)>>|
            match f {
                Some(v) => Some(raw_views(v@)),
                None => None,
            },
    )
}

/// The tables of the first `k` categories: category `names[i]` gets the
/// table of `files[i]`, when the file is there and yields a translation.
pub open spec fn spec_load(
    names: Seq<Seq<char>>,
    files: Seq<Option<Seq<RawView>>>,
    k: int,
) -> Map<Seq<char>, Map<Seq<char>, Seq<char>>>
    decreases k,
{
    if k <= 0 {
        Map::empty()
    } else {
        let m = spec_load(names, files, k - 1);
        match files[k - 1] {
            Some(raw) => if spec_table(raw).len() > 0 {
                m.insert(names[k - 1], spec_table(raw))
            } else {
                m
            },
            None => m,
        }
    }
}

/// A load holds only the named categories, at most one table per name.
pub proof fn lemma_load_categories(
    names: Seq<Seq<char>>,
    files: Seq<Option<Seq<RawView>>>,
    k: int,
)
    requires
        0 <= k <= names.len(),
        k <= files.len(),
    ensures
        spec_load(names, files, k).dom().finite(),
        spec_load(names, files, k).len() <= k,
        forall|c: Seq<char>| #[trigger]
            spec_load(names, files, k).contains_key(c) ==> exists|i: int|
                0 <= i < k && names[i] == c,
    decreases k,
{
    if k > 0 {
        let m = spec_load(names, files, k - 1);
        lemma_load_categories(names, files, k - 1);
        assert(m.insert(names[k - 1], Map::empty()).dom() =~= m.dom().insert(names[k - 1]));
        assert forall|c: Seq<char>| #[trigger]
            spec_load(names, files, k).contains_key(c) implies exists|i: int|
            0 <= i < k && names[i] == c by {
            if c != names[k - 1] {
                assert(m.contains_key(c));
                let i = choose|i: int| 0 <= i < k - 1 && names[i] == c;
                assert(0 <= i < k && names[i] == c);
            } else {
                assert(names[k - 1] == c);
            }
        }
        match files[k - 1] {
            Some(raw) => {
                if spec_table(raw).len() > 0 {
                    assert(m.insert(names[k - 1], spec_table(raw)).dom() =~= m.dom().insert(
                        names[k - 1],
                    ));
                }
            },
            None => {},
        }
    }
}

/// Every key of every loaded table is width-normalised.
pub proof fn lemma_load_keys_normalised(
    names: Seq<Seq<char>>,
    files: Seq<Option<Seq<RawView>>>,
    k: int,
    c: Seq<char>,
    key: Seq<char>,
)
    requires
        spec_load(names, files, k).contains_key(c),
        spec_load(names, files, k)[c].contains_key(key),
    ensures
        spec_normalize_width(key) == key,
    decreases k,
{
    if k > 0 {
        let m = spec_load(names, files, k - 1);
        match files[k - 1] {
            Some(raw) => {
                if spec_table(raw).len() > 0 && c == names[k - 1] {
                    lemma_table_keys_normalised(raw, key);
                } else {
                    lemma_load_keys_normalised(names, files, k - 1, c, key);
                }
            },
            None => lemma_load_keys_normalised(names, files, k - 1, c, key),
        }
    }
}

/// Each key of a loaded file that has a translation is found, normalised, in
/// its category, unless a later file of the same category replaces the table.
pub proof fn lemma_load_finds(
    names: Seq<Seq<char>>,
    files: Seq<Option<Seq<RawView>>>,
    k: int,
    i: int,
    j: int,
)
    requires
        0 <= i < k,
        k <= files.len(),
        files[i] matches Some(raw) && 0 <= j < raw.len() && raw[j].1 is Some,
        forall|l: int| i < l < k ==> names[l] != names[i],
    ensures
        spec_load(names, files, k).contains_key(names[i]),
        spec_load(names, files, k)[names[i]].contains_key(
            spec_normalize_width(files[i]->Some_0[j].0),
        ),
    decreases k,
{
    let raw = files[i]->Some_0;
    if k - 1 == i {
        lemma_table_contains(raw, j);
        lemma_table_finite(raw);
        let t = spec_table(raw);
        if t.len() == 0 {
            t.dom().lemma_len0_is_empty();
            assert(t.dom().contains(spec_normalize_width(raw[j].0)));
        }
    } else {
        lemma_load_finds(names, files, k - 1, i, j);
    }
}

/// The translation of `key` in `category`.
pub open spec fn spec_get(
    t: Map<Seq<char>, Map<Seq<char>, Seq<char>>>,
    category: Seq<char>,
    key: Seq<char>,
) -> Option<Seq<char>> {
    if t.contains_key(category) && t[category].contains_key(key) {
        Some(t[category][key])
    } else {
        None
    }
}

/// The translation of `key` in the first of `categories` that has one.
pub open spec fn spec_get_any(
    t: Map<Seq<char>, Map<Seq<char>, Seq<char>>>,
    categories: Seq<Seq<char>>,
    key: Seq<char>,
) -> Option<Seq<char>>
    decreases categories.len(),
{
    if categories.len() == 0 {
        None
    } else {
        match spec_get(t, categories[0], key) {
            Some(v) => Some(v),
            None => spec_get_any(t, categories.skip(1), key),
        }
    }
}

/// A lookup finds the translation stored for the key in that category, and
/// nothing when the category or the key is missing.
pub proof fn lemma_get(
    t: Map<Seq<char>, Map<Seq<char>, Seq<char>>>,
    category: Seq<char>,
    key: Seq<char>,
)
    ensures
        (t.contains_key(category) && t[category].contains_key(key)) ==> spec_get(t, category, key)
            == Some(t[category][key]),
        !(t.contains_key(category) && t[category].contains_key(key)) ==> spec_get(t, category, key)
            is None,
{
}

/// A table holds, for each key, the translation of the last entry that
/// normalises to it: adding an entry with a translation sets its normalised
/// key, adding one without changes nothing, and no entries make no table.
pub proof fn lemma_table_steps(raw: Seq<RawView>, k: Seq<char>, v: Seq<char>)
    ensures
        spec_table(Seq::empty()) == Map::<Seq<char>, Seq<char>>::empty(),
        spec_table(raw.push((k, Some(v)))) == spec_table(raw).insert(spec_normalize_width(k), v),
        spec_table(raw.push((k, None))) == spec_table(raw),
{
    assert(raw.push((k, Some(v))).drop_last() =~= raw);
    assert(raw.push((k, None::<Seq<char>>)).drop_last() =~= raw);
}

/// The fallback chain answers from the first category, in order, that has
/// the key.
pub proof fn lemma_get_any_first(
    t: Map<Seq<char>, Map<Seq<char>, Seq<char>>>,
    categories: Seq<Seq<char>>,
    key: Seq<char>,
    i: int,
)
    requires
        0 <= i < categories.len(),
        spec_get(t, categories[i], key) is Some,
        forall|j: int| 0 <= j < i ==> spec_get(t, #[trigger] categories[j], key) is None,
    ensures
        spec_get_any(t, categories, key) == spec_get(t, categories[i], key),
    decreases i,
{
    if i > 0 {
        let rest = categories.skip(1);
        assert forall|j: int| 0 <= j < i - 1 implies spec_get(t, #[trigger] rest[j], key) is None by {
            assert(rest[j] == categories[j + 1]);
        }
        assert(spec_get(t, categories[0], key) is None);
        lemma_get_any_first(t, rest, key, i - 1);
    }
}

/// When no category has the key, the fallback chain has no answer.
pub proof fn lemma_get_any_none(
    t: Map<Seq<char>, Map<Seq<char>, Seq<char>>>,
    categories: Seq<Seq<char>>,
    key: Seq<char>,
)
    requires
        forall|j: int| 0 <= j < categories.len() ==> spec_get(t, #[trigger] categories[j], key) is None,
    ensures
        spec_get_any(t, categories, key) is None,
    decreases categories.len(),
{
    if categories.len() > 0 {
        let rest = categories.skip(1);
        assert forall|j: int| 0 <= j < rest.len() implies spec_get(t, #[trigger] rest[j], key) is None by {
            assert(rest[j] == categories[j + 1]);
        }
        assert(spec_get(t, categories[0], key) is None);
        lemma_get_any_none(t, rest, key);
    }
}

pub open spec fn str_views(v: Seq<&str>) -> Seq<Seq<char>> {
    v.map_values(|s: &str| s@)
}

/// The category files, in the order they are read.
pub open spec fn spec_category_names() -> Seq<Seq<char>> {
    seq![
        "svt_names"@,
        "ce_names"@,
        "cc_names"@,
        "costume_names"@,
        "mc_names"@,
        "mc_detail"@,
        "skill_names"@,
        "skill_detail"@,
        "td_names"@,
        "td_ruby"@,
        "td_types"@,
        "td_detail"@,
        "item_names"@,
        "entity_names"@,
        "quest_names"@,
        "spot_names"@,
        "event_names"@,
        "war_names"@,
        "buff_names"@,
        "buff_detail"@,
        "event_mission"@,
        "mission_names"@,
    ]
}

/// The categories whose `<name>.json` files are read.
pub fn category_names() -> (r: Vec<&'static str>)
    ensures
        str_views(r@) == spec_category_names(),
{
    let r: Vec<&'static str> = vec![
        "svt_names",
        "ce_names",
        "cc_names",
        "costume_names",
        "mc_names",
        "mc_detail",
        "skill_names",
        "skill_detail",
        "td_names",
        "td_ruby",
        "td_types",
        "td_detail",
        "item_names",
        "entity_names",
        "quest_names",
        "spot_names",
        "event_names",
        "war_names",
        "buff_names",
        "buff_detail",
        "event_mission",
        "mission_names",
    ];
    assert(str_views(r@) =~= spec_category_names());
    r
}

/// The category files read, in order: one per table of the translation data.
pub proof fn lemma_category_name_table()
    ensures
        spec_category_names().len() == 22,
        spec_category_names()[0] == "svt_names"@,
        spec_category_names()[1] == "ce_names"@,
        spec_category_names()[2] == "cc_names"@,
        spec_category_names()[3] == "costume_names"@,
        spec_category_names()[4] == "mc_names"@,
        spec_category_names()[5] == "mc_detail"@,
        spec_category_names()[6] == "skill_names"@,
        spec_category_names()[7] == "skill_detail"@,
        spec_category_names()[8] == "td_names"@,
        spec_category_names()[9] == "td_ruby"@,
        spec_category_names()[10] == "td_types"@,
        spec_category_names()[11] == "td_detail"@,
        spec_category_names()[12] == "item_names"@,
        spec_category_names()[13] == "entity_names"@,
        spec_category_names()[14] == "quest_names"@,
        spec_category_names()[15] == "spot_names"@,
        spec_category_names()[16] == "event_names"@,
        spec_category_names()[17] == "war_names"@,
        spec_category_names()[18] == "buff_names"@,
        spec_category_names()[19] == "buff_detail"@,
        spec_category_names()[20] == "event_mission"@,
        spec_category_names()[21] == "mission_names"@,
{
}

/// The category names are pairwise distinct, so no category's table replaces
/// another's.
pub proof fn lemma_category_names_distinct()
    ensures
        forall|i: int, j: int|
            0 <= i < j < spec_category_names().len() ==> spec_category_names()[i]
                != spec_category_names()[j],
{
        reveal_strlit("svt_names");
        reveal_strlit("ce_names");
        reveal_strlit("cc_names");
        reveal_strlit("costume_names");
        reveal_strlit("mc_names");
        reveal_strlit("mc_detail");
        reveal_strlit("skill_names");
        reveal_strlit("skill_detail");
        reveal_strlit("td_names");
        reveal_strlit("td_ruby");
        reveal_strlit("td_types");
        reveal_strlit("td_detail");
        reveal_strlit("item_names");
        reveal_strlit("entity_names");
        reveal_strlit("quest_names");
        reveal_strlit("spot_names");
        reveal_strlit("event_names");
        reveal_strlit("war_names");
        reveal_strlit("buff_names");
        reveal_strlit("buff_detail");
        reveal_strlit("event_mission");
        reveal_strlit("mission_names");
    let n = spec_category_names();
    assert forall|i: int, j: int| 0 <= i < j < n.len() implies n[i] != n[j] by {
        if n[i] == n[j] {
            assert(n[i].len() == n[j].len());
            assert(n[i][0] == n[j][0] && n[i][1] == n[j][1] && n[i][2] == n[j][2] && n[i][3] == n[j][3]);
            assert(n[i][n[i].len() - 1] == n[j][n[j].len() - 1]);
            assert(n[i][4] == n[j][4] && n[i][5] == n[j][5] && n[i][6] == n[j][6]);
        }
    }
}

/// Loading the category files: at most one table per category, and each
/// file key with a translation is found, normalised, in its category.
pub proof fn lemma_category_load(files: Seq<Option<Seq<RawView>>>, i: int, j: int)
    requires
        files.len() == spec_category_names().len(),
        0 <= i < files.len(),
        files[i] matches Some(raw) && 0 <= j < raw.len() && raw[j].1 is Some,
    ensures
        ({
            let names = spec_category_names();
            let t = spec_load(names, files, names.len() as int);
            &&& t.len() <= names.len()
            &&& t.contains_key(names[i])
            &&& t[names[i]].contains_key(spec_normalize_width(files[i]->Some_0[j].0))
        }),
{
    let names = spec_category_names();
    lemma_category_names_distinct();
    lemma_load_categories(names, files, names.len() as int);
    lemma_load_finds(names, files, names.len() as int, i, j);
}

/// All loaded translation tables: category → (normalised key → translation).
pub struct Translations {
    maps: StringHashMap<StringHashMap<String>>,
}

pub open spec fn table_view(m: StringHashMap<String>) -> Map<Seq<char>, Seq<char>> {
    m@.map_values(|s: String| s@)
}

impl View for Translations {
    type V = Map<Seq<char>, Map<Seq<char>, Seq<char>>>;

    closed spec fn view(&self) -> Self::V {
        self.maps@.map_values(|m: StringHashMap<String>| table_view(m))
    }
}

impl Translations {
    /// No tables.
    pub fn new() -> (r: Self)
        ensures
            r@ == Map::<Seq<char>, Map<Seq<char>, Seq<char>>>::empty(),
    {
        let r = Translations { maps: StringHashMap::new() };
        assert(r@ =~= Map::<Seq<char>, Map<Seq<char>, Seq<char>>>::empty());
        r
    }

    /// Adds the table of the category `name` from its parsed entries, in the
    /// order given. A category that yields no translation is not added.
    pub fn insert_category(&mut self, name: &str, raw: &Vec<(String, Option<String>)>)
        ensures
            spec_table(raw_views(raw@)).len() > 0 ==> final(self)@ == old(self)@.insert(
                name@,
                spec_table(raw_views(raw@)),
            ),
            spec_table(raw_views(raw@)).len() == 0 ==> final(self)@ == old(self)@,
    {
        let ghost rv = raw_views(raw@);
        let mut table: StringHashMap<String> = StringHashMap::new();
        let n: usize = raw.len();
        let mut i: usize = 0;
        assert(rv.take(0) =~= Seq::<RawView>::empty());
        assert(table_view(table) =~= Map::<Seq<char>, Seq<char>>::empty());
        while i < n
            invariant
                n == raw@.len(),
                rv == raw_views(raw@),
                i <= n,
                table_view(table) == spec_table(rv.take(i as int)),
            decreases n - i,
        {
            let ghost before = table_view(table);
            assert(rv.take(i + 1).drop_last() =~= rv.take(i as int));
            assert(rv.take(i + 1).last() == raw_view(raw@[i as int]));
            match &raw[i].1 {
                Some(cn) => {
                    let key = normalize_width(raw[i].0.as_str());
                    table.insert(key, cn.clone());
                    assert(table_view(table) =~= before.insert(key@, cn@));
                },
                None => {},
            }
            i = i + 1;
        }
        assert(rv.take(n as int) =~= rv);
        assert(table_view(table).dom() =~= table@.dom());
        proof {
            lemma_table_finite(rv);
        }
        if !table.is_empty() {
            proof {
                if table_view(table).len() == 0 {
                    table_view(table).dom().lemma_len0_is_empty();
                    assert(table@.dom() =~= Set::<Seq<char>>::empty());
                }
            }
            let ghost tv = table_view(table);
            self.maps.insert(name.to_owned(), table);
            assert(self@ =~= old(self)@.insert(name@, tv));
        } else {
            assert(table@.dom() =~= Set::<Seq<char>>::empty());
        }
    }

    /// The tables of the categories `names`, `files[i]` being the parsed file of
    /// `names[i]` (`None` when it is missing or unreadable); a category that
    /// yields no translation is left out. Surplus names or files are ignored.
    pub fn load_files(names: &Vec<&str>, files: &Vec<Option<Vec<(String, Option<String>)>>>) -> (r:
        Self)
        ensures
            r@ == spec_load(
                str_views(names@),
                file_views(files@),
                if names@.len() <= files@.len() {
                    names@.len() as int
                } else {
                    files@.len() as int
                },
            ),
    {
        let k: usize = if names.len() <= files.len() {
            names.len()
        } else {
            files.len()
        };
        let ghost nv = str_views(names@);
        let ghost fv = file_views(files@);
        let mut t = Translations::new();
        let mut i: usize = 0;
        while i < k
            invariant
                k <= names@.len(),
                k <= files@.len(),
                nv == str_views(names@),
                fv == file_views(files@),
                i <= k,
                t@ == spec_load(nv, fv, i as int),
            decreases k - i,
        {
            match &files[i] {
                Some(raw) => {
                    assert(fv[i as int] == Some(raw_views(raw@)));
                    t.insert_category(names[i], raw);
                },
                None => {},
            }
            i = i + 1;
        }
        t
    }

    /// The translation of `key` in `category`.
    pub fn get(&self, category: &str, key: &str) -> (r: Option<&str>)
        ensures
            match r {
                Some(s) => spec_get(self@, category@, key@) == Some(s@),
                None => spec_get(self@, category@, key@) is None,
            },
    {
        match self.maps.get(category) {
            Some(m) => {
                assert(self@.contains_key(category@) && self@[category@] == table_view(*m));
                match m.get(key) {
                    Some(s) => Some(s.as_str()),
                    None => None,
                }
            },
            None => None,
        }
    }

    /// The translation of `key` in the first of `categories`, in order, that
    /// has one: a fallback chain.
    pub fn get_any(&self, categories: &[&str], key: &str) -> (r: Option<&str>)
        ensures
            match r {
                Some(s) => spec_get_any(self@, str_views(categories@), key@) == Some(s@),
                None => spec_get_any(self@, str_views(categories@), key@) is None,
            },
    {
        let ghost cats = str_views(categories@);
        let n: usize = categories.len();
        let mut i: usize = 0;
        assert(cats.skip(0) =~= cats);
        while i < n
            invariant
                n == categories@.len(),
                cats == str_views(categories@),
                i <= n,
                spec_get_any(self@, cats, key@) == spec_get_any(self@, cats.skip(i as int), key@),
            decreases n - i,
        {
            assert(cats.skip(i as int)[0] == categories@[i as int]@);
            assert(cats.skip(i as int).skip(1) =~= cats.skip(i + 1));
            match self.get(categories[i], key) {
                Some(s) => {
                    return Some(s);
                },
                None => {},
            }
            i = i + 1;
        }
        None
    }

    /// The number of loaded categories.
    pub fn len(&self) -> (n: usize)
        ensures
            n == self@.len(),
    {
        assert(self@.dom() =~= self.maps@.dom());
        self.maps.len()
    }
}

} // verus!
