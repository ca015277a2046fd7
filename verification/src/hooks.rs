//! The decisions the runtime hooks make: which game strings are replaced
//! and by what, when the localization file is injected, which labels get
//! the custom font, which asset keys are recorded. Reading and writing the
//! game's objects happens outside this crate.
use vstd::prelude::*;
use crate::text::{chars_of, lookup_key, spec_lookup_key};
use crate::translations::{spec_get_any, str_views, Translations};

verus! {

// ── Strings ──────────────────────────────────────────────────────────────

/// Whether two texts are equal, character by character.
pub fn str_equals(a: &str, b: &str) -> (r: bool)
    ensures
        r == (a@ == b@),
{
    let x = chars_of(a);
    let y = chars_of(b);
    if x.len() != y.len() {
        return false;
    }
    let n: usize = x.len();
    let mut i: usize = 0;
    while i < n
        invariant
            n == x@.len(),
            n == y@.len(),
            x@ == a@,
            y@ == b@,
            i <= n,
            forall|j: int| 0 <= j < i ==> x@[j] == y@[j],
        decreases n - i,
    {
        if x[i] != y[i] {
            assert(x@[i as int] != y@[i as int]);
            return false;
        }
        i = i + 1;
    }
    assert(x@ =~= y@);
    true
}

// ── Class names ──────────────────────────────────────────────────────────

/// The English name of a servant class id; `?` for an unknown id.
pub open spec fn spec_class_name(id: i32) -> Seq<char> {
    if id == 1 {
        "Saber"@
    } else if id == 2 {
        "Archer"@
    } else if id == 3 {
        "Lancer"@
    } else if id == 4 {
        "Rider"@
    } else if id == 5 {
        "Caster"@
    } else if id == 6 {
        "Assassin"@
    } else if id == 7 {
        "Berserker"@
    } else if id == 8 {
        "Shielder"@
    } else if id == 9 {
        "Ruler"@
    } else if id == 10 {
        "Alterego"@
    } else if id == 11 {
        "Avenger"@
    } else if id == 17 {
        "Grand Caster"@
    } else if id == 20 {
        "Beast II"@
    } else if id == 22 {
        "Beast I"@
    } else if id == 23 {
        "MoonCancer"@
    } else if id == 24 {
        "Beast Ⅲ/R"@
    } else if id == 25 {
        "Foreigner"@
    } else if id == 26 {
        "Beast Ⅲ/L"@
    } else if id == 27 {
        "Beast Unknown"@
    } else if id == 28 {
        "Pretender"@
    } else if id == 29 {
        "Beast Ⅳ"@
    } else if id == 33 || id == 38 {
        "Beast"@
    } else if id == 40 {
        "UnBeast"@
    } else if id == 1000 {
        "OTHER"@
    } else if id == 1001 {
        "ALL"@
    } else if id == 1002 {
        "EXTRA"@
    } else {
        "?"@
    }
}

/// The English name of a servant class id.
pub fn class_name(id: i32) -> (r: &'static str)
    ensures
        r@ == spec_class_name(id),
{
    match id {
        1 => "Saber",
        2 => "Archer",
        3 => "Lancer",
        4 => "Rider",
        5 => "Caster",
        6 => "Assassin",
        7 => "Berserker",
        8 => "Shielder",
        9 => "Ruler",
        10 => "Alterego",
        11 => "Avenger",
        17 => "Grand Caster",
        20 => "Beast II",
        22 => "Beast I",
        23 => "MoonCancer",
        24 => "Beast Ⅲ/R",
        25 => "Foreigner",
        26 => "Beast Ⅲ/L",
        27 => "Beast Unknown",
        28 => "Pretender",
        29 => "Beast Ⅳ",
        33 | 38 => "Beast",
        40 => "UnBeast",
        1000 => "OTHER",
        1001 => "ALL",
        1002 => "EXTRA",
        _ => "?",
    }
}

// ── Master data ──────────────────────────────────────────────────────────

/// A plain string field of a master data class, and the categories its
/// translation is looked up in, in order.
pub struct StringMapping {
    pub klass: &'static str,
    pub field: &'static str,
    pub categories: Vec<&'static str>,
}

/// Obscured string fields of a master data class: the first is decrypted
/// and looked up, all of them receive the translation.
pub struct ObscuredMapping {
    pub klass: &'static str,
    pub fields: Vec<&'static str>,
    pub categories: Vec<&'static str>,
}

pub open spec fn string_mapping_views(v: Seq<StringMapping>) -> Seq<
    (Seq<char>, Seq<char>, Seq<Seq<char>>),
> {
    v.map_values(|m: StringMapping| (m.klass@, m.field@, str_views(m.categories@)))
}

pub open spec fn obscured_mapping_views(v: Seq<ObscuredMapping>) -> Seq<
    (Seq<char>, Seq<Seq<char>>, Seq<Seq<char>>),
> {
    v.map_values(
        |m: ObscuredMapping| (m.klass@, str_views(m.fields@), str_views(m.categories@)),
    )
}

/// The plain string fields patched: (class, field, categories tried in order).
pub open spec fn spec_string_mappings() -> Seq<(Seq<char>, Seq<char>, Seq<Seq<char>>)> {
    seq![
        ("ServantMaster"@, "battleName"@, seq!["svt_names"@]),
        ("SkillMaster"@, "name"@, seq!["skill_names"@, "cc_names"@, "ce_names"@]),
        ("SkillDetailMaster"@, "detail"@, seq!["skill_detail"@]),
        ("SkillDetailMaster"@, "detailShort"@, seq!["skill_detail"@]),
        ("TreasureDvcMaster"@, "name"@, seq!["td_names"@]),
        ("TreasureDvcMaster"@, "ruby"@, seq!["td_ruby"@]),
        ("TreasureDvcMaster"@, "typeText"@, seq!["td_types"@]),
        ("TreasureDvcDetailMaster"@, "detail"@, seq!["td_detail"@]),
        ("TreasureDvcDetailMaster"@, "detailShort"@, seq!["td_detail"@]),
        ("ItemMaster"@, "name"@, seq!["item_names"@]),
        ("ShopMaster"@, "name"@, seq!["entity_names"@, "item_names"@, "ce_names"@, "cc_names"@]),
        ("SpotMaster"@, "name"@, seq!["spot_names"@]),
        ("QuestMaster"@, "name"@, seq!["quest_names"@]),
        ("EventMaster"@, "name"@, seq!["event_names"@]),
        ("WarMaster"@, "name"@, seq!["war_names"@]),
        ("ServantCostumeMaster"@, "name"@, seq!["costume_names"@]),
        ("BuffMaster"@, "name"@, seq!["buff_names"@]),
        ("BuffMaster"@, "detail"@, seq!["buff_detail"@]),
        ("EquipMaster"@, "detail"@, seq!["mc_detail"@]),
        ("EventMissionMaster"@, "name"@, seq!["event_mission"@]),
        ("EventMissionMaster"@, "detail"@, seq!["buff_detail"@]),
        ("EventMissionConditionMaster"@, "conditionMessage"@, seq!["event_mission"@]),
        ("SkillAddMaster"@, "name"@, seq!["skill_names"@]),
    ]
}

/// The obscured string fields patched: (class, fields, categories tried in order).
pub open spec fn spec_obscured_mappings() -> Seq<(Seq<char>, Seq<Seq<char>>, Seq<Seq<char>>)> {
    seq![
        ("CommandCodeMaster"@, seq!["name"@, "ruby"@], seq!["cc_names"@]),
        ("EquipMaster"@, seq!["name"@], seq!["mc_names"@]),
        ("ServantMaster"@, seq!["nameSave"@], seq!["svt_names"@, "ce_names"@, "entity_names"@]),
    ]
}

/// The plain string fields patched, in the order they are patched.
pub fn string_mappings() -> (r: Vec<StringMapping>)
    ensures
        string_mapping_views(r@) == spec_string_mappings(),
{
    let mut r: Vec<StringMapping> = Vec::new();
    r.push(StringMapping { klass: "ServantMaster", field: "battleName", categories: vec!["svt_names"] });
    r.push(StringMapping { klass: "SkillMaster", field: "name", categories: vec!["skill_names", "cc_names", "ce_names"] });
    r.push(StringMapping { klass: "SkillDetailMaster", field: "detail", categories: vec!["skill_detail"] });
    r.push(StringMapping { klass: "SkillDetailMaster", field: "detailShort", categories: vec!["skill_detail"] });
    r.push(StringMapping { klass: "TreasureDvcMaster", field: "name", categories: vec!["td_names"] });
    r.push(StringMapping { klass: "TreasureDvcMaster", field: "ruby", categories: vec!["td_ruby"] });
    r.push(StringMapping { klass: "TreasureDvcMaster", field: "typeText", categories: vec!["td_types"] });
    r.push(StringMapping { klass: "TreasureDvcDetailMaster", field: "detail", categories: vec!["td_detail"] });
    r.push(StringMapping { klass: "TreasureDvcDetailMaster", field: "detailShort", categories: vec!["td_detail"] });
    r.push(StringMapping { klass: "ItemMaster", field: "name", categories: vec!["item_names"] });
    r.push(StringMapping { klass: "ShopMaster", field: "name", categories: vec!["entity_names", "item_names", "ce_names", "cc_names"] });
    r.push(StringMapping { klass: "SpotMaster", field: "name", categories: vec!["spot_names"] });
    r.push(StringMapping { klass: "QuestMaster", field: "name", categories: vec!["quest_names"] });
    r.push(StringMapping { klass: "EventMaster", field: "name", categories: vec!["event_names"] });
    r.push(StringMapping { klass: "WarMaster", field: "name", categories: vec!["war_names"] });
    r.push(StringMapping { klass: "ServantCostumeMaster", field: "name", categories: vec!["costume_names"] });
    r.push(StringMapping { klass: "BuffMaster", field: "name", categories: vec!["buff_names"] });
    r.push(StringMapping { klass: "BuffMaster", field: "detail", categories: vec!["buff_detail"] });
    r.push(StringMapping { klass: "EquipMaster", field: "detail", categories: vec!["mc_detail"] });
    r.push(StringMapping { klass: "EventMissionMaster", field: "name", categories: vec!["event_mission"] });
    r.push(StringMapping { klass: "EventMissionMaster", field: "detail", categories: vec!["buff_detail"] });
    r.push(StringMapping { klass: "EventMissionConditionMaster", field: "conditionMessage", categories: vec!["event_mission"] });
    r.push(StringMapping { klass: "SkillAddMaster", field: "name", categories: vec!["skill_names"] });
    assert(string_mapping_views(r@) =~~= spec_string_mappings());
    r
}

/// The obscured string fields patched, in the order they are patched.
pub fn obscured_mappings() -> (r: Vec<ObscuredMapping>)
    ensures
        obscured_mapping_views(r@) == spec_obscured_mappings(),
{
    let mut r: Vec<ObscuredMapping> = Vec::new();
    r.push(ObscuredMapping { klass: "CommandCodeMaster", fields: vec!["name", "ruby"], categories: vec!["cc_names"] });
    r.push(ObscuredMapping { klass: "EquipMaster", fields: vec!["name"], categories: vec!["mc_names"] });
    r.push(ObscuredMapping { klass: "ServantMaster", fields: vec!["nameSave"], categories: vec!["svt_names", "ce_names", "entity_names"] });
    assert(obscured_mapping_views(r@) =~~= spec_obscured_mappings());
    r
}

// ── The tables, entry by entry ───────────────────────────────────────────

/// The servant class names: each listed class id has its English name, and
/// every other id gives `?`.
pub proof fn lemma_class_name_table(id: i32)
    ensures
        id == 1 ==> spec_class_name(id) == "Saber"@,
        id == 2 ==> spec_class_name(id) == "Archer"@,
        id == 3 ==> spec_class_name(id) == "Lancer"@,
        id == 4 ==> spec_class_name(id) == "Rider"@,
        id == 5 ==> spec_class_name(id) == "Caster"@,
        id == 6 ==> spec_class_name(id) == "Assassin"@,
        id == 7 ==> spec_class_name(id) == "Berserker"@,
        id == 8 ==> spec_class_name(id) == "Shielder"@,
        id == 9 ==> spec_class_name(id) == "Ruler"@,
        id == 10 ==> spec_class_name(id) == "Alterego"@,
        id == 11 ==> spec_class_name(id) == "Avenger"@,
        id == 17 ==> spec_class_name(id) == "Grand Caster"@,
        id == 20 ==> spec_class_name(id) == "Beast II"@,
        id == 22 ==> spec_class_name(id) == "Beast I"@,
        id == 23 ==> spec_class_name(id) == "MoonCancer"@,
        id == 24 ==> spec_class_name(id) == "Beast Ⅲ/R"@,
        id == 25 ==> spec_class_name(id) == "Foreigner"@,
        id == 26 ==> spec_class_name(id) == "Beast Ⅲ/L"@,
        id == 27 ==> spec_class_name(id) == "Beast Unknown"@,
        id == 28 ==> spec_class_name(id) == "Pretender"@,
        id == 29 ==> spec_class_name(id) == "Beast Ⅳ"@,
        id == 33 ==> spec_class_name(id) == "Beast"@,
        id == 38 ==> spec_class_name(id) == "Beast"@,
        id == 40 ==> spec_class_name(id) == "UnBeast"@,
        id == 1000 ==> spec_class_name(id) == "OTHER"@,
        id == 1001 ==> spec_class_name(id) == "ALL"@,
        id == 1002 ==> spec_class_name(id) == "EXTRA"@,
        (id != 1 && id != 2 && id != 3 && id != 4 && id != 5 && id != 6 && id != 7 && id != 8 && id != 9 && id != 10 && id != 11 && id != 17 && id != 20 && id != 22 && id != 23 && id != 24 && id != 25 && id != 26 && id != 27 && id != 28 && id != 29 && id != 33 && id != 38 && id != 40 && id != 1000 && id != 1001 && id != 1002) ==> spec_class_name(id) == "?"@,
{
}

/// The plain string fields patched and where each is looked up: the class,
/// the field, and the categories tried in order, for every field.
pub proof fn lemma_string_mapping_table()
    ensures
        spec_string_mappings().len() == 23,
        spec_string_mappings()[0].0 == "ServantMaster"@ && spec_string_mappings()[0].1 == "battleName"@
            && spec_string_mappings()[0].2 == seq!["svt_names"@],
        spec_string_mappings()[1].0 == "SkillMaster"@ && spec_string_mappings()[1].1 == "name"@
            && spec_string_mappings()[1].2 == seq!["skill_names"@, "cc_names"@, "ce_names"@],
        spec_string_mappings()[2].0 == "SkillDetailMaster"@ && spec_string_mappings()[2].1 == "detail"@
            && spec_string_mappings()[2].2 == seq!["skill_detail"@],
        spec_string_mappings()[3].0 == "SkillDetailMaster"@ && spec_string_mappings()[3].1 == "detailShort"@
            && spec_string_mappings()[3].2 == seq!["skill_detail"@],
        spec_string_mappings()[4].0 == "TreasureDvcMaster"@ && spec_string_mappings()[4].1 == "name"@
            && spec_string_mappings()[4].2 == seq!["td_names"@],
        spec_string_mappings()[5].0 == "TreasureDvcMaster"@ && spec_string_mappings()[5].1 == "ruby"@
            && spec_string_mappings()[5].2 == seq!["td_ruby"@],
        spec_string_mappings()[6].0 == "TreasureDvcMaster"@ && spec_string_mappings()[6].1 == "typeText"@
            && spec_string_mappings()[6].2 == seq!["td_types"@],
        spec_string_mappings()[7].0 == "TreasureDvcDetailMaster"@ && spec_string_mappings()[7].1 == "detail"@
            && spec_string_mappings()[7].2 == seq!["td_detail"@],
        spec_string_mappings()[8].0 == "TreasureDvcDetailMaster"@ && spec_string_mappings()[8].1 == "detailShort"@
            && spec_string_mappings()[8].2 == seq!["td_detail"@],
        spec_string_mappings()[9].0 == "ItemMaster"@ && spec_string_mappings()[9].1 == "name"@
            && spec_string_mappings()[9].2 == seq!["item_names"@],
        spec_string_mappings()[10].0 == "ShopMaster"@ && spec_string_mappings()[10].1 == "name"@
            && spec_string_mappings()[10].2 == seq!["entity_names"@, "item_names"@, "ce_names"@, "cc_names"@],
        spec_string_mappings()[11].0 == "SpotMaster"@ && spec_string_mappings()[11].1 == "name"@
            && spec_string_mappings()[11].2 == seq!["spot_names"@],
        spec_string_mappings()[12].0 == "QuestMaster"@ && spec_string_mappings()[12].1 == "name"@
            && spec_string_mappings()[12].2 == seq!["quest_names"@],
        spec_string_mappings()[13].0 == "EventMaster"@ && spec_string_mappings()[13].1 == "name"@
            && spec_string_mappings()[13].2 == seq!["event_names"@],
        spec_string_mappings()[14].0 == "WarMaster"@ && spec_string_mappings()[14].1 == "name"@
            && spec_string_mappings()[14].2 == seq!["war_names"@],
        spec_string_mappings()[15].0 == "ServantCostumeMaster"@ && spec_string_mappings()[15].1 == "name"@
            && spec_string_mappings()[15].2 == seq!["costume_names"@],
        spec_string_mappings()[16].0 == "BuffMaster"@ && spec_string_mappings()[16].1 == "name"@
            && spec_string_mappings()[16].2 == seq!["buff_names"@],
        spec_string_mappings()[17].0 == "BuffMaster"@ && spec_string_mappings()[17].1 == "detail"@
            && spec_string_mappings()[17].2 == seq!["buff_detail"@],
        spec_string_mappings()[18].0 == "EquipMaster"@ && spec_string_mappings()[18].1 == "detail"@
            && spec_string_mappings()[18].2 == seq!["mc_detail"@],
        spec_string_mappings()[19].0 == "EventMissionMaster"@ && spec_string_mappings()[19].1 == "name"@
            && spec_string_mappings()[19].2 == seq!["event_mission"@],
        spec_string_mappings()[20].0 == "EventMissionMaster"@ && spec_string_mappings()[20].1 == "detail"@
            && spec_string_mappings()[20].2 == seq!["buff_detail"@],
        spec_string_mappings()[21].0 == "EventMissionConditionMaster"@ && spec_string_mappings()[21].1 == "conditionMessage"@
            && spec_string_mappings()[21].2 == seq!["event_mission"@],
        spec_string_mappings()[22].0 == "SkillAddMaster"@ && spec_string_mappings()[22].1 == "name"@
            && spec_string_mappings()[22].2 == seq!["skill_names"@],
{
}

/// The obscured string fields patched: the class, the fields (the first is
/// decrypted and looked up, all receive the translation), and the categories
/// tried in order, for every class.
pub proof fn lemma_obscured_mapping_table()
    ensures
        spec_obscured_mappings().len() == 3,
        spec_obscured_mappings()[0].0 == "CommandCodeMaster"@ && spec_obscured_mappings()[0].1 == seq!["name"@, "ruby"@]
            && spec_obscured_mappings()[0].2 == seq!["cc_names"@],
        spec_obscured_mappings()[1].0 == "EquipMaster"@ && spec_obscured_mappings()[1].1 == seq!["name"@]
            && spec_obscured_mappings()[1].2 == seq!["mc_names"@],
        spec_obscured_mappings()[2].0 == "ServantMaster"@ && spec_obscured_mappings()[2].1 == seq!["nameSave"@]
            && spec_obscured_mappings()[2].2 == seq!["svt_names"@, "ce_names"@, "entity_names"@],
{
}

/// The categories tried for the names in `ServantLimitAddMaster.script`.
pub open spec fn spec_servant_limit_categories() -> Seq<Seq<char>> {
    seq!["svt_names"@, "skill_names"@, "td_names"@, "td_ruby"@]
}

/// The per-ascension names are looked up as servant names, then skill names,
/// then noble phantasm names, then noble phantasm rubies.
pub proof fn lemma_servant_limit_table()
    ensures
        spec_servant_limit_categories().len() == 4,
        spec_servant_limit_categories()[0] == "svt_names"@,
        spec_servant_limit_categories()[1] == "skill_names"@,
        spec_servant_limit_categories()[2] == "td_names"@,
        spec_servant_limit_categories()[3] == "td_ruby"@,
{
}

/// The categories tried for the names in `ServantLimitAddMaster.script`.
pub fn servant_limit_categories() -> (r: Vec<&'static str>)
    ensures
        str_views(r@) == spec_servant_limit_categories(),
{
    let r: Vec<&'static str> = vec!["svt_names", "skill_names", "td_names", "td_ruby"];
    assert(str_views(r@) =~= spec_servant_limit_categories());
    r
}

/// What reading a managed string gives for a null or undecodable string.
pub open spec fn is_placeholder(raw: Seq<char>) -> bool {
    raw == "<null>"@ || raw == "<invalid UTF-16>"@
}

/// The two strings that stand for a null or undecodable managed string, and
/// nothing else, are placeholders.
pub proof fn lemma_placeholders(raw: Seq<char>)
    ensures
        is_placeholder("<null>"@),
        is_placeholder("<invalid UTF-16>"@),
        is_placeholder(raw) ==> raw == "<null>"@ || raw == "<invalid UTF-16>"@,
{
}

/// The translation of a piece of game text: looked up under its key (widths
/// folded, markup removed) in the categories in order.
pub fn translate<'a>(t: &'a Translations, categories: &[&str], raw: &str) -> (r: Option<&'a str>)
    ensures
        match r {
            Some(s) => spec_get_any(t@, str_views(categories@), spec_lookup_key(raw@)) == Some(
                s@,
            ),
            None => spec_get_any(t@, str_views(categories@), spec_lookup_key(raw@)) is None,
        },
{
    let key = lookup_key(raw);
    t.get_any(categories, key.as_str())
}

/// The translation of a plain string field's value; a null or undecodable
/// string is never translated.
pub fn translate_field<'a>(t: &'a Translations, categories: &[&str], raw: &str) -> (r: Option<
    &'a str,
>)
    ensures
        is_placeholder(raw@) ==> r is None,
        !is_placeholder(raw@) ==> match r {
            Some(s) => spec_get_any(t@, str_views(categories@), spec_lookup_key(raw@)) == Some(
                s@,
            ),
            None => spec_get_any(t@, str_views(categories@), spec_lookup_key(raw@)) is None,
        },
{
    if str_equals(raw, "<null>") || str_equals(raw, "<invalid UTF-16>") {
        return None;
    }
    translate(t, categories, raw)
}

// ── Localization ─────────────────────────────────────────────────────────

/// What the localization hook does on one call.
pub struct LocalizationStep {
    /// Whether the injection has happened, after this call.
    pub injected: bool,
    /// Whether this call passes the custom text on (otherwise it drops the call).
    pub inject: bool,
}

pub open spec fn spec_localization_inject(injected: bool, text: Seq<char>) -> bool {
    !injected && text.len() > 0
}

/// One call of the localization hook: only the first call injects the custom
/// text, and only when there is some; every call marks the injection done.
pub fn localization_step(injected: bool, text: &str) -> (r: LocalizationStep)
    ensures
        r.injected,
        r.inject == spec_localization_inject(injected, text@),
{
    LocalizationStep { injected: true, inject: !injected && !text.is_empty() }
}

/// How many of a run of calls inject, from the state `injected`; `texts`
/// are the texts each call sees.
pub open spec fn injections(injected: bool, texts: Seq<Seq<char>>) -> nat
    decreases texts.len(),
{
    if texts.len() == 0 {
        0
    } else {
        (if spec_localization_inject(injected, texts[0]) {
            1nat
        } else {
            0nat
        }) + injections(true, texts.skip(1))
    }
}

/// A call injects exactly when the injection has not happened yet and the
/// custom text is not empty.
pub proof fn lemma_localization_step(injected: bool, text: Seq<char>)
    ensures
        spec_localization_inject(injected, text) == (!injected && text.len() > 0),
        injections(false, seq![text]) == (if text.len() > 0 {
            1nat
        } else {
            0nat
        }),
{
    assert(seq![text].skip(1) =~= Seq::<Seq<char>>::empty());
    assert(injections(true, Seq::<Seq<char>>::empty()) == 0);
}

/// The custom text is injected at most once, whatever the calls.
pub proof fn lemma_inject_at_most_once(injected: bool, texts: Seq<Seq<char>>)
    ensures
        injections(injected, texts) <= 1,
        injected ==> injections(injected, texts) == 0,
    decreases texts.len(),
{
    if texts.len() > 0 {
        lemma_inject_at_most_once(true, texts.skip(1));
    }
}

// ── Font ─────────────────────────────────────────────────────────────────

/// What the font hook does for one label.
pub struct FontStep {
    /// The game's default font as captured so far (0: none yet).
    pub backup: usize,
    /// Whether the label is switched to the custom font.
    pub replace: bool,
}

pub open spec fn spec_font_step(custom: Option<usize>, current: Option<usize>, backup: usize) -> (
    usize,
    bool,
) {
    match (custom, current) {
        (Some(c), Some(cur)) => if cur == c {
            (backup, false)
        } else if backup == 0 {
            (cur, true)
        } else {
            (backup, cur == backup)
        },
        _ => (backup, false),
    }
}

/// One label through the font hook. `custom` is the loaded custom font
/// (`None`: it could not be loaded), `current` the label's font (`None`: it
/// could not be read), `backup` the captured default font (0: none yet).
/// The first label seen with another font than the custom one fixes the
/// default font; only labels with the default font are switched.
pub fn font_step(custom: Option<usize>, current: Option<usize>, backup: usize) -> (r: FontStep)
    ensures
        (r.backup, r.replace) == spec_font_step(custom, current, backup),
{
    match (custom, current) {
        (Some(c), Some(cur)) => {
            if cur == c {
                FontStep { backup, replace: false }
            } else if backup == 0 {
                FontStep { backup: cur, replace: true }
            } else {
                FontStep { backup, replace: cur == backup }
            }
        },
        _ => FontStep { backup, replace: false },
    }
}

/// Once captured, the default font never changes; a label is switched only
/// if it uses the captured default font and not already the custom one.
pub proof fn lemma_font_step(custom: Option<usize>, current: Option<usize>, backup: usize)
    ensures
        ({
            let (b, replace) = spec_font_step(custom, current, backup);
            &&& backup != 0 ==> b == backup
            &&& replace ==> custom is Some && current == Some(b) && current != custom
            &&& (custom is None || current is None) ==> b == backup && !replace
            &&& custom is Some && current is Some && current != custom && backup == 0 ==> b
                == current->0 && replace
            &&& custom is Some && current is Some && current != custom && backup != 0 ==> replace
                == (current == Some(backup))
            &&& current is Some && current == custom ==> b == backup && !replace
        }),
{
}

// ── Asset bundle keys ────────────────────────────────────────────────────

/// An asset bundle's id and decryption key.
pub struct KeyEntry {
    pub id: String,
    pub decrypt_key: String,
}

/// The number of entries of a key dictionary that are read: between 1 and
/// 100, otherwise the dictionary is skipped.
pub fn dict_entry_count(count: i32) -> (r: Option<usize>)
    ensures
        1 <= count <= 100 ==> r == Some(count as usize),
        !(1 <= count <= 100) ==> r is None,
{
    if count <= 0 || count > 100 {
        None
    } else {
        Some(count as usize)
    }
}

/// The id and the decryption key that a dictionary's (key, value) pairs
/// set, the last pair for each winning; other keys are ignored.
pub open spec fn spec_key_fields(pairs: Seq<(Seq<char>, Seq<char>)>) -> (Seq<char>, Seq<char>)
    decreases pairs.len(),
{
    if pairs.len() == 0 {
        (Seq::empty(), Seq::empty())
    } else {
        let (id, dk) = spec_key_fields(pairs.drop_last());
        let (k, v) = pairs.last();
        if k == "id"@ {
            (v, dk)
        } else if k == "decryptKey"@ {
            (id, v)
        } else {
            (id, dk)
        }
    }
}

/// Reading a key dictionary pair by pair: an `id` pair sets the id, a
/// `decryptKey` pair sets the key, any other pair changes nothing; nothing
/// read leaves both empty.
pub proof fn lemma_key_fields(pairs: Seq<(Seq<char>, Seq<char>)>, k: Seq<char>, v: Seq<char>)
    ensures
        spec_key_fields(Seq::empty()) == (Seq::<char>::empty(), Seq::<char>::empty()),
        spec_key_fields(pairs.push(("id"@, v))) == (v, spec_key_fields(pairs).1),
        spec_key_fields(pairs.push(("decryptKey"@, v))) == (spec_key_fields(pairs).0, v),
        k != "id"@ && k != "decryptKey"@ ==> spec_key_fields(pairs.push((k, v))) == spec_key_fields(
            pairs,
        ),
{
    reveal_strlit("id");
    reveal_strlit("decryptKey");
    assert("decryptKey"@.len() != "id"@.len());
    assert(pairs.push(("id"@, v)).drop_last() =~= pairs);
    assert(pairs.push(("decryptKey"@, v)).drop_last() =~= pairs);
    assert(pairs.push((k, v)).drop_last() =~= pairs);
}

pub open spec fn pair_views(v: Seq<(String, String)>) -> Seq<(Seq<char>, Seq<char>)> {
    v.map_values(|p: (String, String)| (p.0@, p.1@))
}

/// The key entry of one dictionary: `None` when its id is empty.
pub fn key_entry(pairs: &Vec<(String, String)>) -> (r: Option<KeyEntry>)
    ensures
        ({
            let (id, dk) = spec_key_fields(pair_views(pairs@));
            match r {
                Some(e) => id.len() > 0 && e.id@ == id && e.decrypt_key@ == dk,
                None => id.len() == 0,
            }
        }),
{
    let ghost pv = pair_views(pairs@);
    let mut id = String::new();
    let mut decrypt_key = String::new();
    let n: usize = pairs.len();
    let mut i: usize = 0;
    assert(pv.take(0) =~= Seq::<(Seq<char>, Seq<char>)>::empty());
    while i < n
        invariant
            n == pairs@.len(),
            pv == pair_views(pairs@),
            i <= n,
            (id@, decrypt_key@) == spec_key_fields(pv.take(i as int)),
        decreases n - i,
    {
        assert(pv.take(i + 1).drop_last() =~= pv.take(i as int));
        assert(pv.take(i + 1).last() == (pairs@[i as int].0@, pairs@[i as int].1@));
        let (k, v) = &pairs[i];
        if str_equals(k.as_str(), "id") {
            id = v.clone();
        } else if str_equals(k.as_str(), "decryptKey") {
            decrypt_key = v.clone();
        }
        i = i + 1;
    }
    assert(pv.take(n as int) =~= pv);
    if id.as_str().is_empty() {
        None
    } else {
        Some(KeyEntry { id, decrypt_key })
    }
}

} // verus!
