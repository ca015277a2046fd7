use cleat_fgo::translations::{category_names, Translations};

fn raw(entries: &[(&str, Option<&str>)]) -> Vec<(String, Option<String>)> {
    entries.iter().map(|(k, v)| (k.to_string(), v.map(|s| s.to_string()))).collect()
}

#[test]
fn lists_the_categories() {
    let names = category_names();
    assert_eq!(names.len(), 22);
    assert_eq!(names[0], "svt_names");
    assert_eq!(names[21], "mission_names");
}

#[test]
fn normalises_keys_and_drops_untranslated() {
    let mut t = Translations::new();
    t.insert_category("svt_names", &raw(&[("アルトリア・ペンドラゴン", Some("阿尔托莉雅·潘德拉贡")), ("Ｘ", Some("叉")), ("エミヤ", None)]));
    assert_eq!(t.len(), 1);
    assert_eq!(t.get("svt_names", "アルトリア・ペンドラゴン"), Some("阿尔托莉雅·潘德拉贡"));
    assert_eq!(t.get("svt_names", "X"), Some("叉"));
    assert_eq!(t.get("svt_names", "Ｘ"), None);
    assert_eq!(t.get("svt_names", "エミヤ"), None);
    assert_eq!(t.get("ce_names", "X"), None);
}

#[test]
fn later_entry_with_same_normalised_key_wins() {
    let mut t = Translations::new();
    t.insert_category("ce_names", &raw(&[("Ａ", Some("first")), ("A", Some("second"))]));
    assert_eq!(t.get("ce_names", "A"), Some("second"));
}

#[test]
fn category_without_translations_is_not_added() {
    let mut t = Translations::new();
    t.insert_category("td_ruby", &raw(&[("a", None)]));
    t.insert_category("td_types", &raw(&[]));
    assert_eq!(t.len(), 0);
}

#[test]
fn fallback_chain_answers_from_the_first_category_that_has_the_key() {
    let mut t = Translations::new();
    t.insert_category("skill_names", &raw(&[("k", Some("skill"))]));
    t.insert_category("cc_names", &raw(&[("k", Some("cc")), ("only", Some("cc only"))]));
    assert_eq!(t.get_any(&["skill_names", "cc_names"], "k"), Some("skill"));
    assert_eq!(t.get_any(&["cc_names", "skill_names"], "k"), Some("cc"));
    assert_eq!(t.get_any(&["missing", "skill_names", "cc_names"], "only"), Some("cc only"));
    assert_eq!(t.get_any(&["skill_names"], "only"), None);
    assert_eq!(t.get_any(&[], "k"), None);
}

#[test]
fn loads_category_files_in_order() {
    let names = category_names();
    let mut files: Vec<Option<Vec<(String, Option<String>)>>> = vec![None; names.len()];
    files[0] = Some(raw(&[("Ｘ", Some("叉"))]));
    files[1] = Some(raw(&[("a", None)]));
    files[6] = Some(raw(&[("k", Some("skill"))]));
    let t = Translations::load_files(&names, &files);
    assert_eq!(t.len(), 2);
    assert_eq!(t.get("svt_names", "X"), Some("叉"));
    assert_eq!(t.get("ce_names", "a"), None);
    assert_eq!(t.get("skill_names", "k"), Some("skill"));
}

#[test]
fn category_names_are_distinct() {
    let names = category_names();
    for i in 0..names.len() {
        for j in 0..i {
            assert_ne!(names[i], names[j]);
        }
    }
}

#[test]
fn surplus_files_are_ignored() {
    let names = vec!["svt_names"];
    let files = vec![Some(raw(&[("a", Some("A"))])), Some(raw(&[("b", Some("B"))]))];
    let t = Translations::load_files(&names, &files);
    assert_eq!(t.len(), 1);
    assert_eq!(t.get("svt_names", "b"), None);
}
