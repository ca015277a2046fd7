use cleat_fgo::hooks::{
    class_name, dict_entry_count, font_step, key_entry, localization_step, obscured_mappings,
    servant_limit_categories, str_equals, string_mappings, translate, translate_field,
};
use cleat_fgo::translations::Translations;

#[test]
fn class_names() {
    assert_eq!(class_name(1), "Saber");
    assert_eq!(class_name(7), "Berserker");
    assert_eq!(class_name(17), "Grand Caster");
    assert_eq!(class_name(24), "Beast Ⅲ/R");
    assert_eq!(class_name(33), "Beast");
    assert_eq!(class_name(38), "Beast");
    assert_eq!(class_name(1002), "EXTRA");
    assert_eq!(class_name(12), "?");
    assert_eq!(class_name(-1), "?");
}

#[test]
fn string_equality() {
    assert!(str_equals("id", "id"));
    assert!(!str_equals("id", "idx"));
    assert!(!str_equals("ab", "ac"));
    assert!(str_equals("", ""));
}

fn table() -> Translations {
    let mut t = Translations::new();
    t.insert_category("skill_names", &vec![("魔力放出".to_string(), Some("魔力放出(译)".to_string())), ("X".to_string(), Some("叉".to_string()))]);
    t
}

#[test]
fn translates_after_folding_and_stripping() {
    let t = table();
    assert_eq!(translate(&t, &["skill_names"], "[g]魔力放出[/g]"), Some("魔力放出(译)"));
    assert_eq!(translate(&t, &["skill_names"], "Ｘ"), Some("叉"));
    assert_eq!(translate(&t, &["td_names"], "Ｘ"), None);
}

#[test]
fn placeholders_are_not_translated() {
    let mut t = Translations::new();
    t.insert_category("svt_names", &vec![("<null>".to_string(), Some("n".to_string()))]);
    assert_eq!(translate_field(&t, &["svt_names"], "<null>"), None);
    assert_eq!(translate_field(&t, &["svt_names"], "<invalid UTF-16>"), None);
    assert_eq!(translate(&t, &["svt_names"], "<null>"), Some("n"));
    assert_eq!(translate_field(&table(), &["skill_names"], "X"), Some("叉"));
}

#[test]
fn mapping_tables() {
    let s = string_mappings();
    assert_eq!(s.len(), 23);
    assert_eq!(s[0].klass, "ServantMaster");
    assert_eq!(s[0].field, "battleName");
    assert_eq!(s[10].categories, vec!["entity_names", "item_names", "ce_names", "cc_names"]);
    let o = obscured_mappings();
    assert_eq!(o.len(), 3);
    assert_eq!(o[0].fields, vec!["name", "ruby"]);
    assert_eq!(o[2].categories, vec!["svt_names", "ce_names", "entity_names"]);
    assert_eq!(servant_limit_categories(), vec!["svt_names", "skill_names", "td_names", "td_ruby"]);
}

#[test]
fn localization_is_injected_once() {
    let first = localization_step(false, "{\"a\":1}");
    assert!(first.inject && first.injected);
    let second = localization_step(first.injected, "{\"a\":1}");
    assert!(!second.inject && second.injected);
    let empty = localization_step(false, "");
    assert!(!empty.inject && empty.injected);
}

#[test]
fn font_replacement() {
    // No custom font, or the label's font unreadable: nothing happens.
    let s = font_step(None, Some(5), 0);
    assert_eq!((s.backup, s.replace), (0, false));
    let s = font_step(Some(9), None, 0);
    assert_eq!((s.backup, s.replace), (0, false));
    // Already the custom font.
    let s = font_step(Some(9), Some(9), 0);
    assert_eq!((s.backup, s.replace), (0, false));
    // First label captures the default font and is switched.
    let s = font_step(Some(9), Some(5), 0);
    assert_eq!((s.backup, s.replace), (5, true));
    // Later labels: the default font is switched, others are left alone.
    let s = font_step(Some(9), Some(5), 5);
    assert_eq!((s.backup, s.replace), (5, true));
    let s = font_step(Some(9), Some(6), 5);
    assert_eq!((s.backup, s.replace), (5, false));
}

#[test]
fn dictionary_counts() {
    assert_eq!(dict_entry_count(0), None);
    assert_eq!(dict_entry_count(-3), None);
    assert_eq!(dict_entry_count(1), Some(1));
    assert_eq!(dict_entry_count(100), Some(100));
    assert_eq!(dict_entry_count(101), None);
}

fn pairs(p: &[(&str, &str)]) -> Vec<(String, String)> {
    p.iter().map(|(k, v)| (k.to_string(), v.to_string())).collect()
}

#[test]
fn key_entries() {
    let e = key_entry(&pairs(&[("id", "a1"), ("other", "x"), ("decryptKey", "k1")])).unwrap();
    assert_eq!((e.id.as_str(), e.decrypt_key.as_str()), ("a1", "k1"));
    let e = key_entry(&pairs(&[("id", "a1"), ("id", "a2")])).unwrap();
    assert_eq!((e.id.as_str(), e.decrypt_key.as_str()), ("a2", ""));
    assert!(key_entry(&pairs(&[("decryptKey", "k1")])).is_none());
    assert!(key_entry(&pairs(&[("id", "")])).is_none());
}
