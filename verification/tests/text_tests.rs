use cleat_fgo::text::{lookup_key, normalize_width, strip_fgo_markup};

#[test]
fn folds_fullwidth_ascii() {
    assert_eq!(normalize_width("Ｘ"), "X");
    assert_eq!(normalize_width("ＡＢＣ＆＋"), "ABC&+");
    assert_eq!(normalize_width("！"), "!");
    assert_eq!(normalize_width("～"), "~");
}

#[test]
fn folds_ideographic_space() {
    assert_eq!(normalize_width("騎士\u{3000}王"), "騎士 王");
}

#[test]
fn keeps_other_characters() {
    assert_eq!(normalize_width("アルトリア・ペンドラゴン"), "アルトリア・ペンドラゴン");
    // Just outside the fullwidth range.
    assert_eq!(normalize_width("\u{FF00}\u{FF5F}"), "\u{FF00}\u{FF5F}");
    assert_eq!(normalize_width(""), "");
}

#[test]
fn folding_is_idempotent() {
    let once = normalize_width("Ｘ　ａｌｔｅｒ");
    assert_eq!(once, "X alter");
    assert_eq!(normalize_width(&once), once);
}

#[test]
fn strips_tags() {
    assert_eq!(strip_fgo_markup("[g][o]▲[/o][/g]"), "▲");
    assert_eq!(strip_fgo_markup("a[b]c[/b]d"), "acd");
}

#[test]
fn keeps_non_tags() {
    assert_eq!(strip_fgo_markup("[A]"), "[A]");
    assert_eq!(strip_fgo_markup("[ab]"), "[ab]");
    assert_eq!(strip_fgo_markup("[/"), "[/");
    assert_eq!(strip_fgo_markup("[x"), "[x");
    assert_eq!(strip_fgo_markup("[あ]"), "[あ]");
    assert_eq!(strip_fgo_markup("plain text"), "plain text");
}

#[test]
fn strips_from_the_left() {
    // The first `[` is not a tag; `[a]` is, leaving `[a]` behind.
    assert_eq!(strip_fgo_markup("[[a]a]"), "[a]");
}

#[test]
fn lookup_key_folds_then_strips() {
    assert_eq!(lookup_key("[g]Ｘ[/g]"), "X");
    assert_eq!(lookup_key("Ｓａｂｅｒ"), "Saber");
}
