use cleat_fgo::newest::{parse_numeric, pick_newest, script_number};

fn chars(s: &str) -> Vec<char> {
    s.chars().collect()
}

#[test]
fn parses_purely_numeric_text() {
    assert_eq!(parse_numeric(&chars("0")), Some(0));
    assert_eq!(parse_numeric(&chars("007")), Some(7));
    assert_eq!(parse_numeric(&chars("18446744073709551615")), Some(u64::MAX));
    for s in ["18446744073709551616", "", "+5", "+", "-1", "1a", " 1", "1 "] {
        assert_eq!(parse_numeric(&chars(s)), None, "{s}");
    }
}

#[test]
fn bundle_file_numbers() {
    assert_eq!(script_number("20260509.script"), Some(20260509));
    assert_eq!(script_number("+7.script"), None);
    assert_eq!(script_number("abc.script"), None);
    assert_eq!(script_number("1.txt"), None);
    assert_eq!(script_number("1.script.bak"), None);
    assert_eq!(script_number(".script"), None);
    assert_eq!(script_number("script"), None);
    assert_eq!(script_number("1.2.script"), None);
    assert_eq!(script_number("99999999999999999999.script"), None);
}

#[test]
fn picks_the_largest_number() {
    let names: Vec<String> = ["svt_names.json", "20250101.script", "20260509.script", "3.script", "Font"]
        .iter()
        .map(|s| s.to_string())
        .collect();
    assert_eq!(pick_newest(&names), Some(2));
}

#[test]
fn first_of_equal_numbers_wins() {
    let names: Vec<String> = ["7.script", "007.script", "07.script"].iter().map(|s| s.to_string()).collect();
    assert_eq!(pick_newest(&names), Some(0));
}

#[test]
fn signed_stems_do_not_count() {
    let names: Vec<String> = ["5.script", "+7.script"].iter().map(|s| s.to_string()).collect();
    assert_eq!(pick_newest(&names), Some(0));
}

#[test]
fn no_bundle_file() {
    let names: Vec<String> = ["a.json", "b.script"].iter().map(|s| s.to_string()).collect();
    assert_eq!(pick_newest(&names), None);
    assert_eq!(pick_newest(&Vec::new()), None);
}
