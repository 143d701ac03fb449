use mutao::text::{decimal_text, eq_ignore_ascii_case, is_blank, push_json_string, starts_with, str_eq, uuid_text};
use uuid::Uuid;

#[test]
fn uuid_text_matches_hyphenated_form() {
    for _ in 0..20 {
        let id = Uuid::new_v4();
        assert_eq!(uuid_text(id.as_u128()), id.to_string());
    }
    assert_eq!(uuid_text(0), "00000000-0000-0000-0000-000000000000");
    assert_eq!(uuid_text(u128::MAX), "ffffffff-ffff-ffff-ffff-ffffffffffff");
}

#[test]
fn json_strings_match_serde() {
    let samples = ["", "plain", "引号\"与\\反斜杠", "line\nbreak\ttab\r", "\u{0}\u{1f}\u{7f}\u{8}\u{c}", "/slash"];
    for s in samples {
        let mut out = String::new();
        push_json_string(&mut out, s);
        assert_eq!(out, serde_json::to_string(s).unwrap());
    }
}

#[test]
fn decimal_text_matches_display() {
    for n in [0u64, 7, 10, 99, 1000, 123456789, u64::MAX] {
        assert_eq!(decimal_text(n), n.to_string());
    }
}

#[test]
fn blank_matches_trim() {
    for s in ["", " ", "\t\n\r", "\u{3000}\u{a0}", " a ", "x", "\u{200b}"] {
        assert_eq!(is_blank(s), s.trim().is_empty(), "{s:?}");
    }
}

#[test]
fn string_comparisons() {
    assert!(str_eq("键盘", "键盘"));
    assert!(!str_eq("键盘", "键"));
    assert!(starts_with("image/png", "image/"));
    assert!(!starts_with("imag", "image/"));
    assert!(eq_ignore_ascii_case("PRODUCTION", "production"));
    assert!(!eq_ignore_ascii_case("Ärger", "ärger"));
    assert_eq!(eq_ignore_ascii_case("Ärger", "ärger"), "Ärger".eq_ignore_ascii_case("ärger"));
}
