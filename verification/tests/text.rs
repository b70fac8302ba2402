use logforge::text::{chars_of, contains, eq_ignore_ascii_case, prefix, same_text};

#[test]
fn case_folding_compares_ascii_letters_only() {
    assert!(eq_ignore_ascii_case("ERROR", "error"));
    assert!(eq_ignore_ascii_case("Warn", "wARN"));
    assert!(!eq_ignore_ascii_case("INFO", "INF"));
    assert!(!eq_ignore_ascii_case("É", "é"));
    assert!(eq_ignore_ascii_case("", ""));
    assert!(!eq_ignore_ascii_case("[", "{"));
}

#[test]
fn substring_search() {
    assert!(contains("upstream timeout", "timeout"));
    assert!(contains("upstream timeout", "upstream timeout"));
    assert!(contains("abc", ""));
    assert!(contains("", ""));
    assert!(!contains("", "a"));
    assert!(!contains("time", "timeout"));
    assert!(contains("aaab", "aab"));
}

#[test]
fn prefix_by_characters() {
    assert_eq!(prefix("héllo", 2), "hé");
    assert_eq!(prefix("abc", 10), "abc");
    assert_eq!(prefix("abc", 0), "");
}

#[test]
fn chars_and_equality() {
    assert_eq!(chars_of("añb"), vec!['a', 'ñ', 'b']);
    assert!(same_text("msg", "msg"));
    assert!(!same_text("msg", "msgs"));
}
