use rusticsoup::text::{join_strings, remove_all, str_starts_with, trim_str};

#[test]
fn trim_removes_both_ends() {
    assert_eq!(trim_str("  a b\t\n"), "a b");
}

#[test]
fn trim_of_whitespace_only_is_empty() {
    assert_eq!(trim_str(" \t\r\n\u{a0}"), "");
    assert_eq!(trim_str(""), "");
}

#[test]
fn join_inserts_separator_between_elements() {
    let parts = vec!["a".to_string(), "b".to_string(), "c".to_string()];
    assert_eq!(join_strings(&parts, " "), "a b c");
    assert_eq!(join_strings(&parts, ""), "abc");
}

#[test]
fn join_of_nothing_is_empty() {
    let parts: Vec<String> = Vec::new();
    assert_eq!(join_strings(&parts, " "), "");
}

#[test]
fn remove_all_removes_every_occurrence() {
    assert_eq!(remove_all("xAyAz", "A"), "xyz");
    assert_eq!(remove_all("no match", "Z"), "no match");
}

#[test]
fn remove_all_scans_left_to_right_without_overlap() {
    assert_eq!(remove_all("aaa", "aa"), "a");
}

#[test]
fn starts_with_checks_the_prefix() {
    assert!(str_starts_with("/url?q=abc", "/url?q="));
    assert!(str_starts_with("abc", "abc"));
    assert!(!str_starts_with("ab", "abc"));
    assert!(!str_starts_with("xabc", "abc"));
}
