use procmon::text::{str_contains, str_lex_le, to_lower, u64_to_string};
use procmon::record::ProcessStatus;

#[test]
fn decimal_rendering_is_exact() {
    assert_eq!(u64_to_string(0), "0");
    assert_eq!(u64_to_string(7), "7");
    assert_eq!(u64_to_string(1234), "1234");
    assert_eq!(u64_to_string(u64::MAX), "18446744073709551615");
}

#[test]
fn lower_casing_touches_only_ascii_uppercase() {
    assert_eq!(to_lower("BaSh-42"), "bash-42");
    assert_eq!(to_lower(""), "");
    assert_eq!(to_lower("äB"), "äb");
}

#[test]
fn containment_is_plain_substring() {
    assert!(str_contains("process monitor", "ss mo"));
    assert!(str_contains("abc", ""));
    assert!(str_contains("abc", "abc"));
    assert!(!str_contains("abc", "abcd"));
    assert!(!str_contains("", "a"));
}

#[test]
fn lexicographic_order_on_timestamps() {
    assert!(str_lex_le("09:00:00", "10:00:00"));
    assert!(!str_lex_le("10:00:00", "09:59:59"));
    assert!(str_lex_le("10:00", "10:00"));
    assert!(str_lex_le("10:00", "10:00:01"));
}

#[test]
fn status_labels_render() {
    assert_eq!(ProcessStatus::Running.label(), "Running");
    assert_eq!(ProcessStatus::Zombie.label(), "Zombie");
    assert_eq!(ProcessStatus::Other.label(), "Other");
}
