use ffstudio::text::{str_contains, to_lower};

#[test]
fn substring_search_finds_inner_occurrences() {
    assert!(str_contains("abcdef", "cde"));
    assert!(str_contains("abcdef", "abcdef"));
    assert!(str_contains("abcdef", ""));
    assert!(str_contains("aaab", "aab"));
}

#[test]
fn substring_search_rejects_absent_needles() {
    assert!(!str_contains("abcdef", "ce"));
    assert!(!str_contains("short", "much longer needle"));
    assert!(!str_contains("", "a"));
}

#[test]
fn lowercasing_touches_only_ascii_uppercase() {
    assert_eq!(to_lower("No Such FILE"), "no such file");
    assert_eq!(to_lower("already lower 123"), "already lower 123");
    assert_eq!(to_lower("MIXED_case-42"), "mixed_case-42");
}
