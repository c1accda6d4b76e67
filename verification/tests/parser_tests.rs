use ffstudio::parser::parse_env_map;
use std::collections::HashMap;

fn as_map(block: &str) -> HashMap<String, String> {
    parse_env_map(block)
        .into_iter()
        .map(|e| (e.key, e.value))
        .collect()
}

#[test]
fn simple_bindings_are_parsed() {
    let m = as_map("A=1\nB=two");
    assert_eq!(m.len(), 2);
    assert_eq!(m["A"], "1");
    assert_eq!(m["B"], "two");
}

#[test]
fn blank_lines_are_ignored() {
    let m = as_map("\n  \nA=1\n\t\n");
    assert_eq!(m.len(), 1);
    assert_eq!(m["A"], "1");
}

#[test]
fn lines_without_equals_are_ignored() {
    let m = as_map("no binding here\nA=1");
    assert_eq!(m.len(), 1);
    assert_eq!(m["A"], "1");
}

#[test]
fn later_duplicates_overwrite_earlier_ones() {
    let m = as_map("A=first\nB=keep\nA=second");
    assert_eq!(m.len(), 2);
    assert_eq!(m["A"], "second");
    assert_eq!(m["B"], "keep");
}

#[test]
fn values_keep_further_equals_signs() {
    let m = as_map("FLAGS=-x=1 -y=2");
    assert_eq!(m["FLAGS"], "-x=1 -y=2");
}

#[test]
fn carriage_returns_do_not_reach_the_values() {
    let m = as_map("A=1\r\nB=2\r\n");
    assert_eq!(m["A"], "1");
    assert_eq!(m["B"], "2");
}

#[test]
fn an_empty_block_yields_no_bindings() {
    assert!(parse_env_map("").is_empty());
}

#[test]
fn keys_come_out_once_each() {
    let entries = parse_env_map("K=1\nK=2\nK=3");
    assert_eq!(entries.len(), 1);
    assert_eq!(entries[0].key, "K");
    assert_eq!(entries[0].value, "3");
}
