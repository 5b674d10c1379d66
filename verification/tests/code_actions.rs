use supersigil_lsp::code_actions::{find_unique_suffix, parse_doc_ref, parse_sequential_id};

// -- parse_doc_ref --

#[test]
fn parse_doc_ref_valid() {
    assert_eq!(parse_doc_ref("auth/design"), Some(("auth", "design")));
    assert_eq!(parse_doc_ref("billing/req"), Some(("billing", "req")));
}

#[test]
fn parse_doc_ref_invalid() {
    assert_eq!(parse_doc_ref("nofeature"), None);
    assert_eq!(parse_doc_ref("a/b/c"), None);
    assert_eq!(parse_doc_ref("/empty"), None);
    assert_eq!(parse_doc_ref("empty/"), None);
}

// -- parse_sequential_id --

#[test]
fn parse_simple_id() {
    let (prefix, num) = parse_sequential_id("req-1").unwrap();
    assert_eq!(prefix, "req");
    assert_eq!(num, 1);
}

#[test]
fn parse_multi_part_prefix() {
    let (prefix, num) = parse_sequential_id("req-1-3").unwrap();
    assert_eq!(prefix, "req-1");
    assert_eq!(num, 3);
}

#[test]
fn parse_rejects_no_dash() {
    assert!(parse_sequential_id("req").is_none());
}

#[test]
fn parse_rejects_non_numeric_suffix() {
    assert!(parse_sequential_id("req-abc").is_none());
}

#[test]
fn parse_rejects_leading_zeros() {
    assert!(parse_sequential_id("req-01").is_none());
}

#[test]
fn parse_accepts_zero() {
    let (prefix, num) = parse_sequential_id("task-0").unwrap();
    assert_eq!(prefix, "task");
    assert_eq!(num, 0);
}

// -- find_unique_suffix --

#[test]
fn unique_suffix_skips_existing() {
    let existing: std::collections::HashSet<&str> = ["task-1", "task-1-2", "task-1-3"].into_iter().collect();
    let existing: Vec<&str> = existing.into_iter().collect();
    assert_eq!(find_unique_suffix("task-1", &existing), "task-1-4");
}

#[test]
fn unique_suffix_picks_2_when_free() {
    let existing: std::collections::HashSet<&str> = ["task-1"].into_iter().collect();
    let existing: Vec<&str> = existing.into_iter().collect();
    assert_eq!(find_unique_suffix("task-1", &existing), "task-1-2");
}

#[test]
fn unique_suffix_counts_past_nine() {
    let existing: Vec<String> = (2..=11).map(|n| format!("req-{n}")).collect();
    let existing: Vec<&str> = existing.iter().map(String::as_str).collect();
    assert_eq!(find_unique_suffix("req", &existing), "req-12");
}

#[test]
fn formatted_sequential_ids_read_back() {
    for (prefix, n) in [("req", 7usize), ("auth-req", 12), ("é-x", 0), ("", 1040), ("task", usize::MAX)] {
        let id = format!("{prefix}-{n}");
        assert_eq!(parse_sequential_id(&id), Some((prefix.to_string(), n)));
    }
}
