use supersigil_lsp::explorer::merge_explorer_changes;

fn strings(items: &[&str]) -> Vec<String> {
    items.iter().map(|s| s.to_string()).collect()
}

#[test]
fn explorer_changes_without_detail_changes_stand_as_they_are() {
    let (changed, moved) = merge_explorer_changes(strings(&["b", "a"]), &[], &[], false);
    assert_eq!(changed, strings(&["b", "a"]));
    assert!(moved);
}

#[test]
fn explorer_detail_changes_join_sorted_without_removed() {
    let (changed, moved) = merge_explorer_changes(
        strings(&["c", "a"]),
        &strings(&["gone"]),
        &strings(&["b", "gone", "a", "d"]),
        false,
    );
    assert_eq!(changed, strings(&["a", "b", "c", "d"]));
    assert!(moved);
}

#[test]
fn explorer_revision_stays_when_nothing_changed() {
    let (changed, moved) = merge_explorer_changes(Vec::new(), &[], &[], false);
    assert!(changed.is_empty());
    assert!(!moved);
}

#[test]
fn explorer_revision_moves_for_first_snapshot_and_removals() {
    assert!(merge_explorer_changes(Vec::new(), &[], &[], true).1);
    let (changed, moved) = merge_explorer_changes(Vec::new(), &strings(&["x"]), &strings(&["x"]), false);
    assert!(changed.is_empty());
    assert!(moved);
}
