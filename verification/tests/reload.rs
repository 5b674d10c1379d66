use std::collections::HashMap;

use supersigil_lsp::reload::{merge_watch_reload, place_parse};

fn table(entries: Vec<(String, u32)>) -> HashMap<String, u32> {
    entries.into_iter().collect()
}

#[test]
fn complete_buffers_stand_over_the_files_on_disk() {
    let disk = vec![("a.md".to_string(), 1), ("b.md".to_string(), 2)];
    let buffers = vec![("b.md".to_string(), 20, true), ("c.md".to_string(), 30, true)];
    let (index, partial) = merge_watch_reload(disk, buffers, &[]);
    let expected: HashMap<String, u32> =
        [("a.md".to_string(), 1), ("b.md".to_string(), 20), ("c.md".to_string(), 30)].into_iter().collect();
    assert_eq!(index.len(), 3);
    assert_eq!(table(index), expected);
    assert!(partial.is_empty());
}

#[test]
fn partial_buffers_go_to_their_own_table() {
    let disk = vec![("a.md".to_string(), 1)];
    let buffers = vec![("a.md".to_string(), 10, false)];
    let (index, partial) = merge_watch_reload(disk, buffers, &[]);
    assert_eq!(index, vec![("a.md".to_string(), 1)]);
    assert_eq!(partial, vec![("a.md".to_string(), 10)]);
}

#[test]
fn buffers_of_deleted_files_are_dropped() {
    let disk = vec![("new.md".to_string(), 1)];
    let buffers = vec![("old.md".to_string(), 5, true), ("gone.md".to_string(), 6, false)];
    let deleted = vec!["old.md".to_string(), "gone.md".to_string()];
    let (index, partial) = merge_watch_reload(disk, buffers, &deleted);
    assert_eq!(index, vec![("new.md".to_string(), 1)]);
    assert!(partial.is_empty());
}

#[test]
fn later_entries_of_one_key_win() {
    let disk = vec![("a.md".to_string(), 1), ("a.md".to_string(), 2)];
    let buffers = vec![("b.md".to_string(), 3, true), ("b.md".to_string(), 4, true)];
    let (index, _) = merge_watch_reload(disk, buffers, &[]);
    assert_eq!(table(index), table(vec![("a.md".to_string(), 2), ("b.md".to_string(), 4)]));
}

#[test]
fn complete_parse_moves_into_the_index() {
    let (index, partial) =
        place_parse(vec![("b.md".to_string(), 2)], vec![("a.md".to_string(), 1)], "a.md".to_string(), Some((10, true)));
    assert_eq!(table(index), table(vec![("b.md".to_string(), 2), ("a.md".to_string(), 10)]));
    assert!(partial.is_empty());
}

#[test]
fn partial_parse_leaves_the_index() {
    let (index, partial) =
        place_parse(vec![("a.md".to_string(), 1)], Vec::new(), "a.md".to_string(), Some((5, false)));
    assert!(index.is_empty());
    assert_eq!(partial, vec![("a.md".to_string(), 5)]);
}

#[test]
fn no_parse_leaves_both_tables() {
    let (index, partial) = place_parse(
        vec![("a.md".to_string(), 1), ("b.md".to_string(), 2)],
        vec![("a.md".to_string(), 3)],
        "a.md".to_string(),
        None,
    );
    assert_eq!(index, vec![("b.md".to_string(), 2)]);
    assert!(partial.is_empty());
}
