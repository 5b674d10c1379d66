use supersigil_lsp::document_symbols::{document_symbols, symbol_kind, OutlineComponent, SymbolKind};
use supersigil_lsp::position::{Position, SourcePosition};

fn pos(line: usize, column: usize) -> SourcePosition {
    SourcePosition { line, column }
}

fn comp(name: &str, id: Option<&str>, start: SourcePosition, end: SourcePosition, children: Vec<OutlineComponent>) -> OutlineComponent {
    OutlineComponent { name: name.into(), id: id.map(String::from), position: start, end_position: end, children }
}

#[test]
fn symbols_nest_and_take_ids_as_names() {
    let content = "---\nid: x\n---\n<AcceptanceCriteria>\n  <Criterion id=\"é-1\">\n  </Criterion>\n</AcceptanceCriteria>\n";
    let components = vec![comp(
        "AcceptanceCriteria",
        None,
        pos(4, 1),
        pos(7, 22),
        vec![comp("Criterion", Some("é-1"), pos(5, 3), pos(6, 15), vec![])],
    )];
    let symbols = document_symbols(&components, content);
    assert_eq!(symbols.len(), 1);
    let ac = &symbols[0];
    assert_eq!(ac.name, "AcceptanceCriteria");
    assert_eq!(ac.detail, None);
    assert_eq!(ac.kind, SymbolKind::Object);
    assert_eq!(ac.range.start, Position { line: 3, character: 0 });
    assert_eq!(ac.range.end, Position { line: 6, character: 21 });
    assert_eq!(ac.selection_range.start, ac.selection_range.end);
    let kids = ac.children.as_ref().unwrap();
    assert_eq!(kids.len(), 1);
    assert_eq!(kids[0].name, "é-1");
    assert_eq!(kids[0].detail.as_deref(), Some("Criterion"));
    assert_eq!(kids[0].kind, SymbolKind::Property);
    assert!(kids[0].children.is_none());
}

#[test]
fn symbol_kinds() {
    assert_eq!(symbol_kind("Criterion"), SymbolKind::Property);
    assert_eq!(symbol_kind("Task"), SymbolKind::Event);
    assert_eq!(symbol_kind("Decision"), SymbolKind::Interface);
    assert_eq!(symbol_kind("Alternative"), SymbolKind::EnumMember);
    for name in ["VerifiedBy", "TrackedFiles", "References", "Implements", "DependsOn"] {
        assert_eq!(symbol_kind(name), SymbolKind::Struct);
    }
    assert_eq!(symbol_kind("Example"), SymbolKind::Object);
}

#[test]
fn empty_document_has_no_symbols() {
    assert!(document_symbols(&[], "").is_empty());
}

fn test_content(num_lines: usize) -> String {
    (0..num_lines).map(|_| "x".repeat(80)).collect::<Vec<_>>().join("\n")
}

#[test]
fn empty_document_returns_empty_symbols() {
    let content = "---\nsupersigil:\n  id: test/req\n---\n";
    let symbols = document_symbols(&[], content);
    assert!(symbols.is_empty());
}

#[test]
fn single_criterion_becomes_symbol() {
    let content = test_content(5);
    let symbols = document_symbols(&[comp("Criterion", Some("req-1-1"), pos(1, 1), pos(1, 41), vec![])], &content);
    assert_eq!(symbols.len(), 1);
    assert_eq!(symbols[0].name, "req-1-1");
    assert_eq!(symbols[0].kind, SymbolKind::Property);
}

#[test]
fn symbol_name_is_id_with_component_name_as_detail() {
    let content = test_content(5);
    let symbols = document_symbols(&[comp("Task", Some("task-1"), pos(1, 1), pos(1, 31), vec![])], &content);
    assert_eq!(symbols[0].name, "task-1");
    assert_eq!(symbols[0].detail.as_deref(), Some("Task"));
}

#[test]
fn symbol_name_is_component_name_when_no_id() {
    let content = test_content(5);
    let symbols = document_symbols(&[comp("AcceptanceCriteria", None, pos(1, 1), pos(1, 31), vec![])], &content);
    assert_eq!(symbols[0].name, "AcceptanceCriteria");
    assert!(symbols[0].detail.is_none());
}

#[test]
fn kind_mapping() {
    let cases = vec![
        ("Criterion", SymbolKind::Property),
        ("Task", SymbolKind::Event),
        ("Decision", SymbolKind::Interface),
        ("Alternative", SymbolKind::EnumMember),
        ("VerifiedBy", SymbolKind::Struct),
        ("TrackedFiles", SymbolKind::Struct),
        ("References", SymbolKind::Struct),
        ("Implements", SymbolKind::Struct),
        ("DependsOn", SymbolKind::Struct),
        ("AcceptanceCriteria", SymbolKind::Object),
        ("Rationale", SymbolKind::Object),
        ("Example", SymbolKind::Object),
    ];
    let content = test_content(5);
    for (name, expected_kind) in cases {
        let symbols = document_symbols(&[comp(name, None, pos(1, 1), pos(1, 31), vec![])], &content);
        assert_eq!(symbols[0].kind, expected_kind, "expected {expected_kind:?} for {name}");
    }
}

#[test]
fn nested_components_produce_nested_symbols() {
    let content = test_content(10);
    let child = comp("Criterion", Some("req-1-1"), pos(2, 1), pos(2, 81), vec![]);
    let parent = comp("AcceptanceCriteria", None, pos(1, 1), pos(3, 81), vec![child]);
    let symbols = document_symbols(&[parent], &content);
    assert_eq!(symbols.len(), 1);
    assert_eq!(symbols[0].name, "AcceptanceCriteria");
    let children = symbols[0].children.as_ref().unwrap();
    assert_eq!(children.len(), 1);
    assert_eq!(children[0].name, "req-1-1");
    assert_eq!(children[0].kind, SymbolKind::Property);
}

#[test]
fn range_spans_full_component() {
    let content = test_content(10);
    let symbols = document_symbols(&[comp("Criterion", Some("c1"), pos(2, 1), pos(3, 81), vec![])], &content);
    assert_eq!(symbols[0].range.start.line, 1);
    assert_eq!(symbols[0].range.end.line, 2);
}

#[test]
fn returns_symbols_for_all_parsed_components() {
    let content = test_content(10);
    let symbols = document_symbols(
        &[
            comp("Criterion", Some("c1"), pos(1, 1), pos(1, 31), vec![]),
            comp("Task", Some("t1"), pos(2, 1), pos(2, 40), vec![]),
        ],
        &content,
    );
    assert_eq!(symbols.len(), 2);
}
