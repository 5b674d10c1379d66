use supersigil_lsp::code_actions::duplicate_id::frontmatter_id_quote_ok;
use supersigil_lsp::code_actions::missing_attribute::sequential_id_room;
use supersigil_lsp::code_actions::{file_relative_key, ActionRequestContext, ParsedDocument};
use supersigil_lsp::code_lens::Component;
use supersigil_lsp::completion::cursor_ok_exec;
use supersigil_lsp::diagnostics::{Finding, RuleName};
use supersigil_lsp::document_symbols::{outline_positions_ok, OutlineComponent};
use supersigil_lsp::hover::{
    component_name_at_position_checked, component_name_lookup_ok, hover_lookup_ok_exec,
    hover_target_checked, HoverTarget,
};
use supersigil_lsp::position::SourcePosition;
use supersigil_lsp::references::{find_reference_target_checked, reference_lookup_ok_exec};
use supersigil_lsp::rename::{find_rename_target_checked, rename_lookup_ok_exec};
use supersigil_lsp::report::{
    finding_position_in_bounds, graph_error_positions_in_bounds, parse_error_positions_in_bounds,
    parse_warning_positions_in_bounds, DocPath, FileText, GraphError, ParseError, ParseWarning,
    SourceFiles,
};

fn sp(line: usize, column: usize) -> SourcePosition {
    SourcePosition { line, column }
}

#[test]
fn name_lookup_refuses_a_wide_character_before_the_word() {
    // `«` takes two bytes: the word would be sliced inside it.
    assert!(!component_name_lookup_ok("«Foo", 0, 2));
    assert!(component_name_lookup_ok("<Foo", 0, 2));
    assert!(component_name_lookup_ok("<Foo", 0, 9));
    assert!(component_name_lookup_ok("<Foo", 3, 0));
    // The character at the cursor's index is not alphanumeric.
    assert!(component_name_lookup_ok("« Foo", 0, 1));
    // Byte offset 2 lies just after `«`, the non-alphanumeric character
    // before the word, which is two bytes wide.
    assert!(!component_name_lookup_ok("« Foo", 0, 2));
}

#[test]
fn lookups_only_care_inside_fences() {
    let fenced = "```supersigil-xml\n«Foo\n```\n";
    assert!(!hover_lookup_ok_exec(fenced, 1, 2));
    assert!(!reference_lookup_ok_exec(fenced, 1, 2));
    assert!(!rename_lookup_ok_exec(fenced, 1, 2));
    let plain = "«Foo\n";
    assert!(hover_lookup_ok_exec(plain, 0, 2));
    assert!(reference_lookup_ok_exec(plain, 0, 2));
    assert!(rename_lookup_ok_exec(plain, 0, 2));
}

#[test]
fn cursor_must_not_split_a_character() {
    assert!(!cursor_ok_exec("é", 0, 1));
    assert!(cursor_ok_exec("é", 0, 2));
    assert!(cursor_ok_exec("é", 0, 7));
    assert!(cursor_ok_exec("é", 4, 1));
}

#[test]
fn frontmatter_quote_alone_cannot_be_unquoted() {
    assert!(!frontmatter_id_quote_ok("---\nid: \"\n---\n", "x"));
    assert!(frontmatter_id_quote_ok("---\nid: \"x\"\n---\n", "x"));
    assert!(frontmatter_id_quote_ok("# no frontmatter\n", "x"));
}

#[test]
fn sequential_id_room_runs_out_at_the_largest_number() {
    let comp = |id: &str| Component { name: "Task".into(), id: Some(id.into()), refs: None, line: 1, children: vec![] };
    let full = ParsedDocument { doc_id: "d".into(), components: vec![comp(&format!("task-{}", usize::MAX))] };
    let roomy = ParsedDocument { doc_id: "d".into(), components: vec![comp("task-7")] };
    let ctx = |doc| ActionRequestContext { file_content: "", current_doc: Some(doc), document_ids: &[], component_defs: &[] };
    assert!(!sequential_id_room("Task", &ctx(&full)));
    assert!(sequential_id_room("Task", &ctx(&roomy)));
    assert!(sequential_id_room("Criterion", &ctx(&full)));
}

#[test]
fn outline_positions_must_name_lines_of_the_text() {
    let leaf = |line| OutlineComponent { name: "Task".into(), id: None, position: sp(line, 1), end_position: sp(line, 1), children: vec![] };
    let content = "a\nb\n";
    assert!(outline_positions_ok(&[leaf(1), leaf(2)], content));
    let nested = OutlineComponent { name: "Tasks".into(), id: None, position: sp(1, 1), end_position: sp(2, 1), children: vec![leaf(9)] };
    assert!(!outline_positions_ok(&[nested], content));
}

#[test]
fn report_positions_must_lie_in_the_text() {
    let err = |line| ParseError::XmlSyntaxError { path: "/p.md".into(), line, column: 1, message: "m".into() };
    assert!(parse_error_positions_in_bounds(&err(2), Some("a\nb\n"), None));
    assert!(!parse_error_positions_in_bounds(&err(9), Some("a\nb\n"), None));
    assert!(parse_error_positions_in_bounds(&err(9), None, None));

    let warn = ParseWarning::OrphanCodeRef { path: "/p.md".into(), target: "t".into(), content_offset: 1 };
    assert!(!parse_warning_positions_in_bounds(&warn, Some("é"), None));
    assert!(parse_warning_positions_in_bounds(&warn, Some("ab"), None));

    let sf = SourceFiles {
        doc_paths: vec![DocPath { doc_id: "d".into(), path: "/d.md".into() }],
        texts: vec![FileText { path: "/d.md".into(), text: "one line\n".into() }],
    };
    let broken = |line| GraphError::BrokenRef { doc_id: "d".into(), ref_str: "x".into(), reason: "r".into(), position: sp(line, 1) };
    assert!(graph_error_positions_in_bounds(&broken(1), &sf));
    assert!(!graph_error_positions_in_bounds(&broken(5), &sf));
    let dup = GraphError::DuplicateComponentId { doc_id: "d".into(), component_id: "c".into(), positions: vec![sp(1, 1), sp(3, 1)] };
    assert!(!graph_error_positions_in_bounds(&dup, &sf));

    let finding = |line| Finding::new(RuleName::Other("StaleTrackedFiles".into()), Some("d".into()), "m".into(), Some(sp(line, 1)));
    assert!(finding_position_in_bounds(&finding(1), &sf));
    assert!(!finding_position_in_bounds(&finding(4), &sf));
}

#[test]
fn checked_lookups_refuse_what_would_split_a_character() {
    let fenced = "```supersigil-xml\n«Foo\n<Task id=\"t-1\" />\n```\n";
    assert_eq!(component_name_at_position_checked(fenced, 1, 2), None);
    assert_eq!(component_name_at_position_checked(fenced, 2, 2), Some(Some("Task".to_string())));
    assert!(hover_target_checked(fenced, 1, 2).is_none());
    assert!(matches!(hover_target_checked(fenced, 2, 2), Some(Some(HoverTarget::Component(n))) if n == "Task"));
    assert_eq!(hover_target_checked("plain «Foo", 0, 8).map(|t| t.is_none()), Some(true));
    assert!(find_reference_target_checked(fenced, 1, 2, "doc").is_none());
    assert!(find_reference_target_checked(fenced, 0, 0, "doc").is_some());
    assert!(find_rename_target_checked(fenced, 1, 2, "doc").is_none());
    assert!(find_rename_target_checked(fenced, 2, 12, "doc").is_some());
}

#[test]
fn file_relative_key_is_relative_under_the_root() {
    assert_eq!(
        file_relative_key("file:///tmp/project/specs/a.md", "/tmp/project"),
        Some("specs/a.md".to_string())
    );
    assert_eq!(file_relative_key("file:///elsewhere/b.md", "/tmp/project"), Some("/elsewhere/b.md".to_string()));
    assert_eq!(file_relative_key("https://example.com/a.md", "/tmp/project"), None);
    assert_eq!(file_relative_key("file:///tmp/project/a%20b.md", "/tmp/project"), Some("a b.md".to_string()));
}
