use supersigil_lsp::code_actions::duplicate_id::{find_component_id, find_frontmatter_id};
use supersigil_lsp::code_actions::{ActionRequestContext, CodeAction, DuplicateIdProvider};
use supersigil_lsp::diagnostics::{
    ActionContext, DiagnosticData, DiagnosticSource, GraphDiagnosticKind,
};
use supersigil_lsp::position::{Position, Range};
use supersigil_lsp::report::Diagnostic;

fn pos(line: u32, character: u32) -> Position {
    Position { line, character }
}

fn diagnostic_at(line: u32, start_col: u32, end_col: u32, message: &str) -> Diagnostic {
    Diagnostic {
        range: Range { start: pos(line, start_col), end: pos(line, end_col) },
        severity: None,
        source: None,
        message: message.into(),
        data: None,
    }
}

fn make_document_id_diagnostic(message: &str) -> Diagnostic {
    diagnostic_at(0, 0, 0, message)
}

fn make_component_id_diagnostic(line: u32, start_col: u32, end_col: u32) -> Diagnostic {
    diagnostic_at(line, start_col, end_col, "duplicate component ID")
}

fn make_document_id_data(id: &str, other_path: &str) -> DiagnosticData {
    DiagnosticData {
        source: DiagnosticSource::Graph(GraphDiagnosticKind::DuplicateDocumentId),
        doc_id: Some(id.to_string()),
        context: ActionContext::DuplicateId { id: id.to_string(), other_path: other_path.to_string() },
    }
}

fn make_component_id_data(id: &str) -> DiagnosticData {
    DiagnosticData {
        source: DiagnosticSource::Graph(GraphDiagnosticKind::DuplicateComponentId),
        doc_id: None,
        context: ActionContext::DuplicateId { id: id.to_string(), other_path: String::new() },
    }
}

fn ctx<'a>(content: &'a str, ids: &'a [String]) -> ActionRequestContext<'a> {
    ActionRequestContext { file_content: content, current_doc: None, document_ids: ids, component_defs: &[] }
}

/// Each action as its title and its edits as `@l:c-l:c replace `text``.
fn format_actions(actions: &[CodeAction]) -> Vec<String> {
    let mut out = Vec::new();
    for a in actions {
        out.push(a.title.clone());
        for e in &a.edits {
            out.push(format!(
                "@{}:{}-{}:{} replace `{}`",
                e.range.start.line, e.range.start.character, e.range.end.line, e.range.end.character, e.new_text
            ));
        }
    }
    out
}

// -- handles() --

#[test]
fn handles_duplicate_document_id() {
    assert!(DuplicateIdProvider.handles(&make_document_id_data("my-doc", "/other.md")));
}

#[test]
fn handles_duplicate_component_id() {
    assert!(DuplicateIdProvider.handles(&make_component_id_data("task-1")));
}

#[test]
fn rejects_non_duplicate_id_diagnostic() {
    let data = DiagnosticData {
        source: DiagnosticSource::Graph(GraphDiagnosticKind::BrokenRef),
        doc_id: None,
        context: ActionContext::NoContext,
    };
    assert!(!DuplicateIdProvider.handles(&data));
}

// -- actions() for document IDs --

#[test]
fn rename_duplicate_document_id() {
    let content = "---\nid: my-doc\ntitle: Hello\n---\n# Content\n";
    let diag = make_document_id_diagnostic("duplicate document ID `my-doc`");
    let data = make_document_id_data("my-doc", "/other.md");
    let actions = DuplicateIdProvider.actions(&diag, &data, &ctx(content, &[]));
    assert_eq!(format_actions(&actions), vec!["Rename to 'my-doc-2'", "@1:4-1:10 replace `my-doc-2`"]);
}

#[test]
fn rename_duplicate_document_id_quoted() {
    let content = "---\nid: \"my-doc\"\ntitle: Hello\n---\n# Content\n";
    let diag = make_document_id_diagnostic("duplicate document ID `my-doc`");
    let data = make_document_id_data("my-doc", "/other.md");
    let actions = DuplicateIdProvider.actions(&diag, &data, &ctx(content, &[]));
    assert_eq!(format_actions(&actions), vec!["Rename to 'my-doc-2'", "@1:5-1:11 replace `my-doc-2`"]);
}

#[test]
fn rename_duplicate_document_id_skips_taken_document_ids() {
    let content = "---\nid: my-doc\n---\n";
    let ids = vec!["my-doc".to_string(), "my-doc-2".to_string(), "other".to_string()];
    let diag = make_document_id_diagnostic("duplicate document ID `my-doc`");
    let data = make_document_id_data("my-doc", "/other.md");
    let actions = DuplicateIdProvider.actions(&diag, &data, &ctx(content, &ids));
    assert_eq!(format_actions(&actions), vec!["Rename to 'my-doc-3'", "@1:4-1:10 replace `my-doc-3`"]);
}

// -- actions() for component IDs --

#[test]
fn rename_duplicate_component_id() {
    let content = "---\nid: doc\n---\n```supersigil-xml\n<Task id=\"task-1\" status=\"draft\" />\n```\n";
    let diag = make_component_id_diagnostic(4, 0, 5);
    let actions = DuplicateIdProvider.actions(&diag, &make_component_id_data("task-1"), &ctx(content, &[]));
    assert_eq!(format_actions(&actions), vec!["Rename to 'task-1-2'", "@4:10-4:16 replace `task-1-2`"]);
}

#[test]
fn rename_duplicate_component_id_nested() {
    let content = "---\nid: doc\n---\n```supersigil-xml\n<Task id=\"task-1\" status=\"draft\">\n  <Criterion id=\"crit-1\" />\n  <Criterion id=\"crit-1\" />\n</Task>\n```\n";
    let diag = make_component_id_diagnostic(6, 2, 12);
    let actions = DuplicateIdProvider.actions(&diag, &make_component_id_data("crit-1"), &ctx(content, &[]));
    assert_eq!(format_actions(&actions), vec!["Rename to 'crit-1-2'", "@6:17-6:23 replace `crit-1-2`"]);
}

#[test]
fn duplicate_id_no_action_when_context_is_none() {
    let content = "---\nid: my-doc\n---\n";
    let diag = make_document_id_diagnostic("duplicate document ID `my-doc`");
    let data = DiagnosticData {
        source: DiagnosticSource::Graph(GraphDiagnosticKind::DuplicateDocumentId),
        doc_id: None,
        context: ActionContext::NoContext,
    };
    assert!(DuplicateIdProvider.actions(&diag, &data, &ctx(content, &[])).is_empty());
}

#[test]
fn no_action_when_id_not_found() {
    let content = "---\nid: other-doc\n---\n";
    let diag = make_document_id_diagnostic("duplicate document ID `my-doc`");
    let data = make_document_id_data("my-doc", "/other.md");
    assert!(DuplicateIdProvider.actions(&diag, &data, &ctx(content, &[])).is_empty());
}

#[test]
fn rename_component_id_skips_existing_suffix() {
    let content = "---\nid: doc\n---\n```supersigil-xml\n<Task id=\"task-1\" status=\"draft\" />\n<Task id=\"task-1\" status=\"draft\" />\n<Task id=\"task-1-2\" status=\"draft\" />\n```\n";
    let diag = make_component_id_diagnostic(5, 0, 5);
    let actions = DuplicateIdProvider.actions(&diag, &make_component_id_data("task-1"), &ctx(content, &[]));
    assert_eq!(format_actions(&actions), vec!["Rename to 'task-1-3'", "@5:10-5:16 replace `task-1-3`"]);
}

#[test]
fn component_ids_outside_fences_are_not_taken() {
    let content = "<Task id=\"task-1-2\" />\n```supersigil-xml\n<Task id=\"task-1\" />\n```\n";
    let diag = make_component_id_diagnostic(2, 0, 5);
    let actions = DuplicateIdProvider.actions(&diag, &make_component_id_data("task-1"), &ctx(content, &[]));
    assert_eq!(format_actions(&actions), vec!["Rename to 'task-1-2'", "@2:10-2:16 replace `task-1-2`"]);
}

// -- find_frontmatter_id() --

#[test]
fn find_frontmatter_id_unquoted() {
    let range = find_frontmatter_id("---\nid: my-doc\ntitle: Hello\n---\n", "my-doc").unwrap();
    assert_eq!(range.start, pos(1, 4));
    assert_eq!(range.end, pos(1, 10));
}

#[test]
fn find_frontmatter_id_double_quoted() {
    let range = find_frontmatter_id("---\nid: \"my-doc\"\ntitle: Hello\n---\n", "my-doc").unwrap();
    assert_eq!(range.start, pos(1, 5));
    assert_eq!(range.end, pos(1, 11));
}

#[test]
fn find_frontmatter_id_single_quoted() {
    let range = find_frontmatter_id("---\nid: 'my-doc'\ntitle: Hello\n---\n", "my-doc").unwrap();
    assert_eq!(range.start, pos(1, 5));
    assert_eq!(range.end, pos(1, 11));
}

#[test]
fn find_frontmatter_id_not_found() {
    assert!(find_frontmatter_id("---\nid: other\n---\n", "my-doc").is_none());
}

#[test]
fn find_frontmatter_id_no_frontmatter() {
    assert!(find_frontmatter_id("# Just a heading\nSome text\n", "my-doc").is_none());
}

#[test]
fn find_frontmatter_id_after_block_is_ignored() {
    assert!(find_frontmatter_id("---\ntitle: x\n---\nid: my-doc\n", "my-doc").is_none());
}

#[test]
fn find_frontmatter_id_counts_utf16_columns() {
    let range = find_frontmatter_id("---\n  id: 'é-doc'\n---\n", "é-doc").unwrap();
    assert_eq!(range.start, pos(1, 7));
    assert_eq!(range.end, pos(1, 12));
}

// -- find_component_id() --

#[test]
fn find_component_id_basic() {
    let content = "<Task id=\"task-1\" status=\"draft\" />";
    let range = find_component_id(content, "task-1", &Range { start: pos(0, 0), end: pos(0, 5) }).unwrap();
    assert_eq!(range.start, pos(0, 10));
    assert_eq!(range.end, pos(0, 16));
}

#[test]
fn find_component_id_not_found() {
    let content = "<Task id=\"other\" />";
    assert!(find_component_id(content, "task-1", &Range { start: pos(0, 0), end: pos(0, 5) }).is_none());
}

#[test]
fn find_component_id_falls_back_to_lines_before() {
    let content = "<Task id=\"task-1\"\n  status=\"draft\"\n/>\n";
    let range = find_component_id(content, "task-1", &Range { start: pos(2, 0), end: pos(2, 2) }).unwrap();
    assert_eq!(range.start, pos(0, 10));
    assert_eq!(range.end, pos(0, 16));
}
