use supersigil_lsp::code_actions::broken_ref::{find_and_remove_ref, wants_create_document};
use supersigil_lsp::code_actions::{ActionRequestContext, BrokenRefProvider, CodeAction};
use supersigil_lsp::diagnostics::{
    ActionContext, DiagnosticData, DiagnosticSource, GraphDiagnosticKind,
};
use supersigil_lsp::position::{Position, Range};
use supersigil_lsp::report::Diagnostic;

fn pos(line: u32, character: u32) -> Position {
    Position { line, character }
}

fn make_broken_ref_diagnostic(line: u32, col: u32, message: &str) -> Diagnostic {
    Diagnostic {
        range: Range { start: pos(line, col), end: pos(line, col) },
        severity: None,
        source: None,
        message: message.into(),
        data: None,
    }
}

fn make_broken_ref_data(target_ref: &str) -> DiagnosticData {
    DiagnosticData {
        source: DiagnosticSource::Graph(GraphDiagnosticKind::BrokenRef),
        doc_id: Some("doc/req".into()),
        context: ActionContext::BrokenRef { target_ref: target_ref.to_string() },
    }
}

fn ctx(content: &str) -> ActionRequestContext<'_> {
    ActionRequestContext { file_content: content, current_doc: None, document_ids: &[], component_defs: &[] }
}

fn format_actions(actions: &[CodeAction]) -> Vec<String> {
    let mut out = Vec::new();
    for a in actions {
        out.push(a.title.clone());
        for e in &a.edits {
            out.push(format!(
                "@{}:{}-{}:{} replace `{}`",
                e.range.start.line, e.range.start.character, e.range.end.line, e.range.end.character, e.new_text
            ));
        }
    }
    out
}

// -- handles() --

#[test]
fn handles_broken_ref() {
    assert!(BrokenRefProvider.handles(&make_broken_ref_data("auth/design")));
}

#[test]
fn rejects_non_broken_ref() {
    let data = DiagnosticData {
        source: DiagnosticSource::Graph(GraphDiagnosticKind::DuplicateDocumentId),
        doc_id: None,
        context: ActionContext::NoContext,
    };
    assert!(!BrokenRefProvider.handles(&data));
}

// -- Remove broken ref action --

#[test]
fn remove_ref_from_multi_item_list() {
    let content = "---\nid: doc/req\n---\n```supersigil-xml\n<Implements refs=\"auth/req, auth/design\" />\n```\n";
    let diag = make_broken_ref_diagnostic(4, 30, "broken ref `auth/design`: not found");
    let actions = BrokenRefProvider.actions(&diag, &make_broken_ref_data("auth/design"), &ctx(content));
    assert_eq!(
        format_actions(&actions),
        vec!["Remove broken ref 'auth/design'", "@4:18-4:39 replace `auth/req`"]
    );
    assert!(wants_create_document(&diag, "auth/design"));
}

#[test]
fn remove_ref_single_item() {
    let content = "---\nid: doc/req\n---\n```supersigil-xml\n<Implements refs=\"auth/design\" />\n```\n";
    let diag = make_broken_ref_diagnostic(4, 18, "broken ref `auth/design`: not found");
    let actions = BrokenRefProvider.actions(&diag, &make_broken_ref_data("auth/design"), &ctx(content));
    assert_eq!(format_actions(&actions), vec!["Remove broken ref 'auth/design'", "@4:18-4:29 replace ``"]);
    assert!(wants_create_document(&diag, "auth/design"));
}

#[test]
fn remove_ref_first_of_three() {
    let content = "---\nid: doc/req\n---\n```supersigil-xml\n<Implements refs=\"broken/ref, auth/req, auth/design\" />\n```\n";
    let diag = make_broken_ref_diagnostic(4, 18, "broken ref `broken/ref`: not found");
    let actions = BrokenRefProvider.actions(&diag, &make_broken_ref_data("broken/ref"), &ctx(content));
    assert_eq!(
        format_actions(&actions),
        vec!["Remove broken ref 'broken/ref'", "@4:18-4:51 replace `auth/req, auth/design`"]
    );
}

#[test]
fn remove_ref_middle_of_three() {
    let content = "---\nid: doc/req\n---\n```supersigil-xml\n<Implements refs=\"auth/req, broken/ref, auth/design\" />\n```\n";
    let diag = make_broken_ref_diagnostic(4, 28, "broken ref `broken/ref`: not found");
    let actions = BrokenRefProvider.actions(&diag, &make_broken_ref_data("broken/ref"), &ctx(content));
    assert_eq!(
        format_actions(&actions),
        vec!["Remove broken ref 'broken/ref'", "@4:18-4:51 replace `auth/req, auth/design`"]
    );
}

#[test]
fn remove_ref_with_depends_attribute() {
    let content = "---\nid: doc/tasks\n---\n```supersigil-xml\n<Task id=\"t-1\" status=\"draft\" depends=\"auth/design, billing/tasks\" />\n```\n";
    let diag = make_broken_ref_diagnostic(4, 40, "broken ref `auth/design`: not found");
    let actions = BrokenRefProvider.actions(&diag, &make_broken_ref_data("auth/design"), &ctx(content));
    assert_eq!(
        format_actions(&actions),
        vec!["Remove broken ref 'auth/design'", "@4:39-4:65 replace `billing/tasks`"]
    );
}

#[test]
fn no_create_action_for_fragment_ref() {
    let content = "---\nid: doc/req\n---\n```supersigil-xml\n<Implements refs=\"auth/design#section\" />\n```\n";
    let diag = make_broken_ref_diagnostic(4, 18, "broken ref `auth/design#section`: not found");
    let actions = BrokenRefProvider.actions(&diag, &make_broken_ref_data("auth/design#section"), &ctx(content));
    assert_eq!(actions.len(), 1);
    assert!(actions[0].title.starts_with("Remove broken ref"));
    assert!(!wants_create_document(&diag, "auth/design#section"));
}

#[test]
fn no_create_action_for_non_not_found_reason() {
    let content = "---\nid: doc/req\n---\n```supersigil-xml\n<Implements refs=\"auth/design\" />\n```\n";
    let diag = make_broken_ref_diagnostic(4, 18, "broken ref `auth/design`: ambiguous target");
    let actions = BrokenRefProvider.actions(&diag, &make_broken_ref_data("auth/design"), &ctx(content));
    assert_eq!(actions.len(), 1);
    assert!(actions[0].title.starts_with("Remove broken ref"));
    assert!(!wants_create_document(&diag, "auth/design"));
}

#[test]
fn broken_ref_no_action_when_context_is_none() {
    let content = "---\nid: doc/req\n---\n";
    let diag = make_broken_ref_diagnostic(0, 0, "broken ref");
    let data = DiagnosticData {
        source: DiagnosticSource::Graph(GraphDiagnosticKind::BrokenRef),
        doc_id: None,
        context: ActionContext::NoContext,
    };
    assert!(BrokenRefProvider.actions(&diag, &data, &ctx(content)).is_empty());
}

#[test]
fn no_remove_action_when_ref_not_listed_nearby() {
    let content = "<Implements refs=\"auth/design\" />\n\n\n\n\n\n\n\n";
    let diag = make_broken_ref_diagnostic(7, 0, "broken ref `auth/design`: not found");
    assert!(BrokenRefProvider.actions(&diag, &make_broken_ref_data("auth/design"), &ctx(content)).is_empty());
}

// -- find_and_remove_ref() --

#[test]
fn find_and_remove_ref_single() {
    let content = "<Implements refs=\"auth/design\" />";
    let range = Range { start: pos(0, 18), end: pos(0, 18) };
    let (edit_range, new_value) = find_and_remove_ref(content, &range, "auth/design").unwrap();
    assert_eq!(new_value, "");
    assert_eq!(edit_range.start, pos(0, 18));
    assert_eq!(edit_range.end, pos(0, 29));
}

#[test]
fn find_and_remove_ref_first_of_two() {
    let content = "<Implements refs=\"auth/design, auth/req\" />";
    let range = Range { start: pos(0, 18), end: pos(0, 18) };
    let (_, new_value) = find_and_remove_ref(content, &range, "auth/design").unwrap();
    assert_eq!(new_value, "auth/req");
}

#[test]
fn find_and_remove_ref_last_of_two() {
    let content = "<Implements refs=\"auth/req, auth/design\" />";
    let range = Range { start: pos(0, 28), end: pos(0, 28) };
    let (_, new_value) = find_and_remove_ref(content, &range, "auth/design").unwrap();
    assert_eq!(new_value, "auth/req");
}

#[test]
fn find_and_remove_ref_with_implements_attr() {
    let content = "<Task id=\"t-1\" implements=\"auth/req, broken/ref\" />";
    let range = Range { start: pos(0, 36), end: pos(0, 36) };
    let (_, new_value) = find_and_remove_ref(content, &range, "broken/ref").unwrap();
    assert_eq!(new_value, "auth/req");
}

#[test]
fn find_and_remove_ref_removes_every_copy_and_normalises_spacing() {
    let content = "<X refs=\" a/b ,x/y,  a/b,c/d \" />";
    let range = Range { start: pos(0, 0), end: pos(0, 0) };
    let (_, new_value) = find_and_remove_ref(content, &range, "a/b").unwrap();
    assert_eq!(new_value, "x/y, c/d");
}

#[test]
fn find_and_remove_ref_ignores_verifies_attr() {
    let content = "<X verifies=\"a/b\" />";
    let range = Range { start: pos(0, 0), end: pos(0, 0) };
    assert!(find_and_remove_ref(content, &range, "a/b").is_none());
}
