use supersigil_lsp::code_actions::missing_component::{build_required_attrs_str, find_last_fence_close};
use supersigil_lsp::code_actions::{ActionRequestContext, CodeAction, MissingComponentProvider};
use supersigil_lsp::component_defs::{AttributeDef, ComponentDef};
use supersigil_lsp::diagnostics::{
    ActionContext, DiagnosticData, DiagnosticSource, ParseDiagnosticKind, RuleName,
};
use supersigil_lsp::position::{Position, Range};
use supersigil_lsp::report::Diagnostic;

fn pos(line: u32, character: u32) -> Position {
    Position { line, character }
}

fn make_diagnostic(line: u32, start_col: u32, end_col: u32, message: &str) -> Diagnostic {
    Diagnostic {
        range: Range { start: pos(line, start_col), end: pos(line, end_col) },
        severity: None,
        source: None,
        message: message.into(),
        data: None,
    }
}

fn make_data(component: &str) -> DiagnosticData {
    DiagnosticData {
        source: DiagnosticSource::Verify(RuleName::MissingRequiredComponent),
        doc_id: Some("auth/req".into()),
        context: ActionContext::MissingComponent {
            component: component.to_string(),
            parent_id: "auth/req".to_string(),
        },
    }
}

fn attr(name: &str, required: bool) -> AttributeDef {
    AttributeDef { name: name.into(), required, list: false }
}

fn defs() -> Vec<ComponentDef> {
    vec![
        ComponentDef { name: "AcceptanceCriteria".into(), attributes: vec![], referenceable: false, verifiable: false, description: None },
        ComponentDef { name: "Criterion".into(), attributes: vec![attr("id", true)], referenceable: true, verifiable: false, description: None },
        ComponentDef {
            name: "Task".into(),
            attributes: vec![attr("status", true), attr("implements", false), attr("id", true)],
            referenceable: true,
            verifiable: false,
            description: None,
        },
    ]
}

fn ctx<'a>(content: &'a str, defs: &'a [ComponentDef]) -> ActionRequestContext<'a> {
    ActionRequestContext { file_content: content, current_doc: None, document_ids: &[], component_defs: defs }
}

fn format_actions(actions: &[CodeAction]) -> Vec<String> {
    let mut out = Vec::new();
    for a in actions {
        out.push(a.title.clone());
        for e in &a.edits {
            assert_eq!(e.range.start, e.range.end);
            out.push(format!("@{}:{} insert `{}`", e.range.start.line, e.range.start.character, e.new_text));
        }
    }
    out
}

const MISSING_AC: &str =
    "document `auth/req` (type `requirements`) is missing required component `AcceptanceCriteria`";

// -- handles() --

#[test]
fn handles_missing_required_component() {
    assert!(MissingComponentProvider.handles(&make_data("AcceptanceCriteria")));
}

#[test]
fn missing_component_rejects_other_verify_rules() {
    let data = DiagnosticData {
        source: DiagnosticSource::Verify(RuleName::IncompleteDecision),
        doc_id: None,
        context: ActionContext::NoContext,
    };
    assert!(!MissingComponentProvider.handles(&data));
}

#[test]
fn missing_component_rejects_parse_diagnostic() {
    let data = DiagnosticData {
        source: DiagnosticSource::Parse(ParseDiagnosticKind::XmlSyntaxError),
        doc_id: None,
        context: ActionContext::NoContext,
    };
    assert!(!MissingComponentProvider.handles(&data));
}

// -- find_last_fence_close() --

#[test]
fn finds_single_fence_close() {
    let content = "---\nid: doc\n---\n```supersigil-xml\n<Task id=\"t1\" />\n```\n";
    assert_eq!(find_last_fence_close(content).unwrap(), pos(5, 0));
}

#[test]
fn finds_last_of_multiple_fences() {
    let content = "---\nid: doc\n---\n```supersigil-xml\n<Task id=\"t1\" />\n```\n\nSome text.\n\n```supersigil-xml\n<Criterion id=\"c1\" />\n```\n";
    assert_eq!(find_last_fence_close(content).unwrap(), pos(11, 0));
}

#[test]
fn returns_none_when_no_fence() {
    assert!(find_last_fence_close("# Just a heading\nNo fences here.\n").is_none());
}

#[test]
fn other_fences_and_unclosed_fences_are_not_closes() {
    let content = "```supersigil-xml\n<Task />\n```\n```rust\nfn x() {}\n```\n```supersigil-xml\n<Task />\n";
    assert_eq!(find_last_fence_close(content).unwrap(), pos(2, 0));
}

// -- actions() --

#[test]
fn insert_skeleton_basic() {
    let content = "---\nid: auth/req\ntype: requirements\n---\n```supersigil-xml\n<Task id=\"t1\" status=\"draft\" />\n```\n";
    let defs = defs();
    let actions =
        MissingComponentProvider.actions(&make_diagnostic(0, 0, 0, MISSING_AC), &make_data("AcceptanceCriteria"), &ctx(content, &defs));
    assert_eq!(
        format_actions(&actions),
        vec![
            "Add <AcceptanceCriteria> skeleton",
            "@6:0 insert `<AcceptanceCriteria>\n<!-- TODO: Add AcceptanceCriteria content -->\n</AcceptanceCriteria>\n`",
        ]
    );
}

#[test]
fn insert_skeleton_multiple_fences() {
    let content = "---\nid: auth/req\ntype: requirements\n---\n```supersigil-xml\n<Task id=\"t1\" status=\"draft\" />\n```\n\nSome prose here.\n\n```supersigil-xml\n<Criterion id=\"c1\" />\n```\n";
    let defs = defs();
    let actions =
        MissingComponentProvider.actions(&make_diagnostic(0, 0, 0, MISSING_AC), &make_data("AcceptanceCriteria"), &ctx(content, &defs));
    assert_eq!(
        format_actions(&actions),
        vec![
            "Add <AcceptanceCriteria> skeleton",
            "@12:0 insert `<AcceptanceCriteria>\n<!-- TODO: Add AcceptanceCriteria content -->\n</AcceptanceCriteria>\n`",
        ]
    );
}

#[test]
fn insert_skeleton_criterion() {
    let content = "---\nid: auth/req\ntype: requirements\n---\n```supersigil-xml\n<Task id=\"t1\" status=\"draft\" />\n```\n";
    let defs = defs();
    let diag = make_diagnostic(
        0,
        0,
        0,
        "document `auth/req` (type `requirements`) is missing required component `Criterion`",
    );
    let actions = MissingComponentProvider.actions(&diag, &make_data("Criterion"), &ctx(content, &defs));
    assert_eq!(
        format_actions(&actions),
        vec!["Add <Criterion> skeleton", "@6:0 insert `<Criterion id=\"\">\n<!-- TODO: Add Criterion content -->\n</Criterion>\n`"]
    );
}

#[test]
fn no_action_when_no_fence() {
    let content = "---\nid: auth/req\ntype: requirements\n---\n# Some content\n";
    let defs = defs();
    assert!(MissingComponentProvider
        .actions(&make_diagnostic(0, 0, 0, MISSING_AC), &make_data("AcceptanceCriteria"), &ctx(content, &defs))
        .is_empty());
}

#[test]
fn missing_component_no_action_when_context_is_none() {
    let content = "---\nid: auth/req\n---\n```supersigil-xml\n<Task id=\"t1\" />\n```\n";
    let data = DiagnosticData {
        source: DiagnosticSource::Verify(RuleName::MissingRequiredComponent),
        doc_id: Some("auth/req".into()),
        context: ActionContext::NoContext,
    };
    let defs = defs();
    assert!(MissingComponentProvider
        .actions(&make_diagnostic(0, 0, 0, "some unrecognized message format"), &data, &ctx(content, &defs))
        .is_empty());
}

// -- build_required_attrs_str() --

#[test]
fn required_attrs_are_sorted_and_optional_ones_left_out() {
    let defs = defs();
    assert_eq!(build_required_attrs_str("Task", &ctx("", &defs)), " id=\"\" status=\"\"");
    assert_eq!(build_required_attrs_str("AcceptanceCriteria", &ctx("", &defs)), "");
    assert_eq!(build_required_attrs_str("Unknown", &ctx("", &defs)), "");
}
