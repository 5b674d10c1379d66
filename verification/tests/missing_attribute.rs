use supersigil_lsp::code_actions::missing_attribute::{find_insertion_point, next_sequential_id};
use supersigil_lsp::code_actions::{
    ActionRequestContext, CodeAction, MissingAttributeProvider, ParsedDocument,
};
use supersigil_lsp::code_lens::Component;
use supersigil_lsp::diagnostics::{
    ActionContext, DiagnosticData, DiagnosticSource, ParseDiagnosticKind,
};
use supersigil_lsp::position::{Position, Range};
use supersigil_lsp::report::Diagnostic;

fn pos(line: u32, character: u32) -> Position {
    Position { line, character }
}

fn make_diagnostic(line: u32, start_col: u32, end_col: u32) -> Diagnostic {
    Diagnostic {
        range: Range { start: pos(line, start_col), end: pos(line, end_col) },
        severity: None,
        source: None,
        message: "missing required attribute".into(),
        data: None,
    }
}

fn make_data(component: &str, attribute: &str) -> DiagnosticData {
    DiagnosticData {
        source: DiagnosticSource::Parse(ParseDiagnosticKind::MissingRequiredAttribute),
        doc_id: None,
        context: ActionContext::MissingAttribute {
            component: component.to_string(),
            attribute: attribute.to_string(),
        },
    }
}

fn ctx<'a>(content: &'a str, doc: Option<&'a ParsedDocument>) -> ActionRequestContext<'a> {
    ActionRequestContext { file_content: content, current_doc: doc, document_ids: &[], component_defs: &[] }
}

fn component(name: &str, id: Option<&str>, line: usize, children: Vec<Component>) -> Component {
    Component { name: name.into(), id: id.map(String::from), refs: None, line, children }
}

fn format_actions(actions: &[CodeAction]) -> Vec<String> {
    let mut out = Vec::new();
    for a in actions {
        out.push(a.title.clone());
        for e in &a.edits {
            assert_eq!(e.range.start, e.range.end);
            out.push(format!("@{}:{} insert `{}`", e.range.start.line, e.range.start.character, e.new_text));
        }
    }
    out
}

// -- handles() --

#[test]
fn handles_missing_required_attribute() {
    assert!(MissingAttributeProvider.handles(&make_data("Task", "id")));
}

#[test]
fn rejects_other_parse_errors() {
    let data = DiagnosticData {
        source: DiagnosticSource::Parse(ParseDiagnosticKind::XmlSyntaxError),
        doc_id: None,
        context: ActionContext::NoContext,
    };
    assert!(!MissingAttributeProvider.handles(&data));
}

// -- actions() --

#[test]
fn insert_attribute_self_closing_tag() {
    let content = "# Title\n```supersigil-xml\n<Task status=\"draft\" />\n```\n";
    let actions = MissingAttributeProvider.actions(&make_diagnostic(2, 0, 5), &make_data("Task", "id"), &ctx(content, None));
    assert_eq!(format_actions(&actions), vec!["Add missing 'id' attribute to <Task>", "@2:20 insert ` id=\"\"`"]);
}

#[test]
fn insert_attribute_normal_close_tag() {
    let content = "```supersigil-xml\n<Task status=\"draft\">\nbody\n</Task>\n```\n";
    let actions = MissingAttributeProvider.actions(&make_diagnostic(1, 0, 5), &make_data("Task", "id"), &ctx(content, None));
    assert_eq!(format_actions(&actions), vec!["Add missing 'id' attribute to <Task>", "@1:20 insert ` id=\"\"`"]);
}

#[test]
fn insert_attribute_different_attr_name() {
    let content = "```supersigil-xml\n<Criterion id=\"c1\">\nbody\n</Criterion>\n```\n";
    let actions =
        MissingAttributeProvider.actions(&make_diagnostic(1, 0, 10), &make_data("Criterion", "status"), &ctx(content, None));
    assert_eq!(
        format_actions(&actions),
        vec!["Add missing 'status' attribute to <Criterion>", "@1:18 insert ` status=\"\"`"]
    );
}

#[test]
fn missing_attribute_no_action_when_context_is_none() {
    let data = DiagnosticData {
        source: DiagnosticSource::Parse(ParseDiagnosticKind::MissingRequiredAttribute),
        doc_id: None,
        context: ActionContext::NoContext,
    };
    assert!(MissingAttributeProvider.actions(&make_diagnostic(0, 0, 5), &data, &ctx("<Task />\n", None)).is_empty());
}

#[test]
fn insert_attribute_tag_with_no_attributes() {
    let content = "```supersigil-xml\n<Task />\n```\n";
    let actions = MissingAttributeProvider.actions(&make_diagnostic(1, 0, 5), &make_data("Task", "id"), &ctx(content, None));
    assert_eq!(format_actions(&actions), vec!["Add missing 'id' attribute to <Task>", "@1:5 insert ` id=\"\"`"]);
}

#[test]
fn no_action_when_no_tag_close_follows() {
    let content = "```supersigil-xml\n<Task status=\"draft\"\n```\n";
    assert!(MissingAttributeProvider
        .actions(&make_diagnostic(1, 0, 5), &make_data("Task", "id"), &ctx(content, None))
        .is_empty());
}

// -- find_insertion_point() --

#[test]
fn insertion_before_self_closing() {
    let range = Range { start: pos(0, 0), end: pos(0, 5) };
    assert_eq!(find_insertion_point("<Task status=\"draft\" />", &range).unwrap(), pos(0, 20));
}

#[test]
fn insertion_before_closing_angle() {
    let range = Range { start: pos(0, 0), end: pos(0, 5) };
    assert_eq!(find_insertion_point("<Task status=\"draft\">", &range).unwrap(), pos(0, 20));
}

#[test]
fn insertion_minimal_tag() {
    let range = Range { start: pos(0, 0), end: pos(0, 5) };
    assert_eq!(find_insertion_point("<Task />", &range).unwrap(), pos(0, 5));
}

#[test]
fn insertion_on_a_later_line() {
    let range = Range { start: pos(0, 0), end: pos(0, 5) };
    assert_eq!(find_insertion_point("<Task\n  status=\"é\"  >", &range).unwrap(), pos(1, 12));
}

// -- context-aware defaults --

#[test]
fn status_on_task_defaults_to_draft() {
    let content = "```supersigil-xml\n<Task id=\"t1\" />\n```\n";
    let actions =
        MissingAttributeProvider.actions(&make_diagnostic(1, 0, 5), &make_data("Task", "status"), &ctx(content, None));
    assert_eq!(
        format_actions(&actions),
        vec!["Add missing 'status' attribute to <Task>", "@1:13 insert ` status=\"draft\"`"]
    );
}

#[test]
fn strategy_on_verified_by_defaults_to_tag() {
    let content = "```supersigil-xml\n<VerifiedBy tag=\"foo\" />\n```\n";
    let actions = MissingAttributeProvider.actions(
        &make_diagnostic(1, 0, 11),
        &make_data("VerifiedBy", "strategy"),
        &ctx(content, None),
    );
    assert_eq!(
        format_actions(&actions),
        vec!["Add missing 'strategy' attribute to <VerifiedBy>", "@1:21 insert ` strategy=\"tag\"`"]
    );
}

#[test]
fn id_on_criterion_generates_sequential_id() {
    let content = "```supersigil-xml\n<AcceptanceCriteria>\n  <Criterion id=\"req-1\">\n    First criterion.\n  </Criterion>\n  <Criterion>\n    Needs an id.\n  </Criterion>\n</AcceptanceCriteria>\n```\n";
    let doc = ParsedDocument {
        doc_id: "test/req".into(),
        components: vec![component("Criterion", Some("req-1"), 2, vec![])],
    };
    let actions = MissingAttributeProvider.actions(
        &make_diagnostic(5, 2, 12),
        &make_data("Criterion", "id"),
        &ctx(content, Some(&doc)),
    );
    assert_eq!(actions.len(), 1);
    let edit_text = actions[0].edits[0].new_text.as_str();
    assert!(edit_text.contains("\"req-2\""), "expected req-2, got: {edit_text}");
}

#[test]
fn tag_on_verified_by_derives_from_criterion() {
    let content = "```supersigil-xml\n<Criterion id=\"req-1\">\n  Body text.\n  <VerifiedBy strategy=\"tag\" />\n</Criterion>\n```\n";
    let doc = ParsedDocument { doc_id: "auth/req".into(), components: vec![] };
    let actions = MissingAttributeProvider.actions(
        &make_diagnostic(3, 2, 12),
        &make_data("VerifiedBy", "tag"),
        &ctx(content, Some(&doc)),
    );
    assert_eq!(actions.len(), 1);
    let edit_text = actions[0].edits[0].new_text.as_str();
    assert!(edit_text.contains("\"auth/req#req-1\""), "expected auth/req#req-1, got: {edit_text}");
}

#[test]
fn tag_without_current_document_is_empty() {
    let content = "```supersigil-xml\n<Criterion id=\"req-1\">\n  <VerifiedBy strategy=\"tag\" />\n</Criterion>\n```\n";
    let actions =
        MissingAttributeProvider.actions(&make_diagnostic(2, 2, 12), &make_data("VerifiedBy", "tag"), &ctx(content, None));
    assert_eq!(actions[0].edits[0].new_text, " tag=\"\"");
}

// -- next_sequential_id() --

#[test]
fn next_sequential_id_walks_nested_components_with_the_first_prefix() {
    let doc = ParsedDocument {
        doc_id: "d/req".into(),
        components: vec![component(
            "AcceptanceCriteria",
            None,
            1,
            vec![
                component("Criterion", Some("ac-3"), 2, vec![]),
                component("Criterion", Some("other-9"), 3, vec![]),
                component("Task", Some("ac-20"), 4, vec![component("Criterion", Some("ac-7"), 5, vec![])]),
            ],
        )],
    };
    let c = ctx("", Some(&doc));
    assert_eq!(next_sequential_id("Criterion", &c), Some("ac-8".to_string()));
    assert_eq!(next_sequential_id("Task", &c), Some("ac-21".to_string()));
    assert_eq!(next_sequential_id("Decision", &c), None);
}
