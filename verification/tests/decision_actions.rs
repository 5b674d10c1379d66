use supersigil_lsp::code_actions::{
    ActionRequestContext, CodeAction, IncompleteDecisionProvider, InvalidPlacementProvider,
    OrphanDecisionProvider, ParsedDocument,
};
use supersigil_lsp::code_lens::Component;
use supersigil_lsp::diagnostics::{
    ActionContext, DiagnosticData, DiagnosticSource, ParseDiagnosticKind, RuleName,
};
use supersigil_lsp::position::{Position, Range};
use supersigil_lsp::report::Diagnostic;

fn make_diagnostic(line: u32, start_col: u32, end_col: u32, message: &str) -> Diagnostic {
    Diagnostic {
        range: Range {
            start: Position { line, character: start_col },
            end: Position { line, character: end_col },
        },
        severity: None,
        source: None,
        message: message.into(),
        data: None,
    }
}

fn verify_data(rule: RuleName) -> DiagnosticData {
    DiagnosticData { source: DiagnosticSource::Verify(rule), doc_id: Some("adr/design".into()), context: ActionContext::NoContext }
}

fn ctx(content: &str) -> ActionRequestContext<'_> {
    ActionRequestContext { file_content: content, current_doc: None, document_ids: &[], component_defs: &[] }
}

/// Each action as its title and its edits as `@line:char insert `text``.
fn format_actions(actions: &[CodeAction]) -> Vec<String> {
    let mut out = Vec::new();
    for a in actions {
        out.push(a.title.clone());
        for e in &a.edits {
            assert_eq!(e.range.start, e.range.end);
            out.push(format!("@{}:{} insert `{}`", e.range.start.line, e.range.start.character, e.new_text));
        }
    }
    out
}

// -- IncompleteDecisionProvider --

#[test]
fn handles_incomplete_decision() {
    assert!(IncompleteDecisionProvider.handles(&verify_data(RuleName::IncompleteDecision)));
}

#[test]
fn incomplete_decision_rejects_other_verify_rules() {
    assert!(!IncompleteDecisionProvider.handles(&verify_data(RuleName::OrphanDecision)));
}

#[test]
fn incomplete_decision_rejects_parse_diagnostic() {
    let data = DiagnosticData {
        source: DiagnosticSource::Parse(ParseDiagnosticKind::XmlSyntaxError),
        doc_id: None,
        context: ActionContext::NoContext,
    };
    assert!(!IncompleteDecisionProvider.handles(&data));
}

#[test]
fn insert_rationale_stub_basic() {
    let content = "---\nid: adr/logging\n---\n```supersigil-xml\n<Decision id=\"use-postgres\" status=\"proposed\">\n</Decision>\n```\n";
    let diag = make_diagnostic(4, 0, 10, "Decision has no Rationale child");
    let actions = IncompleteDecisionProvider.actions(&diag, &verify_data(RuleName::IncompleteDecision), &ctx(content));
    assert_eq!(
        format_actions(&actions),
        vec![
            "Add <Rationale> stub to Decision".to_owned(),
            "@5:0 insert `<Rationale>\nTODO: Add rationale for this decision.\n</Rationale>\n`".to_owned(),
            "Add <Alternative> stub to Decision".to_owned(),
            "@5:0 insert `<Alternative id=\"\" status=\"\">\nTODO: Describe alternative.\n</Alternative>\n`".to_owned(),
        ]
    );
}

#[test]
fn insert_rationale_stub_indented() {
    let content = "---\nid: adr/logging\n---\n```supersigil-xml\n<Decision id=\"use-postgres\" status=\"proposed\">\n  <Alternative id=\"alt-1\" status=\"rejected\" />\n  </Decision>\n```\n";
    let diag = make_diagnostic(4, 0, 10, "Decision has no Rationale child");
    let actions = IncompleteDecisionProvider.actions(&diag, &verify_data(RuleName::IncompleteDecision), &ctx(content));
    assert_eq!(
        format_actions(&actions),
        vec![
            "Add <Rationale> stub to Decision".to_owned(),
            "@6:0 insert `  <Rationale>\n  TODO: Add rationale for this decision.\n  </Rationale>\n`".to_owned(),
            "Add <Alternative> stub to Decision".to_owned(),
            "@6:0 insert `  <Alternative id=\"\" status=\"\">\n  TODO: Describe alternative.\n  </Alternative>\n`".to_owned(),
        ]
    );
}

#[test]
fn incomplete_decision_no_action_when_closing_tag_not_found() {
    let content = "---\nid: adr/logging\n---\n```supersigil-xml\n<Decision id=\"use-postgres\" status=\"proposed\">\nSome body text\n```\n";
    let diag = make_diagnostic(4, 0, 10, "Decision has no Rationale child");
    let actions = IncompleteDecisionProvider.actions(&diag, &verify_data(RuleName::IncompleteDecision), &ctx(content));
    assert!(actions.is_empty());
}

#[test]
fn insert_rationale_stub_with_existing_children() {
    let content = "---\nid: adr/logging\n---\n```supersigil-xml\n<Decision id=\"use-postgres\" status=\"proposed\">\n  <Alternative id=\"alt-mysql\" status=\"rejected\">\n  MySQL was considered but rejected.\n  </Alternative>\n  <Alternative id=\"alt-sqlite\" status=\"rejected\">\n  SQLite was considered but rejected.\n  </Alternative>\n</Decision>\n```\n";
    let diag = make_diagnostic(4, 0, 10, "Decision has no Rationale child");
    let actions = IncompleteDecisionProvider.actions(&diag, &verify_data(RuleName::IncompleteDecision), &ctx(content));
    let lines = format_actions(&actions);
    assert_eq!(lines[1], "@11:0 insert `<Rationale>\nTODO: Add rationale for this decision.\n</Rationale>\n`");
    assert_eq!(lines[3], "@11:0 insert `<Alternative id=\"\" status=\"\">\nTODO: Describe alternative.\n</Alternative>\n`");
}

// -- OrphanDecisionProvider --

#[test]
fn handles_orphan_decision() {
    assert!(OrphanDecisionProvider.handles(&verify_data(RuleName::OrphanDecision)));
}

#[test]
fn orphan_decision_rejects_other_verify_rules() {
    assert!(!OrphanDecisionProvider.handles(&verify_data(RuleName::IncompleteDecision)));
}

#[test]
fn orphan_decision_rejects_parse_diagnostic() {
    let data = DiagnosticData {
        source: DiagnosticSource::Parse(ParseDiagnosticKind::XmlSyntaxError),
        doc_id: None,
        context: ActionContext::NoContext,
    };
    assert!(!OrphanDecisionProvider.handles(&data));
}

#[test]
fn insert_references_basic() {
    let content = "---\nid: adr/design\n---\n```supersigil-xml\n<Decision id=\"use-postgres\" status=\"proposed\">\n</Decision>\n```\n";
    let diag = make_diagnostic(4, 0, 10, "Decision has no References");
    let actions = OrphanDecisionProvider.actions(&diag, &verify_data(RuleName::OrphanDecision), &ctx(content));
    assert_eq!(
        format_actions(&actions),
        vec!["Add <References> to Decision".to_owned(), "@5:0 insert `<References refs=\"\" />\n`".to_owned()]
    );
}

#[test]
fn insert_references_indented() {
    let content = "---\nid: adr/design\n---\n```supersigil-xml\n<Decision id=\"use-postgres\" status=\"proposed\">\n  <Rationale>\n  Good performance.\n  </Rationale>\n  </Decision>\n```\n";
    let diag = make_diagnostic(4, 0, 10, "Decision has no References");
    let actions = OrphanDecisionProvider.actions(&diag, &verify_data(RuleName::OrphanDecision), &ctx(content));
    assert_eq!(format_actions(&actions)[1], "@8:0 insert `  <References refs=\"\" />\n`");
}

#[test]
fn orphan_decision_no_action_when_closing_tag_not_found() {
    let content = "---\nid: adr/design\n---\n```supersigil-xml\n<Decision id=\"use-postgres\" status=\"proposed\">\nSome body text\n```\n";
    let diag = make_diagnostic(4, 0, 10, "Decision has no References");
    let actions = OrphanDecisionProvider.actions(&diag, &verify_data(RuleName::OrphanDecision), &ctx(content));
    assert!(actions.is_empty());
}

#[test]
fn insert_references_with_existing_children() {
    let content = "---\nid: adr/design\n---\n```supersigil-xml\n<Decision id=\"use-postgres\" status=\"proposed\">\n  <Rationale>\n  We need a robust database.\n  </Rationale>\n  <Alternative id=\"alt-mysql\" status=\"rejected\">\n  MySQL was considered.\n  </Alternative>\n</Decision>\n```\n";
    let diag = make_diagnostic(4, 0, 10, "Decision has no References");
    let actions = OrphanDecisionProvider.actions(&diag, &verify_data(RuleName::OrphanDecision), &ctx(content));
    assert_eq!(format_actions(&actions)[1], "@11:0 insert `<References refs=\"\" />\n`");
}

fn doc_with(name: &str, refs: &str) -> ParsedDocument {
    ParsedDocument {
        doc_id: "auth/adr".into(),
        components: vec![Component { name: name.into(), id: None, refs: Some(refs.into()), line: 4, children: vec![] }],
    }
}

#[test]
fn prefill_refs_from_implements_component() {
    let content = "---\nid: auth/adr\n---\n```supersigil-xml\n<Implements refs=\"auth/req\" />\n<Decision id=\"use-postgres\" status=\"proposed\">\n</Decision>\n```\n";
    let doc = doc_with("Implements", "auth/req");
    let context = ActionRequestContext { file_content: content, current_doc: Some(&doc), document_ids: &[], component_defs: &[] };
    let diag = make_diagnostic(5, 0, 10, "Decision has no References");
    let actions = OrphanDecisionProvider.actions(&diag, &verify_data(RuleName::OrphanDecision), &context);
    assert_eq!(format_actions(&actions)[1], "@6:0 insert `<References refs=\"auth/req\" />\n`");
}

#[test]
fn prefill_refs_from_top_level_references_component() {
    let content = "---\nid: auth/adr\n---\n```supersigil-xml\n<References refs=\"auth/req\" />\n<Decision id=\"use-postgres\" status=\"proposed\">\n</Decision>\n```\n";
    let doc = doc_with("References", "auth/req");
    let context = ActionRequestContext { file_content: content, current_doc: Some(&doc), document_ids: &[], component_defs: &[] };
    let diag = make_diagnostic(5, 0, 10, "Decision has no References");
    let actions = OrphanDecisionProvider.actions(&diag, &verify_data(RuleName::OrphanDecision), &context);
    assert_eq!(format_actions(&actions)[1], "@6:0 insert `<References refs=\"auth/req\" />\n`");
}

#[test]
fn implements_refs_win_over_earlier_references() {
    let doc = ParsedDocument {
        doc_id: "a/adr".into(),
        components: vec![
            Component { name: "References".into(), id: None, refs: Some("x/req".into()), line: 1, children: vec![] },
            Component { name: "Implements".into(), id: None, refs: Some("y/req".into()), line: 2, children: vec![] },
        ],
    };
    let context = ActionRequestContext { file_content: "", current_doc: Some(&doc), document_ids: &[], component_defs: &[] };
    assert_eq!(supersigil_lsp::code_actions::decision::infer_refs_target(&context), "y/req");
}

// -- InvalidPlacementProvider --

#[test]
fn handles_invalid_rationale_placement() {
    assert!(InvalidPlacementProvider.handles(&verify_data(RuleName::InvalidRationalePlacement)));
}

#[test]
fn handles_invalid_alternative_placement() {
    assert!(InvalidPlacementProvider.handles(&verify_data(RuleName::InvalidAlternativePlacement)));
}

#[test]
fn invalid_placement_rejects_other_verify_rules() {
    assert!(!InvalidPlacementProvider.handles(&verify_data(RuleName::IncompleteDecision)));
}

#[test]
fn invalid_placement_rejects_parse_diagnostic() {
    let data = DiagnosticData {
        source: DiagnosticSource::Parse(ParseDiagnosticKind::XmlSyntaxError),
        doc_id: None,
        context: ActionContext::NoContext,
    };
    assert!(!InvalidPlacementProvider.handles(&data));
}

#[test]
fn wrap_rationale_in_decision() {
    let content = "---\nid: adr/design\n---\n```supersigil-xml\n<Rationale>\nThis is a standalone rationale.\n</Rationale>\n```\n";
    let diag = make_diagnostic(4, 0, 10, "Rationale is placed at document root");
    let actions = InvalidPlacementProvider.actions(&diag, &verify_data(RuleName::InvalidRationalePlacement), &ctx(content));
    assert_eq!(
        format_actions(&actions),
        vec![
            "Wrap in <Decision>".to_owned(),
            "@4:0 insert `<Decision id=\"\">\n`".to_owned(),
            "@7:0 insert `</Decision>\n`".to_owned(),
        ]
    );
}

#[test]
fn wrap_alternative_in_decision() {
    let content = "---\nid: adr/design\n---\n```supersigil-xml\n<Alternative id=\"alt-1\" status=\"rejected\">\nMySQL was considered.\n</Alternative>\n```\n";
    let diag = make_diagnostic(4, 0, 10, "Alternative is placed at document root");
    let actions = InvalidPlacementProvider.actions(&diag, &verify_data(RuleName::InvalidAlternativePlacement), &ctx(content));
    assert_eq!(
        format_actions(&actions),
        vec![
            "Wrap in <Decision>".to_owned(),
            "@4:0 insert `<Decision id=\"\">\n`".to_owned(),
            "@7:0 insert `</Decision>\n`".to_owned(),
        ]
    );
}

#[test]
fn wrap_indented_rationale() {
    let content = "---\nid: adr/design\n---\n```supersigil-xml\n  <Rationale>\n  Some rationale text.\n  </Rationale>\n```\n";
    let diag = make_diagnostic(4, 0, 10, "Rationale is placed at document root");
    let actions = InvalidPlacementProvider.actions(&diag, &verify_data(RuleName::InvalidRationalePlacement), &ctx(content));
    assert_eq!(
        format_actions(&actions),
        vec![
            "Wrap in <Decision>".to_owned(),
            "@4:0 insert `  <Decision id=\"\">\n`".to_owned(),
            "@7:0 insert `  </Decision>\n`".to_owned(),
        ]
    );
}

#[test]
fn wrap_self_closing_alternative() {
    let content = "<Alternative id=\"a\" status=\"rejected\" />\n";
    let diag = make_diagnostic(0, 0, 10, "Alternative is placed at document root");
    let actions = InvalidPlacementProvider.actions(&diag, &verify_data(RuleName::InvalidAlternativePlacement), &ctx(content));
    assert_eq!(format_actions(&actions)[2], "@1:0 insert `</Decision>\n`");
}

#[test]
fn no_action_when_component_not_found() {
    let content = "---\nid: adr/design\n---\n```supersigil-xml\nSome random text\n```\n";
    let diag = make_diagnostic(4, 0, 10, "Rationale is placed at document root");
    let actions = InvalidPlacementProvider.actions(&diag, &verify_data(RuleName::InvalidRationalePlacement), &ctx(content));
    assert!(actions.is_empty());
}

#[test]
fn no_action_when_closing_tag_missing() {
    let content = "---\nid: adr/design\n---\n```supersigil-xml\n<Rationale>\nThis rationale is never closed.\n```\n";
    let diag = make_diagnostic(4, 0, 10, "Rationale is placed at document root");
    let actions = InvalidPlacementProvider.actions(&diag, &verify_data(RuleName::InvalidRationalePlacement), &ctx(content));
    assert!(actions.is_empty());
}
