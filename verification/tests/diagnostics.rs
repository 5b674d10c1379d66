use supersigil_lsp::diagnostics::{
    enrich_finding_context, extract_backtick_token, parse_tier, severity_to_lsp, ActionContext,
    DiagnosticsTier,
    DiagnosticSeverity, Finding, ReportSeverity, RuleName,
};

#[test]
fn enrich_finding_context_table() {
    let cases: Vec<(&str, RuleName, &str, &str, Box<dyn Fn(ActionContext)>)> = vec![
        (
            "missing_required_component",
            RuleName::MissingRequiredComponent,
            "auth/req",
            "document `auth/req` (type `requirements`) is missing required component `AcceptanceCriteria`",
            Box::new(|ctx| match ctx {
                ActionContext::MissingComponent { component, parent_id } => {
                    assert_eq!(component, "AcceptanceCriteria");
                    assert_eq!(parent_id, "auth/req");
                }
                other => panic!("expected MissingComponent, got {other:?}"),
            }),
        ),
        (
            "orphan_decision",
            RuleName::OrphanDecision,
            "adr/logging",
            "Decision `use-postgres` in `adr/logging` is orphan: no outward connections and not referenced by any other component",
            Box::new(|ctx| match ctx {
                ActionContext::OrphanDecision { decision_id } => {
                    assert_eq!(decision_id, "use-postgres");
                }
                other => panic!("expected OrphanDecision, got {other:?}"),
            }),
        ),
        (
            "invalid_rationale_placement",
            RuleName::InvalidRationalePlacement,
            "adr/design",
            "Rationale in `adr/design` is placed at document root; it must be a direct child of Decision",
            Box::new(|ctx| match ctx {
                ActionContext::InvalidPlacement { component, expected_parent } => {
                    assert_eq!(component, "Rationale");
                    assert_eq!(expected_parent, "Decision");
                }
                other => panic!("expected InvalidPlacement, got {other:?}"),
            }),
        ),
        (
            "invalid_alternative_placement",
            RuleName::InvalidAlternativePlacement,
            "adr/design",
            "Alternative in `adr/design` is placed at document root; it must be a direct child of Decision",
            Box::new(|ctx| match ctx {
                ActionContext::InvalidPlacement { component, expected_parent } => {
                    assert_eq!(component, "Alternative");
                    assert_eq!(expected_parent, "Decision");
                }
                other => panic!("expected InvalidPlacement, got {other:?}"),
            }),
        ),
        (
            "invalid_expected_placement",
            RuleName::InvalidExpectedPlacement,
            "auth/req",
            "Expected in `auth/req` is placed at document root; it must be a direct child of Example",
            Box::new(|ctx| match ctx {
                ActionContext::InvalidPlacement { component, expected_parent } => {
                    assert_eq!(component, "Expected");
                    assert_eq!(expected_parent, "Example");
                }
                other => panic!("expected InvalidPlacement, got {other:?}"),
            }),
        ),
        (
            "sequential_id_gap",
            RuleName::SequentialIdGap,
            "my-doc",
            "gap in sequence: `task-2` is missing (between `task-1` and `task-3` in document `my-doc`)",
            Box::new(|ctx| match ctx {
                ActionContext::SequentialIdGap { component_type } => {
                    assert_eq!(component_type, "task");
                }
                other => panic!("expected SequentialIdGap, got {other:?}"),
            }),
        ),
        (
            "sequential_id_order",
            RuleName::SequentialIdOrder,
            "my-doc",
            "`task-1` is declared after `task-2` in document `my-doc`",
            Box::new(|ctx| match ctx {
                ActionContext::SequentialIdGap { component_type } => {
                    assert_eq!(component_type, "task");
                }
                other => panic!("expected SequentialIdGap, got {other:?}"),
            }),
        ),
        (
            "incomplete_decision",
            RuleName::IncompleteDecision,
            "adr/logging",
            "Decision in `adr/logging` has no Rationale child; every Decision should include a Rationale",
            Box::new(|ctx| match ctx {
                ActionContext::IncompleteDecision { decision_id } => {
                    assert_eq!(decision_id, "adr/logging");
                }
                other => panic!("expected IncompleteDecision, got {other:?}"),
            }),
        ),
    ];

    for (_label, rule, doc_id, message, check) in &cases {
        let finding = Finding::new(rule.clone(), Some((*doc_id).into()), (*message).into(), None);
        let ctx = enrich_finding_context(&finding);
        check(ctx);
    }
}

#[test]
fn enrich_missing_required_component_no_backtick() {
    let finding = Finding::new(
        RuleName::MissingRequiredComponent,
        Some("auth/req".into()),
        "some unusual message".into(),
        None,
    );
    assert!(matches!(enrich_finding_context(&finding), ActionContext::NoContext));
}

#[test]
fn enrich_unrelated_rule_returns_none() {
    let finding = Finding::new(RuleName::EmptyProject, None, "project is empty".into(), None);
    assert!(matches!(enrich_finding_context(&finding), ActionContext::NoContext));
}

#[test]
fn sequential_id_without_dash_has_empty_component_type() {
    let finding = Finding::new(RuleName::SequentialIdGap, None, "gap: `task` missing".into(), None);
    match enrich_finding_context(&finding) {
        ActionContext::SequentialIdGap { component_type } => assert_eq!(component_type, ""),
        other => panic!("expected SequentialIdGap, got {other:?}"),
    }
}

#[test]
fn backtick_token_and_resume_position() {
    assert_eq!(
        extract_backtick_token("a `x` b `yz`", 0),
        Some(("x".to_owned(), 5))
    );
    assert_eq!(
        extract_backtick_token("a `x` b `yz`", 5),
        Some(("yz".to_owned(), 12))
    );
    assert_eq!(extract_backtick_token("no ticks", 0), None);
    assert_eq!(extract_backtick_token("one `tick", 0), None);
}

#[test]
fn severity_mapping() {
    assert_eq!(severity_to_lsp(ReportSeverity::Error), Some(DiagnosticSeverity::Error));
    assert_eq!(severity_to_lsp(ReportSeverity::Warning), Some(DiagnosticSeverity::Warning));
    assert_eq!(severity_to_lsp(ReportSeverity::Info), Some(DiagnosticSeverity::Hint));
    assert_eq!(severity_to_lsp(ReportSeverity::Off), None);
}

#[test]
fn parse_tier_names_lint_and_verify_only() {
    assert_eq!(parse_tier("lint"), Some(DiagnosticsTier::Lint));
    assert_eq!(parse_tier("verify"), Some(DiagnosticsTier::Verify));
    assert_eq!(parse_tier("Lint"), None);
    assert_eq!(parse_tier(""), None);
    assert_eq!(parse_tier("verify "), None);
}
