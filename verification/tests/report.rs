use supersigil_lsp::diagnostics::{
    ActionContext, DiagnosticSeverity, DiagnosticSource, Finding, FindingDetails,
    GraphDiagnosticKind, ParseDiagnosticKind, RuleName,
};
use supersigil_lsp::position::SourcePosition;
use supersigil_lsp::report::{
    finding_to_diagnostic, graph_error_to_diagnostic, graph_error_to_diagnostic_with_lookup,
    parse_error_to_diagnostic, parse_warning_to_diagnostic, DocPath, FileText, GraphError,
    ParseError, ParseWarning, SourceFiles,
};

fn dummy_source_pos(line: usize, column: usize) -> SourcePosition {
    SourcePosition { line, column }
}

fn docs(entries: &[(&str, &str)]) -> SourceFiles {
    SourceFiles {
        doc_paths: entries
            .iter()
            .map(|(id, path)| DocPath { doc_id: (*id).into(), path: (*path).into() })
            .collect(),
        texts: vec![],
    }
}

// -- graph_error_to_diagnostic --

#[test]
fn duplicate_id_produces_one_diagnostic_per_path() {
    let err = GraphError::DuplicateId { id: "REQ-001".into(), paths: vec!["/tmp/spec-a.md".into()] };
    let pairs = graph_error_to_diagnostic(&err);
    assert_eq!(pairs.len(), 1);
    let (path, diag) = &pairs[0];
    assert_eq!(path, "file:///tmp/spec-a.md");
    assert_eq!(diag.severity, Some(DiagnosticSeverity::Error));
    assert!(diag.message.contains("REQ-001"));
    assert_eq!(diag.message, "duplicate document ID `REQ-001`");
}

#[test]
fn duplicate_id_with_multiple_paths_produces_multiple_diagnostics() {
    let err = GraphError::DuplicateId {
        id: "REQ-002".into(),
        paths: vec!["/tmp/a.md".into(), "/tmp/b.md".into()],
    };
    let pairs = graph_error_to_diagnostic(&err);
    assert_eq!(pairs.len(), 2);
    assert!(pairs.iter().all(|(_, d)| d.severity == Some(DiagnosticSeverity::Error)));
    assert_eq!(pairs[0].1.message, "duplicate document ID `REQ-002` (also in /tmp/b.md)");
    assert_eq!(pairs[1].1.message, "duplicate document ID `REQ-002` (also in /tmp/a.md)");
}

#[test]
fn broken_ref_without_lookup_returns_empty() {
    let err = GraphError::BrokenRef {
        doc_id: "REQ-001".into(),
        ref_str: "REQ-999".into(),
        reason: "not found".into(),
        position: dummy_source_pos(5, 3),
    };
    assert!(graph_error_to_diagnostic(&err).is_empty());
}

#[test]
fn task_dependency_cycle_without_lookup_returns_empty() {
    let err = GraphError::TaskDependencyCycle {
        doc_id: "TASK-001".into(),
        cycle: vec!["TASK-001".into(), "TASK-002".into()],
    };
    assert!(graph_error_to_diagnostic(&err).is_empty());
}

// -- graph_error_to_diagnostic_with_lookup --

#[test]
fn broken_ref_with_lookup_produces_diagnostic() {
    let err = GraphError::BrokenRef {
        doc_id: "REQ-001".into(),
        ref_str: "REQ-999".into(),
        reason: "not found".into(),
        position: dummy_source_pos(10, 5),
    };
    let pairs = graph_error_to_diagnostic_with_lookup(&err, &docs(&[("REQ-001", "/tmp/req-001.md")]));
    assert_eq!(pairs.len(), 1);
    let (path, diag) = &pairs[0];
    assert_eq!(path, "file:///tmp/req-001.md");
    assert_eq!(diag.severity, Some(DiagnosticSeverity::Error));
    assert!(diag.message.contains("REQ-999"));
    assert!(diag.message.contains("not found"));
    assert_eq!(diag.message, "broken ref `REQ-999`: not found");
    // The file cannot be read: line 10, column 5 become (9, 4).
    assert_eq!(diag.range.start.line, 9);
    assert_eq!(diag.range.start.character, 4);
}

#[test]
fn broken_ref_position_counts_utf16_in_file_text() {
    let err = GraphError::BrokenRef {
        doc_id: "REQ-001".into(),
        ref_str: "REQ-999".into(),
        reason: "not found".into(),
        position: dummy_source_pos(2, 5),
    };
    let mut sf = docs(&[("REQ-001", "/tmp/req-001.md")]);
    sf.texts.push(FileText { path: "/tmp/req-001.md".into(), text: "first\né😀x\n".into() });
    let pairs = graph_error_to_diagnostic_with_lookup(&err, &sf);
    assert_eq!(pairs.len(), 1);
    // Byte column 4 of "é😀x" falls inside the emoji: é (1 unit) + 😀 (2 units).
    assert_eq!(pairs[0].1.range.start.line, 1);
    assert_eq!(pairs[0].1.range.start.character, 3);
}

#[test]
fn broken_ref_with_unknown_doc_id_returns_empty() {
    let err = GraphError::BrokenRef {
        doc_id: "REQ-UNKNOWN".into(),
        ref_str: "REQ-999".into(),
        reason: "not found".into(),
        position: dummy_source_pos(1, 1),
    };
    assert!(graph_error_to_diagnostic_with_lookup(&err, &docs(&[])).is_empty());
}

#[test]
fn duplicate_component_id_with_lookup_produces_one_diagnostic_per_position() {
    let err = GraphError::DuplicateComponentId {
        doc_id: "REQ-001".into(),
        component_id: "crit-1".into(),
        positions: vec![dummy_source_pos(3, 1), dummy_source_pos(7, 1)],
    };
    let pairs = graph_error_to_diagnostic_with_lookup(&err, &docs(&[("REQ-001", "/tmp/req-comp.md")]));
    assert_eq!(pairs.len(), 2);
    assert!(pairs.iter().all(|(_, d)| d.severity == Some(DiagnosticSeverity::Error)));
    assert!(pairs.iter().all(|(_, d)| d.message.contains("crit-1")));
    assert_eq!(pairs[1].1.range.start.line, 6);
}

#[test]
fn task_dependency_cycle_with_lookup_produces_diagnostic() {
    let err = GraphError::TaskDependencyCycle {
        doc_id: "TASKS".into(),
        cycle: vec!["TASK-A".into(), "TASK-B".into()],
    };
    let pairs = graph_error_to_diagnostic_with_lookup(&err, &docs(&[("TASKS", "/tmp/tasks.md")]));
    assert_eq!(pairs.len(), 1);
    let (_, diag) = &pairs[0];
    assert!(diag.message.contains("TASK-A"));
    assert!(diag.message.contains("TASK-B"));
    assert_eq!(diag.message, "dependency cycle in tasks: TASK-A → TASK-B");
}

#[test]
fn graph_error_duplicate_id_attaches_data() {
    let err = GraphError::DuplicateId {
        id: "REQ-001".into(),
        paths: vec!["/tmp/a.md".into(), "/tmp/b.md".into()],
    };
    let pairs = graph_error_to_diagnostic(&err);
    assert_eq!(pairs.len(), 2);
    let data_0 = pairs[0].1.data.clone().unwrap();
    assert_eq!(
        data_0.source,
        DiagnosticSource::Graph(GraphDiagnosticKind::DuplicateDocumentId)
    );
    assert_eq!(data_0.doc_id.as_deref(), Some("REQ-001"));
    match &data_0.context {
        ActionContext::DuplicateId { id, other_path } => {
            assert_eq!(id, "REQ-001");
            assert!(other_path.contains("b.md"));
        }
        other => panic!("expected DuplicateId, got {other:?}"),
    }
    let data_1 = pairs[1].1.data.clone().unwrap();
    match &data_1.context {
        ActionContext::DuplicateId { id, other_path } => {
            assert_eq!(id, "REQ-001");
            assert!(other_path.contains("a.md"));
        }
        other => panic!("expected DuplicateId, got {other:?}"),
    }
}

#[test]
fn graph_error_broken_ref_with_lookup_attaches_data() {
    let err = GraphError::BrokenRef {
        doc_id: "REQ-001".into(),
        ref_str: "REQ-999".into(),
        reason: "not found".into(),
        position: dummy_source_pos(5, 3),
    };
    let pairs = graph_error_to_diagnostic_with_lookup(&err, &docs(&[("REQ-001", "/tmp/broken-ref.md")]));
    assert_eq!(pairs.len(), 1);
    let data = pairs[0].1.data.clone().unwrap();
    assert_eq!(data.source, DiagnosticSource::Graph(GraphDiagnosticKind::BrokenRef));
    assert_eq!(data.doc_id.as_deref(), Some("REQ-001"));
    match &data.context {
        ActionContext::BrokenRef { target_ref } => assert_eq!(target_ref, "REQ-999"),
        other => panic!("expected BrokenRef, got {other:?}"),
    }
}

#[test]
fn graph_error_duplicate_component_id_with_lookup_attaches_data() {
    let err = GraphError::DuplicateComponentId {
        doc_id: "REQ-001".into(),
        component_id: "crit-1".into(),
        positions: vec![dummy_source_pos(3, 1)],
    };
    let pairs = graph_error_to_diagnostic_with_lookup(&err, &docs(&[("REQ-001", "/tmp/dup-comp.md")]));
    assert_eq!(pairs.len(), 1);
    let data = pairs[0].1.data.clone().unwrap();
    assert_eq!(
        data.source,
        DiagnosticSource::Graph(GraphDiagnosticKind::DuplicateComponentId)
    );
    assert_eq!(data.doc_id.as_deref(), Some("REQ-001"));
    match &data.context {
        ActionContext::DuplicateId { id, .. } => assert_eq!(id, "crit-1"),
        other => panic!("expected DuplicateId, got {other:?}"),
    }
}

#[test]
fn graph_error_task_dependency_cycle_with_lookup_attaches_data() {
    let err = GraphError::TaskDependencyCycle { doc_id: "TASKS".into(), cycle: vec!["A".into(), "B".into()] };
    let pairs = graph_error_to_diagnostic_with_lookup(&err, &docs(&[("TASKS", "/tmp/cycle.md")]));
    assert_eq!(pairs.len(), 1);
    let data = pairs[0].1.data.clone().unwrap();
    assert_eq!(data.source, DiagnosticSource::Graph(GraphDiagnosticKind::DependencyCycle));
    assert_eq!(data.doc_id.as_deref(), Some("TASKS"));
}

#[test]
fn graph_error_document_dependency_cycle_with_lookup_attaches_data() {
    let err = GraphError::DocumentDependencyCycle { cycle: vec!["DOC-A".into(), "DOC-B".into()] };
    let sf = docs(&[("DOC-A", "/tmp/cycle-a.md"), ("DOC-B", "/tmp/cycle-b.md")]);
    let pairs = graph_error_to_diagnostic_with_lookup(&err, &sf);
    assert_eq!(pairs.len(), 2);
    for (_, diag) in &pairs {
        let data = diag.data.clone().unwrap();
        assert_eq!(data.source, DiagnosticSource::Graph(GraphDiagnosticKind::DependencyCycle));
    }
    assert_eq!(pairs[0].0, "file:///tmp/cycle-a.md");
    assert_eq!(pairs[1].1.data.clone().unwrap().doc_id.as_deref(), Some("DOC-B"));
    assert_eq!(pairs[0].1.message, "document dependency cycle: DOC-A → DOC-B");
}

#[test]
fn document_cycle_skips_documents_without_file() {
    let err = GraphError::DocumentDependencyCycle {
        cycle: vec!["DOC-A".into(), "DOC-X".into(), "DOC-B".into()],
    };
    let sf = docs(&[("DOC-A", "/tmp/cycle-a.md"), ("DOC-B", "/tmp/cycle-b.md")]);
    let pairs = graph_error_to_diagnostic_with_lookup(&err, &sf);
    assert_eq!(pairs.len(), 2);
    assert_eq!(pairs[1].0, "file:///tmp/cycle-b.md");
}

// -- finding_to_diagnostic --

#[test]
fn finding_with_position_and_details_path_but_no_line_uses_position() {
    let path = "/tmp/test-doc.md";
    let mut finding = Finding::new(
        RuleName::IncompleteDecision,
        Some("test/doc".into()),
        "Decision has no Rationale".into(),
        Some(dummy_source_pos(10, 1)),
    );
    finding.details = Some(FindingDetails { path: Some(path.into()), ..Default::default() });
    let mut sf = docs(&[("test/doc", path)]);
    sf.texts.push(FileText {
        path: path.into(),
        text: "line1\nline2\nline3\nline4\nline5\nline6\nline7\nline8\nline9\n<Decision>\n".into(),
    });
    let (_, diag) = finding_to_diagnostic(&finding, &sf).expect("should produce a diagnostic");
    assert_eq!(diag.range.start.line, 9, "diagnostic should point to line 10 (0-based: 9)");
    assert_eq!(diag.range.start.character, 0);
}

#[test]
fn finding_with_details_path_and_line_uses_details_line() {
    let path = "/tmp/test-doc2.md";
    let mut finding = Finding::new(
        RuleName::IncompleteDecision,
        Some("test/doc".into()),
        "Decision has no Rationale".into(),
        Some(dummy_source_pos(10, 1)),
    );
    finding.details = Some(FindingDetails {
        path: Some(path.into()),
        line: Some(5),
        column: Some(3),
        ..Default::default()
    });
    let mut sf = docs(&[("test/doc", path)]);
    sf.texts.push(FileText { path: path.into(), text: "line1\nline2\nline3\nline4\nline5\n".into() });
    let (_, diag) = finding_to_diagnostic(&finding, &sf).expect("should produce a diagnostic");
    assert_eq!(diag.range.start.line, 4, "should use details.line (5 -> 0-based 4)");
    assert_eq!(diag.range.start.character, 2);
}

#[test]
fn finding_diagnostic_attaches_verify_data() {
    let finding = Finding::new(
        RuleName::MissingRequiredComponent,
        Some("REQ-001".into()),
        "missing required component".into(),
        None,
    );
    let (path, diag) = finding_to_diagnostic(&finding, &docs(&[("REQ-001", "/tmp/finding-data.md")]))
        .expect("should produce a diagnostic");
    assert_eq!(path, "file:///tmp/finding-data.md");
    let data = diag.data.clone().unwrap();
    assert_eq!(data.source, DiagnosticSource::Verify(RuleName::MissingRequiredComponent));
    assert_eq!(data.doc_id.as_deref(), Some("REQ-001"));
    assert!(matches!(data.context, ActionContext::NoContext));
}

#[test]
fn finding_severity_off_is_not_published() {
    let mut finding = Finding::new(RuleName::Other("StaleTrackedFiles".into()), Some("REQ-001".into()), "x".into(), None);
    finding.effective_severity = supersigil_lsp::diagnostics::ReportSeverity::Off;
    assert!(finding_to_diagnostic(&finding, &docs(&[("REQ-001", "/tmp/a.md")])).is_none());
}

#[test]
fn example_coverable_finding_is_a_hint() {
    let mut finding = Finding::new(RuleName::Other("StaleTrackedFiles".into()), Some("REQ-001".into()), "x".into(), None);
    finding.details = Some(FindingDetails { example_coverable: true, ..Default::default() });
    let (_, diag) = finding_to_diagnostic(&finding, &docs(&[("REQ-001", "/tmp/a.md")])).unwrap();
    assert_eq!(diag.severity, Some(DiagnosticSeverity::Hint));
}

#[test]
fn finding_without_file_is_not_published() {
    let finding = Finding::new(RuleName::Other("StaleTrackedFiles".into()), Some("REQ-001".into()), "x".into(), None);
    assert!(finding_to_diagnostic(&finding, &docs(&[])).is_none());
}

// -- parse errors and warnings --

#[test]
fn orphan_code_ref_diagnostic_uses_correct_line_from_byte_offset() {
    let buffer = "line1\nline2\norphan ref here\n";
    let err = ParseError::OrphanCodeRef {
        path: "/tmp/orphan-ref.md".into(),
        target: "some-target".into(),
        content_offset: 12,
    };
    let (_, diag) = parse_error_to_diagnostic(&err, Some(buffer), None);
    assert_eq!(diag.range.start.line, 2, "orphan code ref should point to line 3 (0-based: 2)");
    assert_eq!(diag.range.start.character, 0, "orphan code ref should point to column 1");
}

#[test]
fn dual_source_conflict_diagnostic_uses_correct_line_from_byte_offset() {
    let buffer = "line1\nline2\nline3\ndual source here\n";
    let err = ParseError::DualSourceConflict {
        path: "/tmp/dual-source.md".into(),
        target: "some-target".into(),
        content_offset: 18,
    };
    let (_, diag) = parse_error_to_diagnostic(&err, Some(buffer), None);
    assert_eq!(diag.range.start.line, 3, "dual source conflict should point to line 4 (0-based: 3)");
}

#[test]
fn code_ref_offset_past_end_is_clamped() {
    let buffer = "ab\ncd";
    let warn = ParseWarning::OrphanCodeRef {
        path: "/tmp/w.md".into(),
        target: "t".into(),
        content_offset: 99,
    };
    let (_, diag) = parse_warning_to_diagnostic(&warn, Some(buffer), None);
    assert_eq!(diag.range.start.line, 1);
    assert_eq!(diag.range.start.character, 2);
    assert_eq!(diag.severity, Some(DiagnosticSeverity::Warning));
}

#[test]
fn parse_error_missing_attribute_attaches_data() {
    let err = ParseError::MissingRequiredAttribute {
        path: "/tmp/parse-attr.md".into(),
        component: "Criterion".into(),
        attribute: "id".into(),
        position: SourcePosition { line: 1, column: 1 },
    };
    let (_, diag) = parse_error_to_diagnostic(&err, None, None);
    let data = diag.data.clone().unwrap();
    assert_eq!(
        data.source,
        DiagnosticSource::Parse(ParseDiagnosticKind::MissingRequiredAttribute)
    );
    assert!(data.doc_id.is_none());
    match &data.context {
        ActionContext::MissingAttribute { component, attribute } => {
            assert_eq!(component, "Criterion");
            assert_eq!(attribute, "id");
        }
        other => panic!("expected MissingAttribute, got {other:?}"),
    }
    assert_eq!(diag.message, "missing required attribute `id` on `<Criterion>`");
}

#[test]
fn parse_error_xml_syntax_attaches_data() {
    let err = ParseError::XmlSyntaxError {
        path: "/tmp/parse-xml.md".into(),
        line: 3,
        column: 5,
        message: "unexpected EOF".into(),
    };
    let (_, diag) = parse_error_to_diagnostic(&err, None, None);
    let data = diag.data.clone().unwrap();
    assert_eq!(data.source, DiagnosticSource::Parse(ParseDiagnosticKind::XmlSyntaxError));
    assert!(matches!(data.context, ActionContext::NoContext));
    assert_eq!(diag.range.start.line, 2);
    assert_eq!(diag.range.start.character, 4);
}

#[test]
fn parse_error_unclosed_frontmatter_attaches_data() {
    let err = ParseError::UnclosedFrontMatter { path: "/tmp/parse-fm.md".into() };
    let (_, diag) = parse_error_to_diagnostic(&err, None, None);
    let data = diag.data.clone().unwrap();
    assert_eq!(data.source, DiagnosticSource::Parse(ParseDiagnosticKind::UnclosedFrontmatter));
}

#[test]
fn parse_error_duplicate_code_ref_attaches_data() {
    let err = ParseError::DuplicateCodeRef { path: "/tmp/parse-dup.md".into(), target: "comp-1".into() };
    let (_, diag) = parse_error_to_diagnostic(&err, None, None);
    let data = diag.data.clone().unwrap();
    assert_eq!(data.source, DiagnosticSource::Parse(ParseDiagnosticKind::DuplicateCodeRef));
}

#[test]
fn parse_error_other_variants_attach_other_kind() {
    let err = ParseError::MissingId { path: "/tmp/parse-id.md".into() };
    let (_, diag) = parse_error_to_diagnostic(&err, None, None);
    let data = diag.data.clone().unwrap();
    assert_eq!(data.source, DiagnosticSource::Parse(ParseDiagnosticKind::Other));
}

#[test]
fn parse_warning_duplicate_code_ref_attaches_data() {
    let warn = ParseWarning::DuplicateCodeRef { path: "/tmp/warn-dup.md".into(), target: "comp-1".into() };
    let (_, diag) = parse_warning_to_diagnostic(&warn, None, None);
    let data = diag.data.clone().unwrap();
    assert_eq!(data.source, DiagnosticSource::Parse(ParseDiagnosticKind::DuplicateCodeRef));
    assert!(matches!(data.context, ActionContext::NoContext));
}

#[test]
fn xml_error_position_uses_disk_text_without_buffer() {
    let err = ParseError::XmlSyntaxError {
        path: "/tmp/x.md".into(),
        line: 2,
        column: 3,
        message: "bad".into(),
    };
    let (_, diag) = parse_error_to_diagnostic(&err, None, Some("a\n😀😀\n"));
    // Byte column 2 lies inside the first emoji: one character of two units.
    assert_eq!(diag.range.start.character, 2);
}

#[test]
fn diagnostic_urls_take_relative_paths_from_the_root() {
    let err = GraphError::DuplicateId { id: "X".into(), paths: vec!["specs/a b.md".into(), "/abs/c.md".into()] };
    let pairs = graph_error_to_diagnostic(&err);
    assert_eq!(pairs[0].0, "file:///specs/a%20b.md");
    assert_eq!(pairs[1].0, "file:///abs/c.md");
}
