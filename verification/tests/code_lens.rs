use supersigil_lsp::code_lens::{
    build_code_lenses, document_coverage, find_frontmatter_id_line, pluralize, CodeLens,
    Component, CriterionEvidence, CriterionRefs, DocumentLinks, LensCommand,
};

fn make_criterion(id: &str, line: usize) -> Component {
    Component { name: "Criterion".into(), id: Some(id.into()), refs: None, line, children: vec![] }
}

fn make_acceptance_criteria(children: Vec<Component>, line: usize) -> Component {
    Component { name: "AcceptanceCriteria".into(), id: None, refs: None, line, children }
}

fn no_links() -> DocumentLinks {
    DocumentLinks { doc_refs: vec![], criterion_refs: vec![], implemented_by: vec![], depended_on_by: vec![] }
}

/// `test/req` with criteria crit-a and crit-b; `test/design` refers to crit-a.
fn req_with_reference() -> (Vec<Component>, DocumentLinks) {
    let components = vec![make_acceptance_criteria(
        vec![make_criterion("crit-a", 5), make_criterion("crit-b", 8)],
        3,
    )];
    let links = DocumentLinks {
        criterion_refs: vec![CriterionRefs { criterion: "crit-a".into(), docs: vec!["test/design".into()] }],
        ..no_links()
    };
    (components, links)
}

fn evidence_for(entries: &[(&str, usize)]) -> Vec<CriterionEvidence> {
    entries
        .iter()
        .map(|(c, n)| CriterionEvidence { criterion: (*c).into(), count: *n })
        .collect()
}

fn sample_content() -> &'static str {
    "---\nsupersigil:\n  id: test/req\n  type: requirements\n---\n\nSome text."
}

fn lens_title(lens: &CodeLens) -> &str {
    match &lens.command {
        LensCommand::Noop { title } => title,
        LensCommand::FindReferences { title, .. } => title,
    }
}

// --- Document lens ---

#[test]
fn document_lens_with_refs_and_criteria() {
    let (components, links) = req_with_reference();
    let evidence = evidence_for(&[("crit-a", 1)]);
    let lenses = build_code_lenses(&components, "/p/req.md", sample_content(), &links, Some(&evidence));
    let doc_lens = &lenses[0];
    assert_eq!(doc_lens.range.start.line, 2);
    let title = lens_title(doc_lens);
    assert!(
        title.contains("1 reference") && title.contains("1/2 criteria verified (50%)"),
        "unexpected title: {title}"
    );
    assert_eq!(title, "1 reference | 1/2 criteria verified (50%)");
}

#[test]
fn document_lens_no_criteria() {
    let links = DocumentLinks { depended_on_by: vec!["ref".into()], ..no_links() };
    let content = "---\nsupersigil:\n  id: target\n---\n";
    let lenses = build_code_lenses(&[], "/p/target.md", content, &links, Some(&[]));
    assert_eq!(lenses.len(), 1);
    let title = lens_title(&lenses[0]);
    assert_eq!(title, "1 reference");
    assert!(!title.contains("criteria"), "should not mention criteria");
}

#[test]
fn document_lens_no_refs_but_criteria() {
    let components = vec![make_acceptance_criteria(vec![make_criterion("c1", 5)], 3)];
    let content = "---\nsupersigil:\n  id: lonely\n---\n";
    let lenses = build_code_lenses(&components, "/p/l.md", content, &no_links(), Some(&[]));
    assert!(!lenses.is_empty());
    let title = lens_title(&lenses[0]);
    assert!(title.contains("0/1 criteria verified (0%)"), "unexpected title: {title}");
    assert!(!title.contains("reference"), "should not mention references");
}

#[test]
fn document_lens_no_refs_no_criteria() {
    let content = "---\nsupersigil:\n  id: empty\n---\n";
    let lenses = build_code_lenses(&[], "/p/e.md", content, &no_links(), Some(&[]));
    assert!(lenses.is_empty(), "should emit no lenses: {lenses:?}");
}

#[test]
fn document_ref_count_includes_fragment_refs_deduplicated() {
    let components = vec![make_acceptance_criteria(vec![make_criterion("crit-a", 5)], 3)];
    let links = DocumentLinks {
        doc_refs: vec!["test/design".into()],
        criterion_refs: vec![CriterionRefs { criterion: "crit-a".into(), docs: vec!["test/design".into()] }],
        ..no_links()
    };
    let evidence = evidence_for(&[("crit-a", 1)]);
    let lenses = build_code_lenses(&components, "/p/req.md", sample_content(), &links, Some(&evidence));
    let title = lens_title(&lenses[0]);
    assert!(title.starts_with("1 reference"), "should deduplicate to 1 reference, got: {title}");
}

#[test]
fn document_ref_count_counts_distinct_documents() {
    let components = vec![make_criterion("c1", 5), make_criterion("c2", 6)];
    let links = DocumentLinks {
        doc_refs: vec!["a".into()],
        criterion_refs: vec![
            CriterionRefs { criterion: "c1".into(), docs: vec!["b".into(), "a".into()] },
            CriterionRefs { criterion: "c2".into(), docs: vec!["c".into()] },
        ],
        implemented_by: vec!["d".into(), "b".into()],
        depended_on_by: vec!["e".into()],
    };
    let lenses = build_code_lenses(&components, "/p/x.md", sample_content(), &links, None);
    assert_eq!(lens_title(&lenses[0]), "5 references");
}

// --- Acceptance criteria lens ---

#[test]
fn ac_lens_shows_scoped_coverage() {
    let (components, links) = req_with_reference();
    let evidence = evidence_for(&[("crit-a", 1)]);
    let lenses = build_code_lenses(&components, "/p/req.md", sample_content(), &links, Some(&evidence));
    let ac_lens = lenses
        .iter()
        .skip(1)
        .find(|l| lens_title(l).contains("criteria verified") && l.range.start.line == 2)
        .expect("should find AC lens");
    assert_eq!(lens_title(ac_lens), "1/2 criteria verified (50%)");
}

#[test]
fn ac_lens_omitted_without_verify_data() {
    let (components, links) = req_with_reference();
    let lenses = build_code_lenses(&components, "/p/req.md", sample_content(), &links, None);
    let ac_lenses: Vec<_> = lenses
        .iter()
        .filter(|l| {
            let t = lens_title(l);
            t.contains("criteria verified") && !t.contains("reference")
        })
        .collect();
    assert!(ac_lenses.is_empty(), "AC lens should be omitted without verify data: {ac_lenses:?}");
}

// --- Criterion lens ---

#[test]
fn criterion_lens_with_refs_and_evidence() {
    let (components, links) = req_with_reference();
    let evidence = evidence_for(&[("crit-a", 1)]);
    let lenses = build_code_lenses(&components, "/p/req.md", sample_content(), &links, Some(&evidence));
    let crit_a_lens = lenses
        .iter()
        .find(|l| lens_title(l).contains("verified (1 test)"))
        .expect("should find crit-a lens with verified");
    assert_eq!(lens_title(crit_a_lens), "1 reference | verified (1 test)");
    assert_eq!(crit_a_lens.range.start.line, 4);
}

#[test]
fn criterion_lens_with_refs_not_verified() {
    let (components, links) = req_with_reference();
    let lenses = build_code_lenses(&components, "/p/req.md", sample_content(), &links, Some(&[]));
    let crit_a_lens = lenses
        .iter()
        .find(|l| {
            let t = lens_title(l);
            t.contains("1 reference") && t.contains("not verified")
        })
        .expect("should find crit-a lens with 'not verified'");
    assert_eq!(lens_title(crit_a_lens), "1 reference | not verified");
}

#[test]
fn criterion_lens_no_refs_but_verified() {
    let (components, links) = req_with_reference();
    let evidence = evidence_for(&[("crit-b", 2)]);
    let lenses = build_code_lenses(&components, "/p/req.md", sample_content(), &links, Some(&evidence));
    let crit_b_lens = lenses
        .iter()
        .find(|l| lens_title(l) == "verified (2 tests)")
        .expect("should find crit-b lens with 'verified (2 tests)'");
    assert!(!lens_title(crit_b_lens).contains("reference"));
}

#[test]
fn criterion_lens_no_refs_not_verified() {
    let (components, links) = req_with_reference();
    let lenses = build_code_lenses(&components, "/p/req.md", sample_content(), &links, Some(&[]));
    let crit_b_lens = lenses
        .iter()
        .find(|l| lens_title(l) == "not verified" && l.range.start.line == 7)
        .expect("should find crit-b 'not verified' lens");
    assert_eq!(lens_title(crit_b_lens), "not verified");
}

#[test]
fn criterion_lens_without_verify_data_shows_only_refs() {
    let (components, links) = req_with_reference();
    let lenses = build_code_lenses(&components, "/p/req.md", sample_content(), &links, None);
    let crit_a_lens = lenses
        .iter()
        .skip(1)
        .find(|l| lens_title(l) == "1 reference")
        .expect("should find crit-a with refs-only lens");
    assert!(!lens_title(crit_a_lens).contains("verified"));
}

#[test]
fn criterion_lens_no_refs_no_verify_data_omitted() {
    let (components, links) = req_with_reference();
    let lenses = build_code_lenses(&components, "/p/req.md", sample_content(), &links, None);
    let crit_b_lenses: Vec<_> = lenses.iter().filter(|l| l.range.start.line == 7).collect();
    assert!(crit_b_lenses.is_empty(), "crit-b should have no lens without verify data: {crit_b_lenses:?}");
}

// --- Click actions ---

#[test]
fn ref_count_lens_has_find_references_command() {
    let (components, links) = req_with_reference();
    let evidence = evidence_for(&[("crit-a", 1)]);
    let lenses = build_code_lenses(&components, "/p/req.md", sample_content(), &links, Some(&evidence));
    match &lenses[0].command {
        LensCommand::FindReferences { path, position, .. } => {
            assert_eq!(path, "/p/req.md");
            assert_eq!(position.line, 2);
            assert_eq!(position.character, 0);
        }
        other => panic!("expected a find-references command, got {other:?}"),
    }
}

#[test]
fn coverage_only_lens_has_no_find_references_command() {
    let components = vec![make_acceptance_criteria(vec![make_criterion("c1", 5)], 3)];
    let content = "---\nsupersigil:\n  id: lonely\n---\n";
    let lenses = build_code_lenses(&components, "/p/l.md", content, &no_links(), Some(&[]));
    assert!(matches!(lenses[0].command, LensCommand::Noop { .. }));
}

#[test]
fn code_lens_provider_advertised() {
    let _ = build_code_lenses(&[], "/p/t.md", "", &no_links(), None);
}

// --- Edge cases ---

#[test]
fn multiple_ac_blocks_scoped_independently() {
    let components = vec![
        make_acceptance_criteria(vec![make_criterion("a1", 5)], 3),
        make_acceptance_criteria(vec![make_criterion("b1", 12), make_criterion("b2", 15)], 10),
    ];
    let evidence = evidence_for(&[("a1", 1)]);
    let content = "---\nsupersigil:\n  id: multi\n---\n";
    let lenses = build_code_lenses(&components, "/p/m.md", content, &no_links(), Some(&evidence));
    let ac_titles: Vec<&str> = lenses
        .iter()
        .map(lens_title)
        .filter(|t| t.contains("criteria verified") && !t.contains("reference") && !t.contains("1/3"))
        .collect();
    assert_eq!(ac_titles.len(), 2, "should have 2 AC lenses: {ac_titles:?}");
    assert!(ac_titles.contains(&"1/1 criteria verified (100%)"));
    assert!(ac_titles.contains(&"0/2 criteria verified (0%)"));
}

#[test]
fn verify_ran_but_empty_evidence() {
    let components = vec![make_acceptance_criteria(vec![make_criterion("c1", 5)], 3)];
    let content = "---\nsupersigil:\n  id: test\n---\n";
    let lenses = build_code_lenses(&components, "/p/t.md", content, &no_links(), Some(&[]));
    assert!(lenses.iter().any(|l| lens_title(l).contains("0/1 criteria verified (0%)")));
    assert!(lenses.iter().any(|l| lens_title(l) == "not verified"));
}

#[test]
fn percentage_rounds_down() {
    let components = vec![make_acceptance_criteria(
        vec![make_criterion("a", 2), make_criterion("b", 3), make_criterion("c", 4)],
        1,
    )];
    let evidence = evidence_for(&[("a", 1), ("b", 0)]);
    let lenses = build_code_lenses(&components, "/p/t.md", "", &no_links(), Some(&evidence));
    assert_eq!(lens_title(&lenses[0]), "1/3 criteria verified (33%)");
}

// --- Helpers ---

#[test]
fn frontmatter_id_line_found_and_fallback() {
    assert_eq!(find_frontmatter_id_line(sample_content()), 3);
    assert_eq!(find_frontmatter_id_line("no frontmatter\nid: x\n"), 1);
    assert_eq!(find_frontmatter_id_line("---\ntitle: a\n---\nid: x\n"), 1);
    assert_eq!(find_frontmatter_id_line("---\n  id: x\n---\n"), 2);
}

#[test]
fn coverage_counts() {
    let ids: Vec<String> = vec!["a".into(), "b".into()];
    assert_eq!(document_coverage(&ids, None), (2, 0));
    let evidence = evidence_for(&[("b", 3)]);
    assert_eq!(document_coverage(&ids, Some(&evidence)), (2, 1));
}

#[test]
fn pluralize_words() {
    assert_eq!(pluralize("reference", 1), "reference");
    assert_eq!(pluralize("reference", 2), "references");
    assert_eq!(pluralize("test", 0), "tests");
    assert_eq!(pluralize("criterion", 2), "criterion");
}

#[test]
fn coverage_never_exceeds_the_criteria() {
    let ids: Vec<String> = vec!["c1".into(), "c2".into()];
    let evidence = vec![
        CriterionEvidence { criterion: "c1".into(), count: 2 },
        CriterionEvidence { criterion: "c3".into(), count: 5 },
        CriterionEvidence { criterion: "c2".into(), count: 0 },
        CriterionEvidence { criterion: "c4".into(), count: 1 },
    ];
    let (total, verified) = document_coverage(&ids, Some(&evidence));
    assert_eq!((total, verified), (2, 1));
    assert!(verified * 100 / total <= 100);
}
