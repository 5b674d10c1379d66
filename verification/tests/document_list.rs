use supersigil_lsp::requests::{build_document_entries, DocumentRecord};

fn make_doc_with_type(id: &str, doc_type: Option<&str>, status: Option<&str>) -> DocumentRecord {
    DocumentRecord {
        id: id.to_owned(),
        doc_type: doc_type.map(str::to_owned),
        status: status.map(str::to_owned),
        path: format!("specs/{id}.md"),
        project: None,
    }
}

#[test]
fn empty_graph_returns_empty_list() {
    assert!(build_document_entries(&[], "/project").is_empty());
}

#[test]
fn single_project_returns_documents_with_relative_paths() {
    let docs = vec![
        make_doc_with_type("feature/req", Some("requirements"), Some("approved")),
        make_doc_with_type("feature/design", Some("design"), Some("draft")),
    ];
    let entries = build_document_entries(&docs, "");
    assert_eq!(entries.len(), 2);
    let req = entries.iter().find(|e| e.id == "feature/req").unwrap();
    assert_eq!(req.doc_type, "requirements");
    assert_eq!(req.status.as_deref(), Some("approved"));
    assert_eq!(req.path, "specs/feature/req.md");
    assert_eq!(req.project, None);
    let design = entries.iter().find(|e| e.id == "feature/design").unwrap();
    assert_eq!(design.doc_type, "design");
    assert_eq!(design.status.as_deref(), Some("draft"));
    assert_eq!(design.project, None);
}

#[test]
fn multi_project_returns_project_assignment() {
    let mut doc_a = make_doc_with_type("core/req", Some("requirements"), Some("approved"));
    doc_a.path = "frontend/specs/core/req.md".into();
    doc_a.project = Some("frontend".into());
    let mut doc_b = make_doc_with_type("api/req", Some("requirements"), None);
    doc_b.path = "backend/specs/api/req.md".into();
    doc_b.project = Some("backend".into());
    let entries = build_document_entries(&[doc_a, doc_b], "");
    assert_eq!(entries.len(), 2);
    assert_eq!(entries.iter().find(|e| e.id == "core/req").unwrap().project.as_deref(), Some("frontend"));
    assert_eq!(entries.iter().find(|e| e.id == "api/req").unwrap().project.as_deref(), Some("backend"));
}

#[test]
fn entries_are_sorted_by_id() {
    let docs = vec![
        make_doc_with_type("z/req", Some("requirements"), None),
        make_doc_with_type("a/req", Some("requirements"), None),
        make_doc_with_type("m/req", Some("requirements"), None),
    ];
    let entries = build_document_entries(&docs, "");
    let ids: Vec<&str> = entries.iter().map(|e| e.id.as_str()).collect();
    assert_eq!(ids, vec!["a/req", "m/req", "z/req"]);
}

#[test]
fn document_without_type_returns_empty_string() {
    let entries = build_document_entries(&[make_doc_with_type("standalone", None, None)], "");
    assert_eq!(entries.len(), 1);
    assert_eq!(entries[0].doc_type, "");
    assert_eq!(entries[0].status, None);
}

#[test]
fn absolute_path_is_made_relative() {
    let mut doc = make_doc_with_type("feature/req", Some("requirements"), None);
    doc.path = "/project/root/specs/feature/req.md".into();
    let entries = build_document_entries(&[doc], "/project/root");
    assert_eq!(entries[0].path, "specs/feature/req.md");
}

#[test]
fn path_outside_root_is_kept_and_prefix_is_component_wise() {
    let mut doc = make_doc_with_type("feature/req", Some("requirements"), None);
    doc.path = "/project/rooted/specs/req.md".into();
    let entries = build_document_entries(&[doc], "/project/root");
    assert_eq!(entries[0].path, "/project/rooted/specs/req.md");
}
