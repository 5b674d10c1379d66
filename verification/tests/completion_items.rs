use supersigil_lsp::completion::StatusContext;
use supersigil_lsp::completion_items::{
    build_component_snippet, complete, complete_component_names, complete_document_ids,
    complete_fragment_ids, complete_status, complete_strategy, filter_to_completion_items,
    CompletionItemKind, DocumentSummary, FragmentSummary, InsertTextFormat,
};
use supersigil_lsp::component_defs::{AttributeDef, ComponentDef};

fn labels(items: &[supersigil_lsp::completion_items::CompletionItem]) -> Vec<&str> {
    items.iter().map(|i| i.label.as_str()).collect()
}

fn attr(name: &str, required: bool) -> AttributeDef {
    AttributeDef { name: name.into(), required, list: false }
}

fn defs() -> Vec<ComponentDef> {
    vec![
        ComponentDef {
            name: "Task".into(),
            attributes: vec![attr("status", true), attr("implements", false), attr("id", true)],
            referenceable: true,
            verifiable: false,
            description: None,
        },
        ComponentDef { name: "References".into(), attributes: vec![attr("refs", true)], referenceable: false, verifiable: false, description: None },
        ComponentDef { name: "TrackedFiles".into(), attributes: vec![], referenceable: false, verifiable: false, description: None },
        ComponentDef { name: "Rationale".into(), attributes: vec![], referenceable: true, verifiable: false, description: None },
    ]
}

// -- complete_status --

#[test]
fn task_status_completions() {
    let items = complete_status("", &StatusContext::Task, None);
    assert_eq!(labels(&items), vec!["done", "draft", "in-progress", "ready"]);
}

#[test]
fn alternative_status_completions() {
    let items = complete_status("", &StatusContext::Alternative, None);
    assert_eq!(labels(&items), vec!["deferred", "rejected", "superseded"]);
}

#[test]
fn expected_status_no_completions() {
    assert!(complete_status("", &StatusContext::Expected, None).is_empty());
}

#[test]
fn frontmatter_status_from_config() {
    let statuses: Vec<String> =
        vec!["draft".into(), "review".into(), "approved".into(), "implemented".into()];
    let items = complete_status("", &StatusContext::Frontmatter, Some(&statuses));
    assert_eq!(labels(&items), vec!["approved", "draft", "implemented", "review"]);
}

#[test]
fn frontmatter_status_unknown_doc_type_no_completions() {
    assert!(complete_status("", &StatusContext::Frontmatter, None).is_empty());
}

#[test]
fn status_items_are_enum_members_with_detail() {
    let items = complete_status("in", &StatusContext::Task, None);
    assert_eq!(items.len(), 1);
    assert_eq!(items[0].label, "in-progress");
    assert_eq!(items[0].kind, Some(CompletionItemKind::EnumMember));
    assert_eq!(items[0].detail.as_deref(), Some("Supersigil"));
}

// -- complete_strategy --

#[test]
fn strategy_on_verified_by_completions() {
    let items = complete_strategy("", Some("VerifiedBy"));
    assert_eq!(labels(&items), vec!["file-glob", "tag"]);
}

#[test]
fn strategy_on_other_component_no_completions() {
    assert!(complete_strategy("", Some("Task")).is_empty());
}

#[test]
fn strategy_prefix_filter() {
    let items = complete_strategy("t", Some("VerifiedBy"));
    assert_eq!(items.len(), 1);
    assert_eq!(items[0].label, "tag");
}

// -- filter_to_completion_items --

#[test]
fn filter_keeps_prefixed_values_sorted_with_duplicates() {
    let items = filter_to_completion_items(&["b", "ab", "a", "b", "c"], "");
    assert_eq!(labels(&items), vec!["a", "ab", "b", "b", "c"]);
    let items = filter_to_completion_items(&["b", "ab", "a"], "a");
    assert_eq!(labels(&items), vec!["a", "ab"]);
}

// -- complete_document_ids / complete_fragment_ids --

#[test]
fn document_ids_filtered_sorted_and_detailed() {
    let docs = vec![
        DocumentSummary { id: "auth/req".into(), doc_type: Some("requirements".into()) },
        DocumentSummary { id: "billing/req".into(), doc_type: None },
        DocumentSummary { id: "auth/design".into(), doc_type: Some("design".into()) },
    ];
    let items = complete_document_ids("auth", &docs);
    assert_eq!(labels(&items), vec!["auth/design", "auth/req"]);
    assert_eq!(items[0].detail.as_deref(), Some("design"));
    assert_eq!(items[0].kind, Some(CompletionItemKind::Reference));
    let all = complete_document_ids("", &docs);
    assert_eq!(all[2].detail.as_deref(), Some("billing/req"));
}

#[test]
fn fragment_ids_of_one_document_with_previews() {
    let long = "x".repeat(70);
    let frags = vec![
        FragmentSummary { doc_id: "auth/req".into(), id: "req-2".into(), body_text: Some(long.clone()) },
        FragmentSummary { doc_id: "other/req".into(), id: "req-1".into(), body_text: None },
        FragmentSummary { doc_id: "auth/req".into(), id: "req-1".into(), body_text: Some("Short body".into()) },
        FragmentSummary { doc_id: "auth/req".into(), id: "crit-1".into(), body_text: None },
    ];
    let items = complete_fragment_ids("auth/req", "req", &frags);
    assert_eq!(labels(&items), vec!["req-1", "req-2"]);
    assert_eq!(items[0].detail.as_deref(), Some("Short body"));
    assert_eq!(items[1].detail, Some(format!("{}…", "x".repeat(60))));
}

#[test]
fn fragment_preview_counts_characters_and_bytes() {
    let text = "é".repeat(40);
    let frags = vec![FragmentSummary { doc_id: "d".into(), id: "f".into(), body_text: Some(text.clone()) }];
    let items = complete_fragment_ids("d", "", &frags);
    assert_eq!(items[0].detail, Some(format!("{text}…")));
}

// -- component names and snippets --

#[test]
fn component_names_with_snippets() {
    let defs = defs();
    let items = complete_component_names("", &defs);
    assert_eq!(labels(&items), vec!["Rationale", "References", "Task", "TrackedFiles"]);
    assert_eq!(items[2].insert_text.as_deref(), Some("Task id=\"$1\" status=\"$2\">\n$3\n</Task>"));
    assert_eq!(items[1].insert_text.as_deref(), Some("References refs=\"$1\" />"));
    assert_eq!(items[0].insert_text.as_deref(), Some("Rationale>\n$1\n</Rationale>"));
    assert_eq!(items[3].insert_text.as_deref(), Some("TrackedFiles />"));
    assert_eq!(items[0].insert_text_format, Some(InsertTextFormat::Snippet));
    assert_eq!(items[0].kind, Some(CompletionItemKind::Class));
    let items = complete_component_names("Tr", &defs);
    assert_eq!(labels(&items), vec!["TrackedFiles"]);
}

#[test]
fn snippet_for_a_definition() {
    let defs = defs();
    assert_eq!(build_component_snippet("Task", &defs[0]), "Task id=\"$1\" status=\"$2\">\n$3\n</Task>");
}

// -- complete --

#[test]
fn complete_dispatches_on_the_context() {
    let defs = defs();
    let docs = vec![DocumentSummary { id: "auth/req".into(), doc_type: None }];
    let content = "```supersigil-xml\n<Task status=\"dr\" refs=\"au\" />\n<Tr\n```\n";
    let status = complete(content, 1, 16, &docs, &[], &defs, None);
    assert_eq!(labels(&status), vec!["draft"]);
    let refs = complete(content, 1, 26, &docs, &[], &defs, None);
    assert_eq!(labels(&refs), vec!["auth/req"]);
    let names = complete(content, 2, 3, &docs, &[], &defs, None);
    assert_eq!(labels(&names), vec!["TrackedFiles"]);
    assert!(complete("plain text", 0, 3, &docs, &[], &defs, None).is_empty());
}
