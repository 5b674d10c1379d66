use supersigil_lsp::component_defs::{AttributeDef, ComponentDef};
use supersigil_lsp::hover::{
    file_link,
    document_hover_text, fragment_hover_text, hover_component, hover_target, line_link_exec, split_ref,
    HoverTarget,
};

fn defs() -> Vec<ComponentDef> {
    vec![
        ComponentDef {
            name: "Task".into(),
            attributes: vec![
                AttributeDef { name: "status".into(), required: true, list: false },
                AttributeDef { name: "depends".into(), required: false, list: true },
                AttributeDef { name: "id".into(), required: true, list: false },
            ],
            referenceable: true,
            verifiable: false,
            description: Some("A unit of work.".into()),
        },
        ComponentDef { name: "Rationale".into(), attributes: vec![], referenceable: false, verifiable: false, description: None },
    ]
}

#[test]
fn component_hover_lists_sorted_attributes() {
    let md = hover_component("Task", &defs()).unwrap();
    assert_eq!(
        md,
        "### Task\n\nA unit of work.\n\n| Attribute | Required | List |\n|-----------|----------|------|\n| depends | no | yes |\n| id | yes | no |\n| status | yes | no |\n\nReferenceable: yes | Verifiable: no\n"
    );
}

#[test]
fn component_hover_without_attributes() {
    let md = hover_component("Rationale", &defs()).unwrap();
    assert_eq!(md, "### Rationale\n\n_No attributes._\n\nReferenceable: no | Verifiable: no\n");
}

#[test]
fn component_hover_for_unknown_component_is_none() {
    assert!(hover_component("Unknown", &defs()).is_none());
}

#[test]
fn ref_hover_texts() {
    assert_eq!(split_ref("auth/req#crit-1"), ("auth/req", Some("crit-1")));
    assert_eq!(split_ref("auth/req"), ("auth/req", None));
    assert_eq!(split_ref("a#b#c"), ("a", Some("b#c")));
    assert_eq!(
        fragment_hover_text("Auth", "Criterion", "crit-1", "file:///x.md#4", Some("Must log in.")),
        "### [Auth — Criterion `crit-1`](file:///x.md#4)\n\n> Must log in.\n"
    );
    assert_eq!(
        document_hover_text("Auth", Some("requirements"), None, "file:///x.md"),
        "### [Auth](file:///x.md)\n\n**Type:** requirements | **Status:** unknown\n"
    );
    assert_eq!(line_link_exec("file:///x.md", Some(4)), "file:///x.md#4");
    assert_eq!(line_link_exec("file:///x.md", Some(0)), "file:///x.md");
    assert_eq!(line_link_exec("file:///x.md", None), "file:///x.md");
}

#[test]
fn hover_target_inside_fences_only() {
    let content = "<Task />\n```supersigil-xml\n<Task refs=\"auth/req#c-1\" />\n```\n";
    assert_eq!(hover_target(content, 0, 2), None);
    assert_eq!(hover_target(content, 2, 2), Some(HoverTarget::Component("Task".into())));
    assert_eq!(hover_target(content, 2, 15), Some(HoverTarget::Ref("auth/req#c-1".into())));
    assert_eq!(hover_target(content, 2, 6), None);
}

#[test]
fn file_link_carries_the_line_anchor() {
    assert_eq!(file_link("/specs/a b.md", Some(12)), "file:///specs/a%20b.md#12");
    assert_eq!(file_link("/specs/a.md", Some(0)), "file:///specs/a.md");
    assert_eq!(file_link("/specs/a.md", None), "file:///specs/a.md");
    assert_eq!(file_link("specs/a.md", Some(3)), "file://specs/a.md#3");
}
