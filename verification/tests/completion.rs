use supersigil_lsp::completion::{
    detect_context, find_enclosing_component, is_in_frontmatter, CompletionContext, StatusContext,
};

// -- is_in_frontmatter --

#[test]
fn frontmatter_line_inside() {
    let content = "---\ntitle: Hello\nstatus: draft\n---\nbody";
    assert!(is_in_frontmatter(content, 1));
    assert!(is_in_frontmatter(content, 2));
}

#[test]
fn frontmatter_line_outside() {
    let content = "---\ntitle: Hello\n---\nbody";
    assert!(!is_in_frontmatter(content, 3));
}

#[test]
fn frontmatter_on_closing_delimiter() {
    let content = "---\ntitle: Hello\n---\nbody";
    // Line 2 is the closing `---`: a cursor on it is not inside.
    assert!(!is_in_frontmatter(content, 2));
}

#[test]
fn completion_no_frontmatter() {
    let content = "just body text";
    assert!(!is_in_frontmatter(content, 0));
}

// -- find_enclosing_component --

#[test]
fn finds_task_component() {
    let content = "<Task\n  id=\"task-1\"\n  status=\"";
    assert_eq!(find_enclosing_component(content, 2), Some("Task".to_owned()));
}

#[test]
fn finds_alternative_component() {
    let content = "<Decision id=\"d1\">\n<Alternative id=\"a1\" status=\"";
    assert_eq!(
        find_enclosing_component(content, 1),
        Some("Alternative".to_owned())
    );
}

#[test]
fn skips_closing_tags() {
    let content = "</Task>\n<Alternative id=\"a1\" status=\"";
    assert_eq!(
        find_enclosing_component(content, 1),
        Some("Alternative".to_owned())
    );
}

#[test]
fn skips_lowercase_html() {
    let content = "<div>\n<Task status=\"";
    assert_eq!(find_enclosing_component(content, 1), Some("Task".to_owned()));
}

// -- detect_context with status --

#[test]
fn status_in_frontmatter() {
    let content = "---\nsupersigil:\n  id: test\n  status: \n---";
    // YAML frontmatter uses `: `, not `="`, so no attribute context matches.
    let ctx = detect_context(content, 3, 10);
    assert_eq!(ctx, CompletionContext::NoContext);
}

#[test]
fn status_on_task_component() {
    let content = "<Task\n  id=\"task-1\"\n  status=\"dr";
    let ctx = detect_context(content, 2, 13);
    assert_eq!(
        ctx,
        CompletionContext::AttributeStatus {
            prefix: "dr".to_owned(),
            context: StatusContext::Task,
        }
    );
}

#[test]
fn status_on_alternative() {
    let content = "<Decision id=\"d1\">\n  <Alternative id=\"a1\" status=\"rej";
    let ctx = detect_context(content, 1, 51);
    assert_eq!(
        ctx,
        CompletionContext::AttributeStatus {
            prefix: "rej".to_owned(),
            context: StatusContext::Alternative,
        }
    );
}

#[test]
fn strategy_on_verified_by() {
    let content = "<VerifiedBy strategy=\"ta";
    let ctx = detect_context(content, 0, content.len() as u32);
    assert_eq!(
        ctx,
        CompletionContext::AttributeStrategy {
            prefix: "ta".to_owned(),
            component: Some("VerifiedBy".to_owned()),
        }
    );
}
