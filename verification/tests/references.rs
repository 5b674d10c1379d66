use supersigil_lsp::references::{
    extract_id_attribute_on_line, find_reference_target, find_supersigil_ref_at_position,
    is_in_frontmatter,
};



#[test]
fn ref_string_detected_as_target() {
    let content = "---\nsupersigil:\n  id: test\n---\n\n```supersigil-xml\n<Implements refs=\"auth/req#login\" />\n```";
    let result = find_reference_target(content, 6, 24, "test");
    assert_eq!(
        result,
        Some(("auth/req".to_owned(), Some("login".to_owned())))
    );
}

#[test]
fn ref_string_document_level() {
    let content = "```supersigil-xml\n<DependsOn refs=\"other/doc\" />\n```";
    let result = find_reference_target(content, 1, 20, "test");
    assert_eq!(result, Some(("other/doc".to_owned(), None)));
}

#[test]
fn supersigil_ref_detected_as_target() {
    let content = "---\nsupersigil:\n  id: my/spec\n---\n\n```sh supersigil-ref=echo-test\necho hello\n```";
    let result = find_reference_target(content, 5, 10, "my/spec");
    assert_eq!(
        result,
        Some(("my/spec".to_owned(), Some("echo-test".to_owned())))
    );
}

#[test]
fn supersigil_ref_with_fragment() {
    // The #expected sub-fragment is an internal code-ref, not a graph-level ID.
    // The target should be the Example component name ("my-example").
    let content = "```sh supersigil-ref=my-example#expected\nsome content\n```";
    let result = find_reference_target(content, 0, 10, "doc");
    assert_eq!(
        result,
        Some(("doc".to_owned(), Some("my-example".to_owned())))
    );
}

#[test]
fn component_tag_with_id_detected() {
    let content = "```supersigil-xml\n<Criterion id=\"login-success\">\nThe user logs in.\n</Criterion>\n```";
    let result = find_reference_target(content, 1, 1, "auth/req");
    assert_eq!(
        result,
        Some(("auth/req".to_owned(), Some("login-success".to_owned())))
    );
}

#[test]
fn references_component_tag_without_id_returns_none() {
    let content = "```supersigil-xml\n<AcceptanceCriteria>\n</AcceptanceCriteria>\n```";
    let result = find_reference_target(content, 1, 1, "doc");
    assert_eq!(result, None);
}

#[test]
fn frontmatter_detected() {
    let content = "---\nsupersigil:\n  id: my-doc/req\n  type: requirements\n---\n\nSome text.";
    let result = find_reference_target(content, 2, 5, "my-doc/req");
    assert_eq!(result, Some(("my-doc/req".to_owned(), None)));
}

#[test]
fn outside_frontmatter_returns_none() {
    let content = "---\nsupersigil:\n  id: test\n---\n\nSome text outside.";
    let result = find_reference_target(content, 5, 0, "test");
    assert_eq!(result, None);
}

#[test]
fn ref_string_takes_priority_over_component_tag() {
    let content =
        "```supersigil-xml\n<Implements id=\"impl-1\" refs=\"other/doc#crit\" />\n```";
    let result = find_reference_target(content, 1, 38, "test");
    assert_eq!(
        result,
        Some(("other/doc".to_owned(), Some("crit".to_owned())))
    );
}

#[test]
fn frontmatter_boundary_lines_excluded() {
    let content = "---\nid: test\n---";
    assert!(!is_in_frontmatter(content, 0));
    assert!(is_in_frontmatter(content, 1));
    assert!(!is_in_frontmatter(content, 2));
}

#[test]
fn references_no_frontmatter() {
    let content = "No frontmatter here.\nJust text.";
    assert!(!is_in_frontmatter(content, 0));
    assert!(!is_in_frontmatter(content, 1));
}

#[test]
fn supersigil_ref_basic() {
    // "```sh supersigil-ref=echo-test" — cursor at 10 is on the token.
    let content = "```sh supersigil-ref=echo-test\necho hello\n```";
    let result = find_supersigil_ref_at_position(content, 0, 10);
    assert_eq!(result, Some(("echo-test".to_owned(), None)));
}

#[test]
fn supersigil_ref_with_fragment_parsed() {
    let content = "```json supersigil-ref=my-test#expected\n{}\n```";
    let result = find_supersigil_ref_at_position(content, 0, 10);
    assert_eq!(
        result,
        Some(("my-test".to_owned(), Some("expected".to_owned())))
    );
}

#[test]
fn non_fence_line_returns_none() {
    let content = "Just a regular line with supersigil-ref=something";
    let result = find_supersigil_ref_at_position(content, 0, 0);
    assert_eq!(result, None);
}

#[test]
fn extract_id_from_tag() {
    let content = "<Criterion id=\"login-success\">";
    assert_eq!(
        extract_id_attribute_on_line(content, 0),
        Some("login-success".to_owned())
    );
}

#[test]
fn extract_id_missing() {
    let content = "<AcceptanceCriteria>";
    assert_eq!(extract_id_attribute_on_line(content, 0), None);
}

// -- collect_references ---------------------------------------------------






// -- Bug fix tests --------------------------------------------------------


#[test]
fn supersigil_ref_with_fragment_uses_target_not_fragment() {
    // P3: supersigil-ref=my-example#expected should resolve to (doc_id, Some("my-example")),
    // not (doc_id, Some("expected")).
    let content = "```sh supersigil-ref=my-example#expected\nsome content\n```";
    // Cursor at 10 is on the supersigil-ref= token.
    let result = find_reference_target(content, 0, 10, "doc");
    assert_eq!(
        result,
        Some(("doc".to_owned(), Some("my-example".to_owned())))
    );
}

#[test]
fn supersigil_ref_cursor_on_lang_returns_none() {
    // P3: cursor on the language tag "sh" (column 3) should not match supersigil-ref.
    let content = "```sh supersigil-ref=echo-test\necho hello\n```";
    // Column 4 is on "h" of "sh" — before the supersigil-ref= token.
    let result = find_reference_target(content, 0, 4, "doc");
    assert_eq!(result, None);
}

// -- Example verifies refs -----------------------------------------------

#[test]
fn verifies_ref_detected_as_target() {
    let content = "```supersigil-xml\n<Example id=\"ex-1\" runner=\"sh\" verifies=\"auth/req#crit-1\" />\n```";
    let result = find_reference_target(content, 1, 52, "my/spec");
    assert_eq!(
        result,
        Some(("auth/req".to_owned(), Some("crit-1".to_owned())))
    );
}


// -- Helpers --------------------------------------------------------------





