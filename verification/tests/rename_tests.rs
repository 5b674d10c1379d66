use supersigil_lsp::rename::{find_rename_target, validate_new_name, LineRange, RenameTarget};
use supersigil_lsp::rename_edits::{
    collect_doc_id_ref_edits, collect_frontmatter_id_edits, collect_id_attr_edits,
    collect_ref_string_edits, collect_supersigil_ref_edits,
};


// -- Priority 1: Ref attribute -----------------------------------------------

#[test]
fn tests_ref_fragment_yields_component_id() {
    let content = "```supersigil-xml\n<Implements refs=\"auth/req#login\" />\n```";
    let result = find_rename_target(content, 1, 27, "test").unwrap();
    assert_eq!(
        result,
        RenameTarget::ComponentId {
            doc_id: "auth/req".to_owned(),
            component_id: "login".to_owned(),
            range: LineRange {
                line: 1,
                start: 27,
                end: 32
            },
        }
    );
}

#[test]
fn tests_ref_doc_id_yields_document_id() {
    let content = "```supersigil-xml\n<Implements refs=\"auth/req#login\" />\n```";
    let result = find_rename_target(content, 1, 20, "test").unwrap();
    assert_eq!(
        result,
        RenameTarget::DocumentId {
            doc_id: "auth/req".to_owned(),
            range: LineRange {
                line: 1,
                start: 18,
                end: 26
            },
        }
    );
}

#[test]
fn tests_doc_only_ref_yields_document_id() {
    let content = "```supersigil-xml\n<DependsOn refs=\"other/doc\" />\n```";
    let result = find_rename_target(content, 1, 20, "test").unwrap();
    assert_eq!(
        result,
        RenameTarget::DocumentId {
            doc_id: "other/doc".to_owned(),
            range: LineRange {
                line: 1,
                start: 17,
                end: 26
            },
        }
    );
}

// -- Priority 2: supersigil-ref -----------------------------------------------

#[test]
fn tests_supersigil_ref_yields_component_id() {
    let content =
        "---\nsupersigil:\n  id: my/spec\n---\n\n```sh supersigil-ref=echo-test\necho hello\n```";
    let result = find_rename_target(content, 5, 10, "my/spec").unwrap();
    assert_eq!(
        result,
        RenameTarget::ComponentId {
            doc_id: "my/spec".to_owned(),
            component_id: "echo-test".to_owned(),
            range: LineRange {
                line: 5,
                start: 21,
                end: 30
            },
        }
    );
}

#[test]
fn tests_supersigil_ref_with_fragment_uses_target() {
    let content = "```sh supersigil-ref=my-example#expected\nsome content\n```";
    let result = find_rename_target(content, 0, 24, "doc").unwrap();
    assert_eq!(
        result,
        RenameTarget::ComponentId {
            doc_id: "doc".to_owned(),
            component_id: "my-example".to_owned(),
            range: LineRange {
                line: 0,
                start: 21,
                end: 31
            },
        }
    );
}

// -- Priority 3: Component tag / id attribute ---------------------------------

#[test]
fn tests_component_tag_with_id_yields_component_id() {
    let content =
        "```supersigil-xml\n<Criterion id=\"login-success\">\nThe user logs in.\n</Criterion>\n```";
    let result = find_rename_target(content, 1, 1, "auth/req").unwrap();
    assert_eq!(
        result,
        RenameTarget::ComponentId {
            doc_id: "auth/req".to_owned(),
            component_id: "login-success".to_owned(),
            range: LineRange {
                line: 1,
                start: 15,
                end: 28
            },
        }
    );
}

#[test]
fn tests_cursor_on_id_value_yields_component_id() {
    let content =
        "```supersigil-xml\n<Criterion id=\"login-success\">\nThe user logs in.\n</Criterion>\n```";
    // Cursor at position 20, which is inside "login-success"
    let result = find_rename_target(content, 1, 20, "auth/req").unwrap();
    assert_eq!(
        result,
        RenameTarget::ComponentId {
            doc_id: "auth/req".to_owned(),
            component_id: "login-success".to_owned(),
            range: LineRange {
                line: 1,
                start: 15,
                end: 28
            },
        }
    );
}

#[test]
fn tests_component_tag_without_id_returns_none() {
    let content = "```supersigil-xml\n<AcceptanceCriteria>\n</AcceptanceCriteria>\n```";
    let result = find_rename_target(content, 1, 1, "doc");
    assert_eq!(result, None);
}

// -- Priority 4: Frontmatter -------------------------------------------------

#[test]
fn tests_frontmatter_id_yields_document_id() {
    let content = "---\nsupersigil:\n  id: my-doc/req\n  type: requirements\n---\n\nSome text.";
    let result = find_rename_target(content, 2, 7, "my-doc/req").unwrap();
    assert_eq!(
        result,
        RenameTarget::DocumentId {
            doc_id: "my-doc/req".to_owned(),
            range: LineRange {
                line: 2,
                start: 6,
                end: 16
            },
        }
    );
}

#[test]
fn tests_frontmatter_non_id_line_returns_none() {
    let content = "---\nsupersigil:\n  id: my-doc/req\n  type: requirements\n---\n\nSome text.";
    let result = find_rename_target(content, 3, 5, "my-doc/req");
    assert_eq!(result, None);
}

// -- Priority ordering -------------------------------------------------------

#[test]
fn tests_ref_takes_priority_over_component_tag() {
    // Cursor on the refs value, which is also on a component with id.
    // <Implements id="impl-1" refs="other/doc#crit" />
    // 0         1         2         3         4
    // 0123456789012345678901234567890123456789012345
    // refs=" starts at 24, value at 29, "#crit" fragment at 39..43
    let content = "```supersigil-xml\n<Implements id=\"impl-1\" refs=\"other/doc#crit\" />\n```";
    let result = find_rename_target(content, 1, 40, "test").unwrap();
    match result {
        RenameTarget::ComponentId { component_id, .. } => {
            assert_eq!(component_id, "crit");
        }
        RenameTarget::DocumentId { .. } => {
            panic!("expected ComponentId from ref, got {result:?}")
        }
    }
}

// -- Non-renameable positions ------------------------------------------------

#[test]
fn tests_body_text_returns_none() {
    let content = "---\nsupersigil:\n  id: test\n---\n\nSome text outside.";
    let result = find_rename_target(content, 5, 0, "test");
    assert_eq!(result, None);
}

#[test]
fn tests_inside_fence_no_match_returns_none() {
    let content = "```supersigil-xml\nsome body text\n```";
    let result = find_rename_target(content, 1, 5, "test");
    assert_eq!(result, None);
}

// -- prepareRename range tests -----------------------------------------------

#[test]
fn tests_prepare_rename_returns_range_and_placeholder() {
    let content = "```supersigil-xml\n<Criterion id=\"login-success\">\nbody\n</Criterion>\n```";
    let result = find_rename_target(content, 1, 1, "auth/req").unwrap();
    match &result {
        RenameTarget::ComponentId {
            component_id,
            range,
            ..
        } => {
            assert_eq!(component_id, "login-success");
            assert!(range.start < range.end);
        }
        RenameTarget::DocumentId { .. } => panic!("expected ComponentId"),
    }
}

// -- Validation --------------------------------------------------------------

#[test]
fn tests_valid_name_accepted() {
    validate_new_name("new-id").unwrap();
    validate_new_name("auth/req").unwrap();
    validate_new_name("a").unwrap();
}

#[test]
fn tests_empty_name_rejected() {
    assert!(validate_new_name("").is_err());
}

#[test]
fn tests_whitespace_name_rejected() {
    assert!(validate_new_name("has space").is_err());
    assert!(validate_new_name("has\ttab").is_err());
}

#[test]
fn tests_hash_name_rejected() {
    assert!(validate_new_name("bad#name").is_err());
}

#[test]
fn tests_quote_name_rejected() {
    assert!(validate_new_name("bad\"name").is_err());
}

#[test]
fn tests_validation_error_has_message() {
    let err = validate_new_name("").unwrap_err();
    assert!(!err.is_empty());
}

// -- collect_rename_edits ----------------------------------------------------










#[test]
fn tests_id_substring_does_not_trigger_rename() {
    // Cursor on "some-id" inside refs value should not trigger id attribute rename.
    let content = "```supersigil-xml\n<Implements refs=\"some-id/req\" id=\"real-id\" />\n```";
    // Position 25 is inside "some-id/req" in the refs value — should match
    // as a ref, not as an id attribute.
    let result = find_rename_target(content, 1, 25, "test");
    match result {
        Some(RenameTarget::DocumentId { doc_id, .. }) => {
            assert_eq!(doc_id, "some-id/req");
        }
        other => panic!("expected DocumentId for ref, got {other:?}"),
    }
}


// -- P1 regression: task implements included in component rename ----------


// -- P2 regression: supersigil-ref prefix not matched ---------------------





// -- P3 regression: frontmatter cursor column checked --------------------

#[test]
fn tests_frontmatter_cursor_on_key_returns_none() {
    // Cursor on "id:" key, not the value — should not trigger rename.
    let content = "---\nsupersigil:\n  id: my-doc/req\n---";
    let result = find_rename_target(content, 2, 3, "my-doc/req");
    assert_eq!(
        result, None,
        "cursor on 'id:' key should not trigger rename"
    );
}

#[test]
fn tests_frontmatter_cursor_on_value_triggers_rename() {
    // Cursor on the value "my-doc/req" — should trigger.
    let content = "---\nsupersigil:\n  id: my-doc/req\n---";
    let result = find_rename_target(content, 2, 7, "my-doc/req");
    assert!(result.is_some(), "cursor on id value should trigger rename");
}

// -- Edit collectors --------------------------------------------------------

#[test]
fn tests_all_four_ref_attrs_scanned() {
    let content = "```supersigil-xml\n<Implements refs=\"doc#old\" />\n<Task implements=\"doc#old\" />\n<DependsOn refs=\"doc#old\" />\n<Example verifies=\"doc#old\" />\n```";
    let mut edits = Vec::new();
    collect_ref_string_edits(content, "doc#old", "doc#new", &mut edits);
    assert_eq!(edits.len(), 4, "should find edits in all 4 attributes");
}

#[test]
fn tests_rename_with_no_references_produces_definition_edit() {
    let content = "```supersigil-xml\n<Criterion id=\"only-one\">\nbody\n</Criterion>\n```";
    let mut edits = Vec::new();
    collect_id_attr_edits(content, "only-one", "renamed", &mut edits);
    assert_eq!(edits.len(), 1);
    assert_eq!(edits[0].new_text, "renamed");
}

#[test]
fn tests_supersigil_ref_updated_on_component_rename() {
    let content = "```sh supersigil-ref=echo-test\necho hello\n```";
    let mut edits = Vec::new();
    collect_supersigil_ref_edits(content, "echo-test", "new-test", &mut edits);
    assert_eq!(edits.len(), 1);
    assert_eq!(edits[0].new_text, "new-test");
}

#[test]
fn tests_doc_id_ref_edits_replace_doc_portion() {
    let content = "```supersigil-xml\n<References refs=\"old/doc#frag\" />\n```";
    let mut edits = Vec::new();
    collect_doc_id_ref_edits(content, "old/doc", "new/doc", &mut edits);
    assert_eq!(edits.len(), 1);
    assert_eq!(edits[0].new_text, "new/doc");
    // The edit covers "old/doc" only, not "#frag".
    assert_eq!(edits[0].range.start.character, 18);
    assert_eq!(edits[0].range.end.character, 25);
}

#[test]
fn tests_id_substring_in_other_attr_not_matched() {
    let content = "```supersigil-xml\n<Implements refs=\"some-id/req\" id=\"real-id\" />\n```";
    let mut edits = Vec::new();
    collect_id_attr_edits(content, "real-id", "new-id", &mut edits);
    assert_eq!(edits.len(), 1);
    assert_eq!(edits[0].new_text, "new-id");
}

#[test]
fn tests_frontmatter_id_edit_produced() {
    let content = "---\nsupersigil:\n  id: old/doc\n---";
    let mut edits = Vec::new();
    collect_frontmatter_id_edits(content, "old/doc", "new/doc", &mut edits);
    assert_eq!(edits.len(), 1);
    assert_eq!(edits[0].new_text, "new/doc");
}

#[test]
fn tests_supersigil_ref_prefix_not_matched() {
    let content = "```sh supersigil-ref=echo-test-extra\necho hello\n```";
    let mut edits = Vec::new();
    collect_supersigil_ref_edits(content, "echo-test", "new-test", &mut edits);
    assert!(edits.is_empty(), "should not match prefix: {edits:?}");
}

#[test]
fn tests_supersigil_ref_with_hash_still_matched() {
    let content = "```sh supersigil-ref=echo-test#expected\necho hello\n```";
    let mut edits = Vec::new();
    collect_supersigil_ref_edits(content, "echo-test", "new-test", &mut edits);
    assert_eq!(edits.len(), 1);
    assert_eq!(edits[0].new_text, "new-test");
}

#[test]
fn tests_supersigil_ref_not_on_fence_line_ignored() {
    let content = "```sh\nUse supersigil-ref=echo-test for examples\n```";
    let mut edits = Vec::new();
    collect_supersigil_ref_edits(content, "echo-test", "new-test", &mut edits);
    assert!(edits.is_empty(), "non-fence line should be ignored");
}

#[test]
fn tests_supersigil_ref_not_at_token_boundary_ignored() {
    let content = "```sh notsupersigil-ref=echo-test\necho hello\n```";
    let mut edits = Vec::new();
    collect_supersigil_ref_edits(content, "echo-test", "new-test", &mut edits);
    assert!(edits.is_empty(), "non-token-boundary should be ignored");
}
