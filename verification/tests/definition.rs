use supersigil_lsp::definition::{find_ref_at_position, RefPart};



#[test]
fn cursor_on_fragment_returns_fragment_part() {
    // <Implements refs="auth/req#login" />
    //                           ^^^^^  cursor on "login"
    let content = "```supersigil-xml\n<Implements refs=\"auth/req#login\" />\n```";
    let result = find_ref_at_position(content, 1, 27).unwrap();
    assert_eq!(result.ref_string, "auth/req#login");
    assert_eq!(result.part, RefPart::Fragment);
    // "login" starts at byte 27 in the line, ends at 32
    assert_eq!(result.part_start, 27);
    assert_eq!(result.part_end, 32);
}

#[test]
fn cursor_on_doc_id_returns_doc_id_part() {
    // <Implements refs="auth/req#login" />
    //                   ^^^^^^^^  cursor on "auth/req"
    let content = "```supersigil-xml\n<Implements refs=\"auth/req#login\" />\n```";
    let result = find_ref_at_position(content, 1, 18).unwrap();
    assert_eq!(result.ref_string, "auth/req#login");
    assert_eq!(result.part, RefPart::DocId);
    // "auth/req" starts at byte 18 in the line, ends at 26
    assert_eq!(result.part_start, 18);
    assert_eq!(result.part_end, 26);
}

#[test]
fn cursor_on_hash_returns_doc_id_part() {
    // Cursor on the `#` itself should be treated as doc ID part.
    let content = "```supersigil-xml\n<Implements refs=\"auth/req#login\" />\n```";
    let result = find_ref_at_position(content, 1, 26).unwrap();
    assert_eq!(result.part, RefPart::DocId);
}

#[test]
fn doc_only_ref_returns_doc_id_part() {
    // <DependsOn refs="other/doc" />
    //                  ^^^^^^^^^  no fragment
    let content = "```supersigil-xml\n<DependsOn refs=\"other/doc\" />\n```";
    let result = find_ref_at_position(content, 1, 17).unwrap();
    assert_eq!(result.ref_string, "other/doc");
    assert_eq!(result.part, RefPart::DocId);
    assert_eq!(result.part_start, 17);
    assert_eq!(result.part_end, 26);
}

#[test]
fn fragment_span_covers_only_fragment() {
    // refs="doc#frag" — fragment span should be just "frag"
    let content = "```supersigil-xml\n<References refs=\"doc#frag\" />\n```";
    let result = find_ref_at_position(content, 1, 22).unwrap();
    assert_eq!(result.part, RefPart::Fragment);
    // "frag" starts after '#'
    assert_eq!(result.part_start, 22);
    assert_eq!(result.part_end, 26);
}

#[test]
fn doc_id_span_covers_only_doc_id() {
    // refs="doc#frag" — doc span should be just "doc"
    let content = "```supersigil-xml\n<References refs=\"doc#frag\" />\n```";
    let result = find_ref_at_position(content, 1, 18).unwrap();
    assert_eq!(result.part, RefPart::DocId);
    assert_eq!(result.part_start, 18);
    assert_eq!(result.part_end, 21);
}

#[test]
fn comma_separated_refs_second_item() {
    // refs="a/b#c, d/e#f" — cursor on "d/e" in second ref
    let content = "```supersigil-xml\n<Implements refs=\"a/b#c, d/e#f\" />\n```";
    // value starts at byte 18; "a/b#c" is 5 bytes + comma = 6; " d/e#f" has 1 space
    // so "d/e#f" starts at byte 25 (18 + 6 + 1)
    let result = find_ref_at_position(content, 1, 26).unwrap();
    assert_eq!(result.ref_string, "d/e#f");
    assert_eq!(result.part, RefPart::DocId);
    // "d/e" spans bytes 25..28, "f" is at 29..30
    assert_eq!(result.part_start, 25);
    assert_eq!(result.part_end, 28);
}

#[test]
fn outside_fence_returns_none() {
    let content = "Not in a fence\n<Implements refs=\"auth/req#login\" />";
    assert!(find_ref_at_position(content, 1, 20).is_none());
}

