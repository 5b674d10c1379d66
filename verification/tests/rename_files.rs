use supersigil_lsp::position::TextEdit;
use supersigil_lsp::rename_edits::{component_rename_file_edits, document_rename_file_edits};

fn fmt(edits: &[TextEdit]) -> Vec<String> {
    edits
        .iter()
        .map(|e| {
            format!(
                "@{}:{}-{}:{} `{}`",
                e.range.start.line, e.range.start.character, e.range.end.line, e.range.end.character, e.new_text
            )
        })
        .collect()
}

#[test]
fn component_rename_in_defining_and_referring_file() {
    let content = "```supersigil-xml\n<Criterion id=\"c-1\" />\n<References refs=\"doc/req#c-1\" />\n```\n";
    let edits = component_rename_file_edits(content, "doc/req", "c-1", "c-9", true, true);
    assert_eq!(fmt(&edits), vec!["@1:15-1:18 `c-9`", "@2:18-2:29 `doc/req#c-9`"]);
}

#[test]
fn component_rename_only_where_asked() {
    let content = "```supersigil-xml\n<Criterion id=\"c-1\" />\n<References refs=\"doc/req#c-1\" />\n```\n";
    assert_eq!(fmt(&component_rename_file_edits(content, "doc/req", "c-1", "c-9", false, true)), vec!["@2:18-2:29 `doc/req#c-9`"]);
    assert_eq!(fmt(&component_rename_file_edits(content, "doc/req", "c-1", "c-9", true, false)), vec!["@1:15-1:18 `c-9`"]);
    assert!(component_rename_file_edits(content, "doc/req", "c-1", "c-9", false, false).is_empty());
}

#[test]
fn document_rename_in_own_file_and_refs() {
    let content = "---\nid: doc/req\n---\n```supersigil-xml\n<Implements refs=\"doc/req#c-1, other/req\" />\n```\n";
    let edits = document_rename_file_edits(content, "doc/req", "doc/spec", true, true);
    assert_eq!(fmt(&edits), vec!["@1:4-1:11 `doc/spec`", "@4:18-4:25 `doc/spec`"]);
}
