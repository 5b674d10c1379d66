use supersigil_lsp::code_actions::sequential_id::find_sequential_ids;
use supersigil_lsp::code_actions::{ActionRequestContext, CodeAction, SequentialIdProvider};
use supersigil_lsp::diagnostics::{
    ActionContext, DiagnosticData, DiagnosticSource, ParseDiagnosticKind, RuleName,
};
use supersigil_lsp::position::{Position, Range};
use supersigil_lsp::report::Diagnostic;

fn make_diagnostic(message: &str) -> Diagnostic {
    Diagnostic {
        range: Range { start: Position { line: 0, character: 0 }, end: Position { line: 0, character: 0 } },
        severity: None,
        source: None,
        message: message.into(),
        data: None,
    }
}

fn make_data(rule: RuleName) -> DiagnosticData {
    DiagnosticData { source: DiagnosticSource::Verify(rule), doc_id: Some("my-doc".into()), context: ActionContext::NoContext }
}

fn ctx(content: &str) -> ActionRequestContext<'_> {
    ActionRequestContext { file_content: content, current_doc: None, document_ids: &[], component_defs: &[] }
}

fn format_actions(actions: &[CodeAction]) -> Vec<String> {
    let mut out = Vec::new();
    for a in actions {
        out.push(a.title.clone());
        for e in &a.edits {
            out.push(format!(
                "@{}:{}-{}:{} replace `{}`",
                e.range.start.line, e.range.start.character, e.range.end.line, e.range.end.character, e.new_text
            ));
        }
    }
    out
}

fn run(content: &str, rule: RuleName) -> Vec<String> {
    format_actions(&SequentialIdProvider.actions(&make_diagnostic("gap in sequence"), &make_data(rule), &ctx(content)))
}

// -- find_sequential_ids() --

#[test]
fn finds_ids_in_fence() {
    let content = "---\nid: my-doc\n---\n```supersigil-xml\n<Task id=\"task-1\" status=\"draft\" />\n<Task id=\"task-3\" status=\"draft\" />\n```\n";
    let ids = find_sequential_ids(content);
    assert_eq!(ids.len(), 2);
    assert_eq!(ids[0].prefix, "task");
    assert_eq!(ids[0].number, 1);
    assert_eq!(ids[1].prefix, "task");
    assert_eq!(ids[1].number, 3);
}

#[test]
fn ignores_ids_outside_fence() {
    let content = "---\nid: my-doc\n---\n<Task id=\"task-1\" status=\"draft\" />\n```supersigil-xml\n<Task id=\"task-2\" status=\"draft\" />\n```\n";
    let ids = find_sequential_ids(content);
    assert_eq!(ids.len(), 1);
    assert_eq!(ids[0].number, 2);
}

#[test]
fn handles_multiple_fences() {
    let content = "---\nid: my-doc\n---\n```supersigil-xml\n<Task id=\"task-1\" status=\"draft\" />\n```\n\nSome prose.\n\n```supersigil-xml\n<Task id=\"task-3\" status=\"draft\" />\n```\n";
    let ids = find_sequential_ids(content);
    assert_eq!(ids.len(), 2);
    assert_eq!(ids[0].number, 1);
    assert_eq!(ids[1].number, 3);
}

#[test]
fn found_id_ranges_count_utf16_columns() {
    let content = "```supersigil-xml\n<Task title=\"é\" id=\"t-4\" />\n```\n";
    let ids = find_sequential_ids(content);
    assert_eq!(ids.len(), 1);
    assert_eq!(ids[0].range.start, Position { line: 1, character: 20 });
    assert_eq!(ids[0].range.end, Position { line: 1, character: 23 });
}

// -- handles() --

#[test]
fn handles_sequential_id_gap() {
    assert!(SequentialIdProvider.handles(&make_data(RuleName::SequentialIdGap)));
}

#[test]
fn handles_sequential_id_order() {
    assert!(SequentialIdProvider.handles(&make_data(RuleName::SequentialIdOrder)));
}

#[test]
fn rejects_other_rules() {
    assert!(!SequentialIdProvider.handles(&make_data(RuleName::IncompleteDecision)));
}

#[test]
fn sequential_id_rejects_parse_diagnostic() {
    let data = DiagnosticData {
        source: DiagnosticSource::Parse(ParseDiagnosticKind::XmlSyntaxError),
        doc_id: None,
        context: ActionContext::NoContext,
    };
    assert!(!SequentialIdProvider.handles(&data));
}

// -- actions() --

#[test]
fn renumber_gap_in_sequence() {
    let content = "---\nid: my-doc\n---\n```supersigil-xml\n<Task id=\"task-1\" status=\"draft\" />\n<Task id=\"task-3\" status=\"draft\" />\n<Task id=\"task-4\" status=\"draft\" />\n```\n";
    assert_eq!(
        run(content, RuleName::SequentialIdGap),
        vec!["Renumber sequential IDs", "@5:10-5:16 replace `task-2`", "@6:10-6:16 replace `task-3`"]
    );
}

#[test]
fn renumber_out_of_order() {
    let content = "---\nid: my-doc\n---\n```supersigil-xml\n<Task id=\"task-2\" status=\"draft\" />\n<Task id=\"task-1\" status=\"draft\" />\n```\n";
    assert_eq!(
        run(content, RuleName::SequentialIdOrder),
        vec!["Renumber sequential IDs", "@4:10-4:16 replace `task-1`", "@5:10-5:16 replace `task-2`"]
    );
}

#[test]
fn renumber_multi_part_prefix() {
    let content = "---\nid: my-doc\n---\n```supersigil-xml\n<Criterion id=\"req-1-1\" />\n<Criterion id=\"req-1-3\" />\n<Criterion id=\"req-1-4\" />\n```\n";
    assert_eq!(
        run(content, RuleName::SequentialIdGap),
        vec!["Renumber sequential IDs", "@5:15-5:22 replace `req-1-2`", "@6:15-6:22 replace `req-1-3`"]
    );
}

#[test]
fn no_edits_when_already_sequential() {
    let content = "---\nid: my-doc\n---\n```supersigil-xml\n<Task id=\"task-1\" status=\"draft\" />\n<Task id=\"task-2\" status=\"draft\" />\n<Task id=\"task-3\" status=\"draft\" />\n```\n";
    assert!(run(content, RuleName::SequentialIdGap).is_empty());
}

#[test]
fn no_action_on_empty_file() {
    let content = "---\nid: my-doc\n---\nSome text without components.\n";
    assert!(run(content, RuleName::SequentialIdGap).is_empty());
}

#[test]
fn multiple_prefix_groups() {
    let content = "---\nid: my-doc\n---\n```supersigil-xml\n<Task id=\"task-1\" status=\"draft\" />\n<Task id=\"task-3\" status=\"draft\" />\n<Criterion id=\"crit-1\" />\n<Criterion id=\"crit-5\" />\n```\n";
    assert_eq!(
        run(content, RuleName::SequentialIdGap),
        vec!["Renumber sequential IDs", "@5:10-5:16 replace `task-2`", "@7:15-7:21 replace `crit-2`"]
    );
}

#[test]
fn edits_come_group_by_group() {
    let content = "```supersigil-xml\n<Task id=\"task-2\" />\n<Criterion id=\"crit-3\" />\n<Task id=\"task-9\" />\n```\n";
    assert_eq!(
        run(content, RuleName::SequentialIdGap),
        vec![
            "Renumber sequential IDs",
            "@1:10-1:16 replace `task-1`",
            "@3:10-3:16 replace `task-2`",
            "@2:15-2:21 replace `crit-1`",
        ]
    );
}

#[test]
fn nested_components_with_gap() {
    let content = "---\nid: my-doc\n---\n```supersigil-xml\n<Task id=\"task-1\" status=\"draft\">\n  <Criterion id=\"crit-1\" />\n  <Criterion id=\"crit-3\" />\n</Task>\n```\n";
    assert_eq!(run(content, RuleName::SequentialIdGap), vec!["Renumber sequential IDs", "@6:17-6:23 replace `crit-2`"]);
}

#[test]
fn non_sequential_ids_are_ignored() {
    let content = "---\nid: my-doc\n---\n```supersigil-xml\n<Decision id=\"use-postgres\" />\n<Task id=\"task-1\" status=\"draft\" />\n<Task id=\"task-3\" status=\"draft\" />\n```\n";
    assert_eq!(run(content, RuleName::SequentialIdGap), vec!["Renumber sequential IDs", "@6:10-6:16 replace `task-2`"]);
}

// -- depends rewriting --

#[test]
fn renumber_also_rewrites_depends() {
    let content = "---\nid: my-doc\n---\n```supersigil-xml\n<Task id=\"task-1\" status=\"draft\" />\n<Task id=\"task-3\" status=\"draft\" depends=\"task-1\" />\n<Task id=\"task-4\" status=\"draft\" depends=\"task-3\" />\n```\n";
    assert_eq!(
        run(content, RuleName::SequentialIdGap),
        vec![
            "Renumber sequential IDs",
            "@5:10-5:16 replace `task-2`",
            "@6:10-6:16 replace `task-3`",
            "@6:42-6:48 replace `task-2`",
        ]
    );
}

#[test]
fn renumber_rewrites_depends_comma_separated() {
    let content = "---\nid: my-doc\n---\n```supersigil-xml\n<Task id=\"task-1\" status=\"draft\" />\n<Task id=\"task-3\" status=\"draft\" />\n<Task id=\"task-4\" status=\"draft\" depends=\"task-3, task-1\" />\n```\n";
    assert_eq!(
        run(content, RuleName::SequentialIdGap),
        vec![
            "Renumber sequential IDs",
            "@5:10-5:16 replace `task-2`",
            "@6:10-6:16 replace `task-3`",
            "@6:42-6:56 replace `task-2, task-1`",
        ]
    );
}

#[test]
fn renumber_no_depends_edit_when_not_renamed() {
    let content = "---\nid: my-doc\n---\n```supersigil-xml\n<Task id=\"task-1\" status=\"draft\" />\n<Task id=\"task-3\" status=\"draft\" depends=\"task-1\" />\n```\n";
    assert_eq!(run(content, RuleName::SequentialIdGap), vec!["Renumber sequential IDs", "@5:10-5:16 replace `task-2`"]);
}

#[test]
fn depends_rewrite_uses_the_last_rename_of_a_duplicated_id() {
    let content = "```supersigil-xml\n<Task id=\"t-5\" />\n<Task id=\"t-5\" />\n<Task id=\"t-9\" depends=\"t-5,t-9\" />\n```\n";
    assert_eq!(
        run(content, RuleName::SequentialIdGap),
        vec![
            "Renumber sequential IDs",
            "@1:10-1:13 replace `t-1`",
            "@2:10-2:13 replace `t-2`",
            "@3:10-3:13 replace `t-3`",
            "@3:24-3:31 replace `t-2, t-3`",
        ]
    );
}
