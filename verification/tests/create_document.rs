use supersigil_lsp::create_document::{
    document_file_path, project_choices, project_prompt_exec, resolve_spec_dir,
};

#[test]
fn new_document_path_is_built_from_dir_feature_and_type() {
    assert_eq!(document_file_path("specs/", "auth", "design"), "specs/auth/auth.design.md");
    assert_eq!(document_file_path("backend/specs/", "api", "req"), "backend/specs/api/api.req.md");
}

#[test]
fn prompt_names_the_ref() {
    assert_eq!(project_prompt_exec("auth/req"), "Which project should 'auth/req' be created in?");
}

#[test]
fn project_choices_are_sorted() {
    assert_eq!(project_choices(vec!["frontend", "backend", "docs"]), vec!["backend", "docs", "frontend"]);
}

#[test]
fn single_project_mode_uses_specs_dir() {
    assert_eq!(resolve_spec_dir(None, Some("x.md")), Some("specs/".to_string()));
    assert_eq!(resolve_spec_dir(Some(&[]), None), Some("specs/".to_string()));
}

#[test]
fn multi_project_picks_the_owning_project() {
    let projects = vec![vec!["backend/specs/".to_string()], vec!["frontend/specs/".to_string()]];
    assert_eq!(
        resolve_spec_dir(Some(&projects), Some("frontend/specs/auth/auth.req.md")),
        Some("frontend/specs/".to_string())
    );
}

#[test]
fn ambiguous_or_unowned_file_gives_no_dir() {
    let projects = vec![vec!["shared/".to_string()], vec!["shared/specs/".to_string()]];
    assert_eq!(resolve_spec_dir(Some(&projects), Some("shared/specs/a.md")), None);
    assert_eq!(resolve_spec_dir(Some(&projects), Some("other/a.md")), None);
    assert_eq!(resolve_spec_dir(Some(&projects), None), None);
}
