use devx::project::{resolve_project_id_with, sanitize};

#[test]
fn flag_wins() {
    assert_eq!(
        resolve_project_id_with("nw", Some("sharpi"), Some("shimizu"), Some("wt")),
        "sharpi"
    );
}

#[test]
fn env_used_when_no_flag() {
    assert_eq!(
        resolve_project_id_with("nw", None, Some("shimizu"), Some("wt")),
        "shimizu"
    );
}

#[test]
fn empty_env_ignored() {
    assert_eq!(
        resolve_project_id_with("nw", None, Some("  "), Some("wt")),
        "nw-wt"
    );
    assert_eq!(resolve_project_id_with("nw", None, Some(""), None), "nw");
}

#[test]
fn backward_compat_no_sanitize_on_fallback() {
    assert_eq!(resolve_project_id_with("MyApp", None, None, None), "MyApp");
}

#[test]
fn worktree_derive() {
    assert_eq!(
        resolve_project_id_with("new-world", None, None, Some("nw-feature-x")),
        "new-world-nw-feature-x"
    );
}

#[test]
fn precedence_chain() {
    assert_eq!(
        resolve_project_id_with("nw", Some("a"), Some("b"), Some("c")),
        "a"
    );
    assert_eq!(
        resolve_project_id_with("nw", None, Some("b"), Some("c")),
        "b"
    );
    assert_eq!(resolve_project_id_with("nw", None, None, Some("c")), "nw-c");
    assert_eq!(resolve_project_id_with("nw", None, None, None), "nw");
}

#[test]
fn sanitize_rule() {
    assert_eq!(sanitize("feat/x_1"), "feat-x-1");
    assert_eq!(sanitize("API"), "api");
}

#[test]
fn sanitize_collision_is_intentional() {
    assert_eq!(sanitize("feat_x"), sanitize("feat/x"));
    assert_eq!(sanitize("feat_x"), "feat-x");
}

#[test]
fn sanitize_keeps_only_safe_characters() {
    let s = sanitize("Ünïcode Bränch/#1!");
    assert!(s.chars().all(|c| c.is_alphanumeric() || c == '-'));
    assert_eq!(sanitize("a b\tc"), "a-b-c");
}

#[test]
fn flag_is_sanitized_but_fallback_is_not() {
    assert_eq!(resolve_project_id_with("My_App", Some("My_App"), None, None), "my-app");
    assert_eq!(resolve_project_id_with("My_App", None, None, None), "My_App");
}

#[test]
fn worktree_suffix_is_sanitized_name_is_not() {
    assert_eq!(
        resolve_project_id_with("My_App", None, None, Some("Feat/X")),
        "My_App-feat-x"
    );
}

#[test]
fn whitespace_env_with_tabs_falls_through() {
    assert_eq!(resolve_project_id_with("nw", None, Some("\t \n"), None), "nw");
    assert_eq!(resolve_project_id_with("nw", None, Some(" Prod "), None), "-prod-");
}
