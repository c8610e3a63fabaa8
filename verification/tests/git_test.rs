use devx::git::{branch_domain, branch_from_output, is_linked_worktree, worktree_basename};
use devx::project::sanitize;

#[test]
fn branch_domain_returns_none_for_main() {
    let sanitized = sanitize("fix-auth");
    assert_eq!(
        format!("{}.{}", sanitized, "api.localhost"),
        "fix-auth.api.localhost"
    );
    assert_eq!(
        branch_domain(Some("fix-auth"), "api.localhost"),
        Some("fix-auth.api.localhost".to_string())
    );
    assert_eq!(branch_domain(Some("main"), "api.localhost"), None);
}

#[test]
fn branch_sanitization_replaces_slashes() {
    let sanitized = sanitize("feat/my-feature");
    assert_eq!(sanitized, "feat-my-feature");
    assert_eq!(
        format!("{}.{}", sanitized, "api.localhost"),
        "feat-my-feature.api.localhost"
    );
    assert_eq!(
        branch_domain(Some("feat/my-feature"), "api.localhost"),
        Some("feat-my-feature.api.localhost".to_string())
    );
}

#[test]
fn branch_domain_none_for_default_branches_and_outside_git() {
    assert_eq!(branch_domain(Some("master"), "web.localhost"), None);
    assert_eq!(branch_domain(Some("HEAD"), "web.localhost"), None);
    assert_eq!(branch_domain(None, "web.localhost"), None);
    assert_eq!(
        branch_domain(Some("Main"), "web.localhost"),
        Some("main.web.localhost".to_string())
    );
}

#[test]
fn branch_from_git_output() {
    assert_eq!(branch_from_output("fix-auth\n"), Some("fix-auth".to_string()));
    assert_eq!(branch_from_output("  \n"), None);
    assert_eq!(branch_from_output(""), None);
}

#[test]
fn linked_worktree_detection() {
    assert!(is_linked_worktree(Some("/repo/.git/worktrees/wt\n"), Some("/repo/.git\n")));
    assert!(!is_linked_worktree(Some(".git\n"), Some(".git")));
    assert!(!is_linked_worktree(None, Some(".git")));
    assert!(!is_linked_worktree(Some(".git"), None));
}

#[test]
fn worktree_basename_is_last_component() {
    assert_eq!(worktree_basename("/home/me/new-world-wt\n"), Some("new-world-wt".to_string()));
    assert_eq!(worktree_basename("/home/me/repo/"), Some("repo".to_string()));
    assert_eq!(worktree_basename("/home/me/repo/."), Some("repo".to_string()));
    assert_eq!(worktree_basename("/"), None);
    assert_eq!(worktree_basename("/home/.."), None);
    assert_eq!(worktree_basename(""), None);
}
