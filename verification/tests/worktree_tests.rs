use conductor::worktree::{branch_name, parse_worktree_list, CleanupReport};

#[test]
fn test_branch_name_simple() {
    let name = branch_name("abcdef12-3456-7890-abcd-ef1234567890", "Add login page");
    assert_eq!(name, "conductor/abcdef12/add-login-page");
}

#[test]
fn test_branch_name_special_chars() {
    let name = branch_name("abcdef12-xxxx", "Fix bug: handle NULL pointers!");
    assert_eq!(name, "conductor/abcdef12/fix-bug--handle-null-pointers");
}

#[test]
fn test_branch_name_long_title_truncated() {
    let long_title = "a".repeat(100);
    let name = branch_name("abcdef12-xxxx", &long_title);
    // "conductor/abcdef12/" prefix + max 40 chars of title
    assert!(name.len() <= 19 + 40);
}

#[test]
fn test_branch_name_short_agent_id() {
    let name = branch_name("abc", "task");
    assert_eq!(name, "conductor/abc/task");
}

#[test]
fn test_branch_name_uppercase_lowered() {
    let name = branch_name("ABCDEF12-xxxx", "UPPER Case Title");
    assert!(name.contains("upper-case-title"));
}

#[test]
fn test_branch_name_all_special_chars() {
    let name = branch_name("abcdef12-xxxx", "!!!@@@###");
    // All get replaced with -, then trimmed
    assert_eq!(name, "conductor/abcdef12/");
}

#[test]
fn test_branch_name_hyphens_preserved() {
    let name = branch_name("abcdef12-xxxx", "already-hyphenated-name");
    assert_eq!(name, "conductor/abcdef12/already-hyphenated-name");
}

#[test]
fn test_branch_name_is_a_pure_function() {
    let a = branch_name("abcdef12-3456", "Ship the thing");
    let b = branch_name("abcdef12-3456", "Ship the thing");
    assert_eq!(a, b);
}

#[test]
fn test_parse_worktree_list_keeps_entries_under_base() {
    let stdout = "worktree /repo\nHEAD abc\nbranch refs/heads/main\n\nworktree /tmp/conductor/worktrees/agent-1\nHEAD def\nbranch refs/heads/conductor/agent-1/fix\n\nworktree /elsewhere\nbranch refs/heads/other\n";
    let infos = parse_worktree_list(stdout, "/tmp/conductor/worktrees");
    assert_eq!(infos.len(), 1);
    assert_eq!(infos[0].path, "/tmp/conductor/worktrees/agent-1");
    assert_eq!(infos[0].branch, "conductor/agent-1/fix");
}

#[test]
fn test_parse_worktree_list_missing_branch_is_empty() {
    let stdout = "worktree /tmp/conductor/worktrees/agent-2\nHEAD def\n";
    let infos = parse_worktree_list(stdout, "/tmp/conductor/worktrees");
    assert_eq!(infos.len(), 1);
    assert_eq!(infos[0].branch, "");
}

#[test]
fn test_cleanup_report_message() {
    let mut report = CleanupReport::new();
    report.runs_marked_failed = 2;
    report.branches_deleted = 1;
    report.worktrees_removed = 3;
    assert_eq!(
        report.to_message(),
        "Cleanup: 2 runs marked failed, 1 branches deleted, 3 worktree dirs removed"
    );
    report.unmerged_branches.push("conductor/a/x".to_string());
    report.unmerged_branches.push("conductor/b/y".to_string());
    let msg = report.to_message();
    assert!(msg.contains("Unmerged branches (need manual review): conductor/a/x, conductor/b/y"));
}
