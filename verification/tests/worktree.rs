use coast_daemon::worktree::{
    branch_from_rev_parse, external_worktree_mount, host_branch_from_rev_parse, parse_worktree_porcelain, WorktreeEntry,
};

#[test]
fn branch_detection_trims_and_skips_detached_heads() {
    assert_eq!(branch_from_rev_parse(true, "feature/x\n"), Some("feature/x".to_string()));
    assert_eq!(branch_from_rev_parse(true, "HEAD\n"), None);
    assert_eq!(branch_from_rev_parse(true, "  \n"), None);
    assert_eq!(branch_from_rev_parse(false, "main\n"), None);
}

const LISTING: &str = "worktree /repo\nHEAD abc\nbranch refs/heads/main\n\nworktree /ext/wt/feat-a\nHEAD def\nbranch refs/heads/feature/a\n\nworktree /ext/wt/scratch\nHEAD 123\ndetached\n\nbranch refs/heads/orphan\n";

#[test]
fn porcelain_listing_is_read_in_order() {
    let entries = parse_worktree_porcelain(LISTING);
    let seen: Vec<(String, Option<String>)> =
        entries.into_iter().map(|e| (e.path, e.branch_ref)).collect();
    assert_eq!(
        seen,
        vec![
            ("/repo".to_string(), Some("refs/heads/main".to_string())),
            ("/ext/wt/feat-a".to_string(), Some("refs/heads/feature/a".to_string())),
            ("/ext/wt/scratch".to_string(), None),
        ]
    );
}

fn located(entries: Vec<WorktreeEntry>) -> Vec<(String, WorktreeEntry)> {
    entries.into_iter().map(|e| (e.path.clone(), e)).collect()
}

#[test]
fn external_worktree_found_by_branch_or_directory() {
    let entries = located(parse_worktree_porcelain(LISTING));
    assert_eq!(
        external_worktree_mount(&entries, "/ext/wt", "/host-external-wt/0", "feature/a"),
        Some("/host-external-wt/0/feat-a".to_string())
    );
    assert_eq!(
        external_worktree_mount(&entries, "/ext/wt", "/host-external-wt/0", "scratch"),
        Some("/host-external-wt/0/scratch".to_string())
    );
    assert_eq!(external_worktree_mount(&entries, "/ext/wt", "/host-external-wt/0", "main"), None);
    assert_eq!(external_worktree_mount(&entries, "/ext/w", "/host-external-wt/0", "feat-a"), None);
    assert_eq!(
        external_worktree_mount(&entries, "/ext", "/host-external-wt/1", "scratch"),
        Some("/host-external-wt/1/wt/scratch".to_string())
    );
}

#[test]
fn host_branch_is_shown_as_git_reports_it() {
    assert_eq!(host_branch_from_rev_parse(true, "HEAD\n"), Some("HEAD".to_string()));
    assert_eq!(host_branch_from_rev_parse(true, " main \n"), Some("main".to_string()));
    assert_eq!(host_branch_from_rev_parse(false, "main"), None);
}
