use gestalt::review::{
    file_change_key, format_age, format_unix_ms, repo_context_revision_key, review_file_detail, FileChange,
    RepoContext, RepoSnapshot, RunReviewFile,
};

fn snapshot(changes: Vec<FileChange>) -> RepoSnapshot {
    let unstaged_count = changes.len();
    RepoSnapshot {
        root: "/tmp/repo".to_string(),
        head: Some("abc".to_string()),
        current_branch: Some("main".to_string()),
        has_upstream: false,
        changes,
        unstaged_count,
    }
}

fn untracked(path: &str) -> FileChange {
    FileChange {
        path: path.to_string(),
        code: "??".to_string(),
        is_staged: false,
        is_unstaged: false,
        is_untracked: true,
    }
}

#[test]
fn repo_context_revision_key_changes_with_changed_files() {
    let base = RepoContext::Available(snapshot(Vec::new()));
    let changed = RepoContext::Available(snapshot(vec![untracked("notes.txt")]));

    assert_ne!(repo_context_revision_key(Some(&base)), repo_context_revision_key(Some(&changed)));
}

#[test]
fn review_file_detail_lists_change_reasons() {
    let detail = review_file_detail(&RunReviewFile {
        path: "notes.txt".to_string(),
        code: "??".to_string(),
        is_staged: false,
        is_unstaged: false,
        is_untracked: true,
        is_new_since_start: true,
        status_changed_since_start: true,
        worktree_changed_since_start: true,
        index_changed_since_start: false,
    });

    assert!(detail.contains("new since run start"));
    assert!(detail.contains("worktree changed"));
    assert!(detail.contains("untracked"));
}

#[test]
fn review_details_join_reasons_in_order() {
    let mut file = RunReviewFile {
        path: "a".to_string(),
        code: "M".to_string(),
        is_staged: true,
        is_unstaged: false,
        is_untracked: false,
        is_new_since_start: false,
        status_changed_since_start: true,
        worktree_changed_since_start: false,
        index_changed_since_start: true,
    };
    assert_eq!(review_file_detail(&file), "status changed | index changed | staged");
    file.is_staged = false;
    file.status_changed_since_start = false;
    file.index_changed_since_start = false;
    assert_eq!(review_file_detail(&file), "changed since run start");
}

#[test]
fn revision_keys_spell_out_the_state() {
    assert_eq!(file_change_key(&untracked("x.rs")), "x.rs:??:0:0:1");
    let two = snapshot(vec![untracked("a"), untracked("b")]);
    assert_eq!(
        repo_context_revision_key(Some(&RepoContext::Available(two))),
        "/tmp/repo::abc::main::a:??:0:0:1|b:??:0:0:1"
    );
    let mut bare = snapshot(Vec::new());
    bare.head = None;
    assert_eq!(repo_context_revision_key(Some(&RepoContext::Available(bare))), "/tmp/repo::::main::");
    assert_eq!(
        repo_context_revision_key(Some(&RepoContext::NotRepo { inspected_path: "/etc".to_string() })),
        "not-repo:/etc"
    );
    assert_eq!(repo_context_revision_key(None), "none");
}

#[test]
fn ages_use_the_largest_whole_unit() {
    assert_eq!(format_age(0, 1_000), "unknown");
    assert_eq!(format_age(10_000, 15), "5s ago");
    assert_eq!(format_age(10_000, 130), "2m ago");
    assert_eq!(format_age(10_000, 7_210), "2h ago");
    assert_eq!(format_age(10_000, 3 * 86_400 + 10), "3d ago");
    assert_eq!(format_age(20_000, 15), "-5s ago");
    assert_eq!(format_unix_ms(-3), "unknown");
    assert!(format_unix_ms(1_000).ends_with("d ago"));
}
