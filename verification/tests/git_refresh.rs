use gestalt::git_refresh::{
    git_refresh_done, git_refresh_tick, GitContextChange, GitRefreshEvent, GitRefreshState,
    is_active_group, jitter_from_hash, jitter_offset_ms, mark_pending, select_next_refresh_path,
    ticks_for_jittered_interval, ticks_for_ms, PendingRefresh, PendingRefreshes,
};

#[test]
fn immediate_pending_overrides_scheduled() {
    let mut pending = PendingRefreshes::new();
    mark_pending(&mut pending, "/tmp/repo", PendingRefresh::Scheduled);
    mark_pending(&mut pending, "/tmp/repo", PendingRefresh::Immediate);
    assert_eq!(pending.get("/tmp/repo"), Some(PendingRefresh::Immediate));
}

#[test]
fn refresh_selection_prioritizes_active_immediate() {
    let mut pending = PendingRefreshes::new();
    mark_pending(&mut pending, "/tmp/a", PendingRefresh::Immediate);
    mark_pending(&mut pending, "/tmp/b", PendingRefresh::Immediate);
    let selected = select_next_refresh_path(&pending, Some("/tmp/b"));
    assert_eq!(selected.as_deref(), Some("/tmp/b"));
}

#[test]
fn jittered_ticks_respect_interval_floor() {
    let ticks = ticks_for_jittered_interval("/tmp/repo", true, 1);
    assert!(ticks >= 1);
}

#[test]
fn jitter_offset_respects_bounds() {
    let offset = jitter_offset_ms("/tmp/repo", 42, 4_000);
    assert!((-4_000..=4_000).contains(&offset));
}

#[test]
fn scheduled_does_not_downgrade_immediate() {
    let mut pending = PendingRefreshes::new();
    mark_pending(&mut pending, "/tmp/repo", PendingRefresh::Immediate);
    mark_pending(&mut pending, "/tmp/repo", PendingRefresh::Scheduled);
    assert_eq!(pending.get("/tmp/repo"), Some(PendingRefresh::Immediate));
    assert_eq!(pending.get("/tmp/other"), None);
}

#[test]
fn selection_order_prefers_any_immediate_over_active_scheduled() {
    let mut pending = PendingRefreshes::new();
    mark_pending(&mut pending, "/tmp/active", PendingRefresh::Scheduled);
    mark_pending(&mut pending, "/tmp/other", PendingRefresh::Immediate);
    assert_eq!(select_next_refresh_path(&pending, Some("/tmp/active")).as_deref(), Some("/tmp/other"));
    pending.remove("/tmp/other");
    assert_eq!(select_next_refresh_path(&pending, Some("/tmp/active")).as_deref(), Some("/tmp/active"));
    pending.remove("/tmp/active");
    assert_eq!(select_next_refresh_path(&pending, None), None);
}

#[test]
fn ticks_round_up() {
    assert_eq!(ticks_for_ms(0), 0);
    assert_eq!(ticks_for_ms(1), 1);
    assert_eq!(ticks_for_ms(500), 1);
    assert_eq!(ticks_for_ms(501), 2);
    assert_eq!(ticks_for_ms(5_000), 10);
}

#[test]
fn jitter_spreads_hash_values() {
    assert_eq!(jitter_from_hash(0, 500), -500);
    assert_eq!(jitter_from_hash(1000, 500), 500);
    assert_eq!(jitter_from_hash(1001, 500), -500);
    assert_eq!(jitter_from_hash(12345, 0), 0);
}

#[test]
fn active_group_matches_path_text() {
    assert!(is_active_group(&Some("/tmp/a".to_string()), "/tmp/a"));
    assert!(!is_active_group(&Some("/tmp/a".to_string()), "/tmp/b"));
    assert!(!is_active_group(&None, "/tmp/a"));
}

fn paths(list: &[&str]) -> Vec<String> {
    list.iter().map(|p| p.to_string()).collect()
}

#[test]
fn coordinator_loads_a_new_active_group_at_once_then_uses_its_cache() {
    let mut state = GitRefreshState::new();
    let known = paths(&["/a", "/b"]);
    let first = git_refresh_tick(&mut state, &known, Some("/a".to_string()), &[], 0, 1);
    assert!(first.active_changed);
    assert_eq!(first.context, GitContextChange::Loading);
    assert_eq!(first.refresh.as_deref(), Some("/a"));
    assert!(first.refresh_is_active);
    assert!(git_refresh_done(&mut state, "/a", 1));

    let quiet = git_refresh_tick(&mut state, &known, Some("/a".to_string()), &[], 0, 2);
    assert!(!quiet.active_changed);
    assert_eq!(quiet.context, GitContextChange::Unchanged);
    assert_eq!(quiet.refresh, None);

    let to_b = git_refresh_tick(&mut state, &known, Some("/b".to_string()), &[], 0, 3);
    assert_eq!(to_b.context, GitContextChange::Loading);
    assert_eq!(to_b.refresh.as_deref(), Some("/b"));
    assert!(git_refresh_done(&mut state, "/b", 3));

    let back = git_refresh_tick(&mut state, &known, Some("/a".to_string()), &[], 0, 4);
    assert!(back.active_changed);
    assert_eq!(back.context, GitContextChange::ShowCached);
    assert_eq!(back.refresh, None);

    let none = git_refresh_tick(&mut state, &known, None, &[], 0, 5);
    assert_eq!(none.context, GitContextChange::Cleared);
    assert_eq!(none.refresh, None);
}

#[test]
fn coordinator_refreshes_after_git_commands_and_debounced_changes() {
    let mut state = GitRefreshState::new();
    let known = paths(&["/a", "/b"]);
    let first = git_refresh_tick(&mut state, &known, Some("/a".to_string()), &[], 7, 1);
    assert_eq!(first.refresh.as_deref(), Some("/a"));
    git_refresh_done(&mut state, "/a", 1);

    let command = [GitRefreshEvent::GitCommandExecuted("/b".to_string())];
    let after_command = git_refresh_tick(&mut state, &known, Some("/a".to_string()), &command, 7, 2);
    assert_eq!(after_command.refresh.as_deref(), Some("/b"));
    assert!(!after_command.refresh_is_active);
    assert!(!git_refresh_done(&mut state, "/b", 2));

    let change = [GitRefreshEvent::RepoFsChanged("/a".to_string())];
    let waiting = git_refresh_tick(&mut state, &known, Some("/a".to_string()), &change, 7, 3);
    assert_eq!(waiting.refresh, None);
    let still = git_refresh_tick(&mut state, &known, Some("/a".to_string()), &[], 7, 4);
    assert_eq!(still.refresh, None);
    let settled = git_refresh_tick(&mut state, &known, Some("/a".to_string()), &[], 7, 5);
    assert_eq!(settled.refresh.as_deref(), Some("/a"));
    assert!(settled.refresh_is_active);
}

#[test]
fn coordinator_follows_the_nonce_and_forgets_removed_groups() {
    let mut state = GitRefreshState::new();
    let known = paths(&["/a"]);
    git_refresh_tick(&mut state, &known, Some("/a".to_string()), &[], 0, 1);
    git_refresh_done(&mut state, "/a", 1);
    let same = git_refresh_tick(&mut state, &known, Some("/a".to_string()), &[], 0, 2);
    assert_eq!(same.refresh, None);
    let bumped = git_refresh_tick(&mut state, &known, Some("/a".to_string()), &[], 1, 3);
    assert_eq!(bumped.refresh.as_deref(), Some("/a"));

    let command = [GitRefreshEvent::GitCommandExecuted("/gone".to_string())];
    let stray = git_refresh_tick(&mut state, &known, Some("/a".to_string()), &command, 1, 4);
    assert_eq!(stray.refresh.as_deref(), Some("/a"));
    git_refresh_done(&mut state, "/a", 4);
    let next = git_refresh_tick(&mut state, &known, Some("/a".to_string()), &[], 1, 5);
    assert_eq!(next.refresh, None);
}

#[test]
fn coordinator_marks_groups_whose_interval_has_passed() {
    let mut state = GitRefreshState::new();
    let known = paths(&["/a"]);
    git_refresh_tick(&mut state, &known, Some("/a".to_string()), &[], 0, 1);
    git_refresh_done(&mut state, "/a", 1);
    // The active interval is at most 5.5 s, eleven ticks.
    let due = git_refresh_tick(&mut state, &known, Some("/a".to_string()), &[], 0, 13);
    assert_eq!(due.refresh.as_deref(), Some("/a"));
    assert!(due.refresh_is_active);
}
