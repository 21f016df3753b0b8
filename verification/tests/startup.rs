use gestalt::startup::event_needs_refresh;
use gestalt::terminal_text::{TerminalEvent, TerminalEventKind};
use gestalt::app_state::AppState;
use gestalt::startup::{
    has_deferred_startup_targets, startup_targets, visible_active_group_session_ids, SessionStartupPriority,
    ACTIVE_GROUP_STARTUP_HISTORY_LINES, DEFERRED_SESSION_STARTUP_HISTORY_LINES,
};

#[test]
fn startup_targets_prioritize_visible_active_group_sessions() {
    let mut state = AppState::default();
    let (group_id, extra_ids) = state.create_group_with_defaults("/tmp/secondary".to_string());
    let hidden_id = state.add_session(group_id);
    state.select_session(extra_ids[0]);

    let targets = startup_targets(&state);
    let visible_ids = visible_active_group_session_ids(&state);
    assert_eq!(
        targets.iter().take(visible_ids.len()).map(|target| target.session_id).collect::<Vec<_>>(),
        visible_ids
    );
    assert_eq!(
        targets.iter().find(|target| target.session_id == hidden_id).map(|target| target.priority),
        Some(SessionStartupPriority::ActiveGroupDeferred)
    );
    assert_eq!(
        targets.iter().find(|target| target.session_id == extra_ids[0]).map(|target| target.history_line_limit),
        Some(ACTIVE_GROUP_STARTUP_HISTORY_LINES)
    );
    assert_eq!(
        targets.iter().find(|target| target.session_id == hidden_id).map(|target| target.history_line_limit),
        Some(DEFERRED_SESSION_STARTUP_HISTORY_LINES)
    );
}

#[test]
fn startup_targets_place_background_groups_after_active_group() {
    let mut state = AppState::default();
    let (group_id, extra_ids) = state.create_group_with_defaults("/tmp/secondary".to_string());
    let first = state.sessions()[0].id;
    state.select_session(first);

    let targets = startup_targets(&state);
    let background_indices = extra_ids
        .iter()
        .filter_map(|session_id| targets.iter().position(|target| target.session_id == *session_id))
        .collect::<Vec<_>>();
    let active_indices = state
        .workspace_session_ids_for_group(state.active_group_id().expect("active group"))
        .into_iter()
        .filter_map(|session_id| targets.iter().position(|target| target.session_id == session_id))
        .collect::<Vec<_>>();

    assert!(background_indices.iter().all(|idx| active_indices.iter().all(|active_idx| active_idx < idx)));
    assert_eq!(
        targets.iter().find(|target| target.group_id == group_id).map(|target| target.priority),
        Some(SessionStartupPriority::BackgroundDeferred)
    );
}

#[test]
fn deferred_target_detection_ignores_started_sessions() {
    let mut state = AppState::default();
    let (_group_id, extra_ids) = state.create_group_with_defaults("/tmp/secondary".to_string());
    let mut started = visible_active_group_session_ids(&state);

    assert!(has_deferred_startup_targets(&state, &started));

    started.extend(extra_ids);
    started.extend(state.sessions().iter().map(|session| session.id));
    assert!(!has_deferred_startup_targets(&state, &started));
}

#[test]
fn startup_targets_cover_every_session_once() {
    let mut state = AppState::default();
    state.create_group_with_defaults("/tmp/other".to_string());
    let targets = startup_targets(&state);
    assert_eq!(targets.len(), state.sessions().len());
    assert_eq!(targets[0].path, ".");
    assert_eq!(targets[0].priority, SessionStartupPriority::ActiveGroupVisible);
}

#[test]
fn only_visible_snapshot_changes_ask_for_a_redraw() {
    let mut state = gestalt::app_state::AppState::default();
    let (_group, ids) = state.create_group_with_defaults("/other".to_string());
    let changed = |session_id| TerminalEvent { session_id, kind: TerminalEventKind::SnapshotChanged };
    assert!(event_needs_refresh(&state, &changed(1)));
    assert!(event_needs_refresh(&state, &changed(3)));
    assert!(!event_needs_refresh(&state, &changed(ids[0])));
    assert!(!event_needs_refresh(&state, &TerminalEvent { session_id: 1, kind: TerminalEventKind::Activity }));
}
