use gestalt::app_state::AppState;
use gestalt::workspace::WorkspaceState;
use gestalt::panel_dock::{AuxiliaryPanelHost, AuxiliaryPanelKind};
use gestalt::state::{
    clamp_group_runner_width_px, parse_snippet_reference_tokens, snippet_reference_token, NewSnippet,
    SessionRole, SessionStatus, SnippetEmbeddingStatus, VisibleAgentSlot,
};

fn new_snippet(session_id: u32, text: &str) -> NewSnippet {
    NewSnippet {
        source_session_id: session_id,
        source_stream_id: "stream-1".to_string(),
        source_cwd: "/work".to_string(),
        text_snapshot_plain: text.to_string(),
        start_offset: 10,
        end_offset: 20,
        start_row: 1,
        end_row: 2,
        created_at_unix_ms: 7,
    }
}

#[test]
fn status_cycle_returns_after_three_steps() {
    for status in [SessionStatus::Idle, SessionStatus::Busy, SessionStatus::Error] {
        assert_eq!(status.next().next().next(), status);
        assert_ne!(status.next(), status);
    }
    assert_eq!(SessionStatus::Idle.next(), SessionStatus::Busy);
}

#[test]
fn runner_width_is_clamped_to_its_range() {
    assert_eq!(clamp_group_runner_width_px(0), 260);
    assert_eq!(clamp_group_runner_width_px(500), 500);
    assert_eq!(clamp_group_runner_width_px(10_000), 760);
    let mut state = WorkspaceState::default();
    state.create_group_with_defaults(".".to_string());
    assert!(state.set_group_runner_width_px(1, 100));
    assert_eq!(state.group_layout(1).runner_width_px, 260);
    assert!(!state.set_group_runner_width_px(1, 200));
}

#[test]
fn snippet_tokens_round_trip_through_the_parser() {
    let token = snippet_reference_token(42);
    assert_eq!(token, "[[snippet:42]]");
    let markdown = format!("see {} and {} or [[snippet:x]]", token, snippet_reference_token(7));
    assert_eq!(parse_snippet_reference_tokens(&markdown), vec![42, 7]);
    assert_eq!(parse_snippet_reference_tokens("[[snippet:]] [[snippet:3"), Vec::<u64>::new());
}

#[test]
fn default_group_has_two_agents_and_a_runner() {
    let mut state = WorkspaceState::default();
    let (group_id, ids) = state.create_group_with_defaults("/repo".to_string());
    assert_eq!(ids.len(), 3);
    let (agents, runner) = state.workspace_sessions_for_group(group_id);
    assert_eq!(agents.len(), 2);
    assert_eq!(agents[0].role, SessionRole::Agent);
    assert_eq!(runner.map(|s| s.role), Some(SessionRole::Runner));
    assert_eq!(state.selected_session(), Some(ids[0]));
    assert_eq!(state.active_group_id(), Some(group_id));
}

#[test]
fn removing_the_selected_session_selects_one_of_its_group() {
    let mut state = WorkspaceState::default();
    state.create_group_with_defaults(".".to_string());
    assert_eq!(state.selected_session(), Some(1));
    assert!(state.remove_session(1));
    assert_eq!(state.selected_session(), Some(2));
    assert!(state.remove_session(2));
    assert!(state.remove_session(3));
    assert_eq!(state.selected_session(), None);
    assert!(!state.remove_session(3));
}

#[test]
fn moving_sessions_changes_order_and_group() {
    let mut state = WorkspaceState::default();
    state.create_group_with_defaults(".".to_string());
    let (group_id, ids) = state.create_group_with_defaults("/other".to_string());
    assert!(state.move_session_before(3, 1));
    let order: Vec<u32> = state.sessions().iter().map(|s| s.id).collect();
    assert_eq!(&order[..3], &[3, 1, 2]);
    assert!(!state.move_session_before(3, 3));
    assert!(state.move_session_to_group_end(1, group_id));
    assert_eq!(state.session_ids_in_group(group_id).last(), Some(&1));
    assert_eq!(state.session_ids_in_group(group_id).len(), ids.len() + 1);
}

#[test]
fn swapping_into_the_bottom_agent_slot() {
    let mut state = WorkspaceState::default();
    state.create_group_with_defaults(".".to_string());
    assert_eq!(state.workspace_session_ids_for_group(1), vec![1, 2, 3]);
    assert!(state.swap_session_with_visible_agent_slot(3, VisibleAgentSlot::Bottom));
    assert_eq!(state.selected_session(), Some(3));
    assert!(!state.swap_session_with_visible_agent_slot(99, VisibleAgentSlot::Top));
}

#[test]
fn session_status_counts_follow_updates() {
    let mut state = WorkspaceState::default();
    state.create_group_with_defaults(".".to_string());
    assert_eq!(state.session_count_by_status(SessionStatus::Idle), 3);
    assert!(state.set_session_status(2, SessionStatus::Error));
    assert!(!state.set_session_status(2, SessionStatus::Error));
    assert_eq!(state.session_count_by_status(SessionStatus::Error), 1);
    assert!(state.rename_session(2, "  build  ".to_string()));
    assert_eq!(state.sessions()[1].title, "build");
}

#[test]
fn auxiliary_panels_move_between_hosts() {
    let mut state = WorkspaceState::default();
    state.create_group_with_defaults(".".to_string());
    assert_eq!(
        state.auxiliary_panel_tabs(AuxiliaryPanelHost::RunSidebar),
        vec![AuxiliaryPanelKind::LocalAgent, AuxiliaryPanelKind::RunReview, AuxiliaryPanelKind::Notes]
    );
    assert_eq!(state.active_auxiliary_panel(AuxiliaryPanelHost::SidePanel), Some(AuxiliaryPanelKind::Commands));
    assert!(state.move_auxiliary_panel_to_host_end(AuxiliaryPanelKind::Git, AuxiliaryPanelHost::RunSidebar));
    assert_eq!(state.auxiliary_panel_tabs(AuxiliaryPanelHost::RunSidebar).last(), Some(&AuxiliaryPanelKind::Git));
    assert!(state.move_auxiliary_panel_before(AuxiliaryPanelKind::Files, AuxiliaryPanelKind::LocalAgent));
    assert_eq!(state.auxiliary_panel_tabs(AuxiliaryPanelHost::RunSidebar)[0], AuxiliaryPanelKind::Files);
    assert_eq!(state.auxiliary_panel_tabs(AuxiliaryPanelHost::SidePanel), vec![AuxiliaryPanelKind::Commands]);
    assert!(state.set_active_auxiliary_panel(AuxiliaryPanelHost::RunSidebar, AuxiliaryPanelKind::Notes));
    assert_eq!(state.active_auxiliary_panel(AuxiliaryPanelHost::RunSidebar), Some(AuxiliaryPanelKind::Notes));
}

#[test]
fn created_notes_are_found_and_updated() {
    let mut state = AppState::default();
    let note = state.create_note_for_group(1, "   ".to_string(), 3);
    let found = state.note_by_id(note).expect("created note");
    assert_eq!(found.title, "Note");
    assert_eq!(found.markdown, "");
    assert!(state.update_note_markdown(note, "# Plan".to_string(), 4));
    assert!(!state.update_note_markdown(note, "# Plan".to_string(), 4));
    assert!(state.append_note_snippet_reference(note, 9, 5));
    assert!(state.note_by_id(note).unwrap().markdown.contains("[[snippet:9]]"));
    assert!(!state.update_note_markdown(note + 100, "x".to_string(), 1));
}

#[test]
fn created_snippets_are_found_and_their_embedding_tracked() {
    let mut state = AppState::default();
    let id = state.create_snippet(new_snippet(2, "cargo test"));
    let snippet = state.snippet_by_id(id).expect("created snippet");
    assert_eq!(snippet.text_snapshot_plain, "cargo test");
    assert_eq!(snippet.embedding_status, SnippetEmbeddingStatus::Pending);
    assert_eq!(state.snippets_for_session(2).len(), 1);
    assert!(state.set_snippet_embedding_processing(id));
    assert!(state.set_snippet_embedding_ready(id, "obj".to_string(), None, Some(3)));
    assert_eq!(state.snippet_by_id(id).unwrap().embedding_status, SnippetEmbeddingStatus::Ready);
    assert!(state.set_snippet_embedding_failed(id, "boom".to_string()));
    assert_eq!(state.snippet_by_id(id).unwrap().embedding_error.as_deref(), Some("boom"));
    assert!(state.delete_snippet(id));
    assert!(state.snippet_by_id(id).is_none());
    assert!(!state.delete_snippet(id));
}

#[test]
fn created_commands_are_found_updated_and_deleted() {
    let mut state = AppState::default();
    let id = state.create_insert_command("review".to_string(), "Review this".to_string(), "".to_string(), vec![
        "code".to_string(),
    ]);
    assert_eq!(state.command_by_id(id).map(|c| c.name.clone()), Some("review".to_string()));
    assert!(state.update_insert_command(id, "audit".to_string(), "Audit".to_string(), "d".to_string(), vec![]));
    assert_eq!(state.command_by_id(id).map(|c| c.prompt.clone()), Some("Audit".to_string()));
    assert!(state.delete_insert_command(id));
    assert!(state.command_by_id(id).is_none());
    assert!(!state.delete_insert_command(id));
}
