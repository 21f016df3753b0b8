use gestalt::app_state::AppState;
use gestalt::state::{SessionRole, SessionStatus};

#[test]
fn default_state_has_one_group_with_three_sessions() {
    let state = AppState::default();
    assert_eq!(state.groups().len(), 1);
    assert_eq!(state.groups()[0].path, ".");
    assert_eq!(state.sessions().len(), 3);
    assert_eq!(state.sessions()[2].role, SessionRole::Runner);
    assert_eq!(state.selected_session(), Some(1));
    assert_eq!(state.revision(), 1);
    assert!(!state.has_commands());
}

#[test]
fn revision_moves_only_on_mutation() {
    let mut state = AppState::default();
    let start = state.revision();
    state.select_session(1);
    assert_eq!(state.revision(), start);
    state.select_session(2);
    assert_eq!(state.revision(), start + 1);
    state.rename_session(2, "   ".to_string());
    assert_eq!(state.revision(), start + 1);
    state.cycle_session_status(2);
    assert_eq!(state.revision(), start + 2);
    assert_eq!(state.sessions()[1].status, SessionStatus::Busy);
    assert!(!state.remove_session(99));
    assert_eq!(state.revision(), start + 2);
}

#[test]
fn removing_a_group_removes_its_notes() {
    let mut state = AppState::default();
    let (group_id, _ids) = state.create_group_with_defaults("/tmp/notes".to_string());
    let note = state.create_note_for_group(group_id, "Plan".to_string(), 5);
    assert!(state.note_by_id(note).is_some());
    let removed = state.remove_group(group_id);
    assert_eq!(removed.len(), 3);
    assert!(state.note_by_id(note).is_none());
}

#[test]
fn create_note_uses_the_active_group() {
    let mut state = AppState::default();
    let note = state.create_note("Idea".to_string(), 1).expect("active group");
    assert_eq!(state.note_by_id(note).map(|n| n.group_id), Some(1));
    assert_eq!(state.selected_note_id(), Some(note));
}

#[test]
fn seeding_commands_copies_only_into_an_empty_library() {
    let mut source = AppState::default();
    source.create_insert_command("build".to_string(), "cargo build".to_string(), String::new(), vec![]);
    let mut target = AppState::default();
    assert!(target.seed_commands_from(&source));
    assert_eq!(target.commands().len(), 1);
    assert!(!target.seed_commands_from(&source));
    let empty = AppState::default();
    assert!(!source.seed_commands_from(&empty));
}

#[test]
fn restoring_resets_the_revision() {
    let mut state = AppState::default();
    state.select_session(2);
    let restored = state.into_restored();
    assert_eq!(restored.revision(), 0);
    assert_eq!(restored.groups().len(), 1);
}

#[test]
fn removing_a_group_without_sessions_drops_its_notes_and_bumps_revision() {
    let mut state = AppState::default();
    let group = state.add_group_with_path("/x".to_string());
    state.create_note_for_group(group, "n".to_string(), 0);
    let before = state.revision();
    let removed = state.remove_group(group);
    assert!(removed.is_empty());
    assert!(!state.groups().iter().any(|g| g.id == group));
    assert!(state.notes_for_group(group).is_empty());
    assert!(state.revision() > before);
}

#[test]
fn repair_leaves_every_session_under_an_existing_group() {
    let mut state = AppState::default();
    let group = state.add_group_with_path("/y".to_string());
    state.add_session(group);
    state.repair_after_restore();
    assert!(!state.sessions().is_empty());
    for session in state.sessions() {
        assert!(state.groups().iter().any(|g| g.id == session.group_id));
    }
    let selected = state.selected_session().unwrap();
    assert!(state.sessions().iter().any(|s| s.id == selected));
}

#[test]
fn a_second_restore_repair_changes_nothing() {
    let mut state = AppState::default();
    let group = state.add_group_with_path("/z".to_string());
    state.create_note_for_group(group, "   ".to_string(), 5);
    state.repair_after_restore();
    let notes_once: Vec<(u64, u32, String)> =
        state.notes().iter().map(|n| (n.id, n.group_id, n.title.clone())).collect();
    let sessions_once = state.sessions().len();
    let selected_once = state.selected_session();
    state.repair_after_restore();
    let notes_twice: Vec<(u64, u32, String)> =
        state.notes().iter().map(|n| (n.id, n.group_id, n.title.clone())).collect();
    assert_eq!(notes_once, notes_twice);
    assert_eq!(sessions_once, state.sessions().len());
    assert_eq!(selected_once, state.selected_session());
}

#[test]
fn created_commands_get_unused_ids_and_deleted_ones_are_gone() {
    let mut state = AppState::default();
    let first = state.create_insert_command("a".to_string(), "one".to_string(), String::new(), vec![]);
    assert!(state.command_by_id(first + 1).is_none());
    let second = state.create_insert_command("b".to_string(), "two".to_string(), String::new(), vec![]);
    assert_ne!(first, second);
    assert_eq!(state.commands().len(), 2);
    assert_eq!(state.command_by_id(second).map(|c| c.name.as_str()), Some("b"));
    assert!(state.delete_insert_command(first));
    assert!(state.command_by_id(first).is_none());
    assert_eq!(state.commands().len(), 1);
    assert!(!state.delete_insert_command(first));
    assert_eq!(state.commands().len(), 1);
}
