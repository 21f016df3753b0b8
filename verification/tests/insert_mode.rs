use gestalt::insert_mode::{
    mode_after_blur, mode_after_focus, reduce_insert_mode_key, route_terminal_key, InsertModeOutcome,
    InsertModeSelection, InsertModeState, KeyModifiers, TerminalKey, TerminalKeyRoute,
};

fn no_modifiers() -> KeyModifiers {
    KeyModifiers { ctrl: false, alt: false, shift: false, meta: false }
}

#[test]
fn character_input_keeps_session_target() {
    let mode = InsertModeState { session_id: 42, query: "bu".to_string(), highlighted_index: 0 };
    let outcome = reduce_insert_mode_key(
        &mode,
        &TerminalKey::Character("i".to_string()),
        no_modifiers(),
        InsertModeSelection { selected_command_id: None, match_count: 0 },
    );

    match outcome {
        InsertModeOutcome::Keep(next) => {
            assert_eq!(next.session_id, 42);
            assert_eq!(next.query, "bui");
        }
        _ => panic!("expected keep outcome"),
    }
}

#[test]
fn enter_submits_selected_command() {
    let mode = InsertModeState { session_id: 7, query: "build".to_string(), highlighted_index: 0 };
    let outcome = reduce_insert_mode_key(
        &mode,
        &TerminalKey::Enter,
        no_modifiers(),
        InsertModeSelection { selected_command_id: Some(99), match_count: 3 },
    );

    match outcome {
        InsertModeOutcome::Submit(command_id) => assert_eq!(command_id, 99),
        _ => panic!("expected submit outcome"),
    }
}

#[test]
fn arrows_wrap_highlight_index() {
    let mode = InsertModeState { session_id: 1, query: "x".to_string(), highlighted_index: 0 };

    let up = reduce_insert_mode_key(
        &mode,
        &TerminalKey::ArrowUp,
        no_modifiers(),
        InsertModeSelection { selected_command_id: Some(1), match_count: 3 },
    );
    match up {
        InsertModeOutcome::Keep(next) => assert_eq!(next.highlighted_index, 2),
        _ => panic!("expected keep outcome"),
    }

    let down = reduce_insert_mode_key(
        &mode,
        &TerminalKey::ArrowDown,
        no_modifiers(),
        InsertModeSelection { selected_command_id: Some(1), match_count: 3 },
    );
    match down {
        InsertModeOutcome::Keep(next) => assert_eq!(next.highlighted_index, 1),
        _ => panic!("expected keep outcome"),
    }
}

#[test]
fn route_insert_opens_mode_when_closed() {
    let route = route_terminal_key(
        None,
        &TerminalKey::Insert,
        no_modifiers(),
        InsertModeSelection { selected_command_id: None, match_count: 0 },
    );

    assert!(matches!(route, TerminalKeyRoute::OpenMode));
}

#[test]
fn route_slash_passthrough_when_closed() {
    let route = route_terminal_key(
        None,
        &TerminalKey::Character("/".to_string()),
        no_modifiers(),
        InsertModeSelection { selected_command_id: None, match_count: 0 },
    );

    assert!(matches!(route, TerminalKeyRoute::Passthrough));
}

#[test]
fn route_ctrl_c_passthrough_when_closed() {
    let route = route_terminal_key(
        None,
        &TerminalKey::Character("c".to_string()),
        KeyModifiers { ctrl: true, alt: false, shift: false, meta: false },
        InsertModeSelection { selected_command_id: None, match_count: 0 },
    );

    assert!(matches!(route, TerminalKeyRoute::Passthrough));
}

#[test]
fn shift_insert_does_not_open_command_mode() {
    let route = route_terminal_key(
        None,
        &TerminalKey::Insert,
        KeyModifiers { ctrl: false, alt: false, shift: true, meta: false },
        InsertModeSelection { selected_command_id: None, match_count: 0 },
    );

    assert!(matches!(route, TerminalKeyRoute::Passthrough));
}

#[test]
fn route_keys_are_consumed_when_mode_open() {
    let mode = InsertModeState { session_id: 5, query: "d".to_string(), highlighted_index: 0 };
    let route = route_terminal_key(
        Some(&mode),
        &TerminalKey::Character("/".to_string()),
        no_modifiers(),
        InsertModeSelection { selected_command_id: None, match_count: 1 },
    );

    assert!(matches!(route, TerminalKeyRoute::HandleMode(_)));
}

#[test]
fn focus_change_closes_mode_for_other_session() {
    let mode = Some(InsertModeState { session_id: 10, query: String::new(), highlighted_index: 0 });

    assert!(mode_after_focus(mode.clone(), 11).is_none());
    assert!(mode_after_focus(mode.clone(), 10).is_some());
    assert!(mode_after_blur(mode, 10).is_none());
}
