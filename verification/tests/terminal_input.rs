use gestalt::insert_mode::{KeyModifiers, TerminalKey};
use gestalt::terminal_input::{control_byte, cursor_move_bytes, key_event_to_bytes};

fn mods(ctrl: bool, alt: bool, shift: bool) -> KeyModifiers {
    KeyModifiers { ctrl, alt, shift, meta: false }
}

#[test]
fn cursor_moves_vertically_then_horizontally() {
    assert_eq!(cursor_move_bytes(2, 5, 4, 3), b"\x1b[B\x1b[B\x1b[D\x1b[D".to_vec());
    assert_eq!(cursor_move_bytes(3, 1, 2, 2), b"\x1b[A\x1b[C".to_vec());
    assert!(cursor_move_bytes(1, 1, 1, 1).is_empty());
}

#[test]
fn control_bytes_follow_terminal_conventions() {
    assert_eq!(control_byte('a'), Some(1));
    assert_eq!(control_byte('C'), Some(3));
    assert_eq!(control_byte('@'), Some(0));
    assert_eq!(control_byte('['), Some(27));
    assert_eq!(control_byte('?'), Some(127));
    assert_eq!(control_byte('!'), None);
}

#[test]
fn keys_map_to_terminal_bytes() {
    assert_eq!(key_event_to_bytes(&TerminalKey::Enter, mods(false, false, false)), Some(vec![b'\r']));
    assert_eq!(key_event_to_bytes(&TerminalKey::Tab, mods(false, false, true)), Some(b"\x1b[Z".to_vec()));
    assert_eq!(key_event_to_bytes(&TerminalKey::Delete, mods(false, false, false)), Some(b"\x1b[3~".to_vec()));
    assert_eq!(
        key_event_to_bytes(&TerminalKey::Character("c".to_string()), mods(true, false, false)),
        Some(vec![3])
    );
    assert_eq!(
        key_event_to_bytes(&TerminalKey::Character("é".to_string()), mods(false, true, false)),
        Some(vec![0x1b, 0xc3, 0xa9])
    );
    assert_eq!(key_event_to_bytes(&TerminalKey::Character(String::new()), mods(false, false, false)), None);
    assert_eq!(key_event_to_bytes(&TerminalKey::Other, mods(false, false, false)), None);
}
