use gestalt::insert_mode::{KeyModifiers, TerminalKey};
use gestalt::shortcuts::{crt_toggle_requested, gui_scale_direction, root_page_scroll_delta, PageCode, ScaleDirection};

#[test]
fn recognizes_ctrl_plus_for_zoom_in() {
    assert_eq!(
        gui_scale_direction(&TerminalKey::Character("+".to_string()), true, false, false),
        Some(ScaleDirection::ZoomIn)
    );
}

#[test]
fn recognizes_ctrl_minus_for_zoom_out() {
    assert_eq!(
        gui_scale_direction(&TerminalKey::Character("-".to_string()), true, false, false),
        Some(ScaleDirection::ZoomOut)
    );
}

#[test]
fn recognizes_ctrl_one_for_crt_toggle() {
    assert!(crt_toggle_requested(&TerminalKey::Character("1".to_string()), true, false, false, false));
}

#[test]
fn ignores_modified_crt_toggle_chords() {
    assert!(!crt_toggle_requested(&TerminalKey::Character("1".to_string()), true, false, true, false));
    assert!(!crt_toggle_requested(&TerminalKey::Character("1".to_string()), true, true, false, false));
}

#[test]
fn zoom_needs_ctrl_or_meta_and_no_alt() {
    let plus = TerminalKey::Character("=".to_string());
    assert_eq!(gui_scale_direction(&plus, false, true, false), Some(ScaleDirection::ZoomIn));
    assert_eq!(gui_scale_direction(&plus, false, false, false), None);
    assert_eq!(gui_scale_direction(&plus, true, false, true), None);
    assert_eq!(gui_scale_direction(&TerminalKey::Character("x".to_string()), true, false, false), None);
}

#[test]
fn page_keys_scroll_by_visible_rows() {
    let none = KeyModifiers { ctrl: false, alt: false, shift: false, meta: false };
    assert_eq!(root_page_scroll_delta(&TerminalKey::PageUp, PageCode::Other, none, 24), Some(24));
    assert_eq!(root_page_scroll_delta(&TerminalKey::PageDown, PageCode::Other, none, 0), Some(-1));
    assert_eq!(root_page_scroll_delta(&TerminalKey::Other, PageCode::PageDown, none, 10), Some(-10));
    let shift = KeyModifiers { shift: true, ..none };
    assert_eq!(root_page_scroll_delta(&TerminalKey::PageUp, PageCode::PageUp, shift, 10), None);
}
