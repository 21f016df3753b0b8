use gestalt::app_state::AppState;
use gestalt::emulator_projection::{
    coalesce_damage_spans, collect_damage, map_color, map_flags, project_cursor, GridColor, LineDamage, ViewportSize,
};
use gestalt::file_browser::{file_browser_entry_ordering, FileBrowserEntry};
use gestalt::native_session::{NativeTerminalError, NativeTerminalSessionConfig};
use gestalt::raster::{build_tile, TileCacheKey};
use gestalt::terminal_model::{TerminalColor, TerminalCursorShape, TerminalDamage, TerminalDamageSpan};
use gestalt::terminal_text::{
    map_native_terminal_error, startup_geometry, terminal_snapshot_from_parser, terminal_snapshot_from_screen, PersistedTerminalState,
    prepend_session_history, ScrollbackBuffer, TerminalError, VtTerminal,
};
use std::cmp::Ordering;

fn entry(name: &str, is_dir: bool) -> FileBrowserEntry {
    FileBrowserEntry {
        name: name.to_string(),
        path: name.to_string(),
        is_dir,
        file_size_bytes: None,
        modified: false,
        ignored: false,
    }
}

fn restored(cwd: &str, rows: u16, cols: u16) -> PersistedTerminalState {
    PersistedTerminalState {
        session_id: 1,
        cwd: cwd.to_string(),
        rows,
        cols,
        cursor_row: 0,
        cursor_col: 0,
        hide_cursor: false,
        bracketed_paste: false,
        lines: Vec::new(),
    }
}

#[test]
fn ill_formed_output_bytes_decode_with_replacement() {
    let mut scrollback = ScrollbackBuffer::from_restored(Vec::new());
    scrollback.process_bytes(b"caf\xe9\nok\n");
    assert_eq!(scrollback.lines, vec!["caf\u{fffd}".to_string(), "ok".to_string()]);
}

#[test]
fn entry_names_compare_without_case() {
    assert_eq!(file_browser_entry_ordering(&entry("alpha.txt", false), &entry("Beta.txt", false)), Ordering::Less);
    assert_eq!(file_browser_entry_ordering(&entry("Zed", true), &entry("alpha.txt", false)), Ordering::Less);
}

#[test]
fn group_labels_use_the_last_path_component() {
    let mut state = AppState::default();
    let group_id = state.add_group_with_path("/home/me/repo".to_string());
    assert_eq!(state.group_label(group_id), "repo");
    assert_eq!(state.group_label(1), ".");
}

#[test]
fn basic_glyph_tiles_draw_the_letter() {
    let white = [255, 255, 255, 255];
    let black = [0, 0, 0, 255];
    let key = |c: char| TileCacheKey { codepoint: c, fg: white, bg: black, hidden: false, spacer: false, missing: false };
    let letter = build_tile(8, 8, key('A'));
    let blank = build_tile(8, 8, key(' '));
    let lit = |tile: &Vec<u8>| tile.chunks(4).filter(|p| p == &white).count();
    assert!(lit(&letter) > 0);
    assert_eq!(lit(&blank), 0);
    assert_eq!(&letter[0..4], &black);
}

#[test]
fn viewport_sizes_keep_the_emulator_minimum() {
    assert_eq!(ViewportSize::new(0, 0), ViewportSize { rows: 1, cols: 2 });
    assert_eq!(ViewportSize::new(5, 9), ViewportSize { rows: 5, cols: 9 });
    assert_eq!(ViewportSize::new(3, 4).cell_count(), 12);
}

#[test]
fn emulator_colors_and_flags_map_to_frame_values() {
    assert_eq!(map_color(GridColor::Named(256)), TerminalColor::DefaultForeground);
    assert_eq!(map_color(GridColor::Named(268)), TerminalColor::DefaultBackground);
    assert_eq!(map_color(GridColor::Named(258)), TerminalColor::Cursor);
    assert_eq!(map_color(GridColor::Named(1)), TerminalColor::Palette(1));
    assert_eq!(map_color(GridColor::Indexed(200)), TerminalColor::Palette(200));
    assert_eq!(map_color(GridColor::Spec { r: 1, g: 2, b: 3 }), TerminalColor::Rgb { r: 1, g: 2, b: 3 });
    assert_eq!(map_flags(0b11).bits(), 0b11);
    assert_eq!(map_flags(0xffff).bits(), 0x7fff);
}

#[test]
fn damage_spans_coalesce_on_the_same_row() {
    let mut spans = vec![
        TerminalDamageSpan { row: 0, left: 0, right: 2 },
        TerminalDamageSpan { row: 0, left: 3, right: 5 },
        TerminalDamageSpan { row: 0, left: 9, right: 9 },
        TerminalDamageSpan { row: 1, left: 0, right: 1 },
    ];
    coalesce_damage_spans(&mut spans);
    assert_eq!(
        spans,
        vec![
            TerminalDamageSpan { row: 0, left: 0, right: 5 },
            TerminalDamageSpan { row: 0, left: 9, right: 9 },
            TerminalDamageSpan { row: 1, left: 0, right: 1 },
        ]
    );
    assert_eq!(collect_damage(None), TerminalDamage::Full);
    assert_eq!(
        collect_damage(Some(vec![LineDamage { line: 2, left: 1, right: 3 }])),
        TerminalDamage::Partial(vec![TerminalDamageSpan { row: 2, left: 1, right: 3 }])
    );
}

#[test]
fn cursors_off_screen_are_hidden() {
    let on = project_cursor(Some((2, 3)), TerminalCursorShape::Beam);
    assert_eq!((on.row, on.col, on.shape), (2, 3, TerminalCursorShape::Beam));
    let off = project_cursor(None, TerminalCursorShape::Block);
    assert_eq!((off.row, off.col, off.shape), (0, 0, TerminalCursorShape::Hidden));
}

#[test]
fn startup_geometry_prefers_restored_state() {
    assert_eq!(startup_geometry(None, "/work"), ("/work".to_string(), 42, 140));
    let state = restored("/repo", 1, 3);
    assert_eq!(startup_geometry(Some(&state), "/work"), ("/repo".to_string(), 2, 8));
    let blank = restored("   ", 30, 100);
    assert_eq!(startup_geometry(Some(&blank), "/work"), ("/work".to_string(), 30, 100));
}

#[test]
fn screen_snapshots_merge_scrollback_and_move_the_cursor() {
    let scrollback = vec!["a".to_string(), "b".to_string()];
    let visible = vec!["b".to_string(), "c".to_string()];
    let snapshot = terminal_snapshot_from_screen(&scrollback, &visible, 2, 10, 1, 4, true, false);
    assert_eq!(snapshot.lines, vec!["a".to_string(), "b".to_string(), "c".to_string()]);
    assert_eq!(snapshot.cursor_row, 2);
    assert_eq!(snapshot.cursor_col, 4);
    assert!(snapshot.hide_cursor);
    assert!(!snapshot.bracketed_paste);
}

#[test]
fn native_errors_keep_their_details() {
    assert!(matches!(
        map_native_terminal_error(NativeTerminalError::ResizePty("busy".to_string())),
        TerminalError::ResizePty(details) if details == "busy"
    ));
    assert!(matches!(
        map_native_terminal_error(NativeTerminalError::StartShell { cwd: "/x".to_string(), details: "no".to_string() }),
        TerminalError::StartShell { cwd, details } if cwd == "/x" && details == "no"
    ));
    let config = NativeTerminalSessionConfig { cwd: "/x".to_string(), rows: 3, cols: 4, scrollback: 5 };
    let emulator = config.emulator_config();
    assert_eq!((emulator.rows, emulator.cols, emulator.scrollback), (3, 4, 5));
}

#[test]
fn parser_screens_snapshot_after_the_scrollback() {
    let mut parser = VtTerminal::new(3, 10, 100);
    parser.process(b"hello\r\nworld\x1b[?2004h");
    let snapshot = terminal_snapshot_from_parser(&parser, &["old".to_string()]);
    assert_eq!(
        snapshot.lines,
        vec!["old".to_string(), "hello".to_string(), "world".to_string(), String::new()]
    );
    assert_eq!((snapshot.rows, snapshot.cols), (3, 10));
    assert_eq!((snapshot.cursor_row, snapshot.cursor_col), (2, 5));
    assert!(snapshot.bracketed_paste);
    assert!(!snapshot.hide_cursor);
}

#[test]
fn prepending_session_history_reports_missing_sessions_and_growth() {
    let mut lines = vec!["new".to_string()];
    assert!(matches!(prepend_session_history(&mut lines, true, &[]), Ok(0)));
    assert!(matches!(
        prepend_session_history(&mut lines, false, &["old".to_string()]),
        Err(TerminalError::SessionMissing)
    ));
    assert_eq!(lines, vec!["new".to_string()]);
    assert!(matches!(prepend_session_history(&mut lines, true, &["old".to_string()]), Ok(1)));
    assert_eq!(lines, vec!["old".to_string(), "new".to_string()]);
}
