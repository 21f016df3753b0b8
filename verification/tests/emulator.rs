use gestalt::emulator::{point_to_viewport, AlacrittyEmulator, AlacrittyEmulatorConfig};
use gestalt::terminal_model::{
    TerminalCell, TerminalCellPublication, TerminalColor, TerminalCursorShape, TerminalDamage, TerminalFrame,
};

fn changed_cells(frame: &TerminalFrame) -> Vec<(u16, u16, TerminalCell)> {
    let Some(changes) = frame.changed_spans() else {
        return Vec::new();
    };

    changes
        .spans()
        .iter()
        .flat_map(|change| {
            changes
                .cells_for_span(change)
                .iter()
                .enumerate()
                .map(|(offset, cell)| (change.row, change.left + offset as u16, cell.clone()))
                .collect::<Vec<_>>()
        })
        .collect()
}

fn change_at(changes: &[(u16, u16, TerminalCell)], row: u16, col: u16) -> Option<&TerminalCell> {
    changes
        .iter()
        .find(|(candidate_row, candidate_col, _)| *candidate_row == row && *candidate_col == col)
        .map(|(_, _, cell)| cell)
}

#[test]
fn snapshot_projects_text_cursor_and_damage() {
    let mut emulator = AlacrittyEmulator::new(AlacrittyEmulatorConfig { rows: 4, cols: 8, scrollback: 128 });

    let initial = emulator.snapshot();
    assert_eq!(initial.damage, TerminalDamage::Full);

    emulator.ingest(b"hi");
    let frame = emulator.snapshot();

    assert_eq!(frame.cursor.row, 0);
    assert_eq!(frame.cursor.col, 2);
    let changes = changed_cells(&frame);
    assert_eq!(change_at(&changes, 0, 0).unwrap().codepoint, 'h');
    assert_eq!(change_at(&changes, 0, 1).unwrap().codepoint, 'i');
    match &frame.damage {
        TerminalDamage::Full => panic!("expected partial damage after steady-state update"),
        TerminalDamage::Partial(lines) => assert!(lines.iter().any(|line| line.row == 0)),
    }
}

#[test]
fn snapshot_projects_modes_and_colors() {
    let mut emulator = AlacrittyEmulator::new(AlacrittyEmulatorConfig { rows: 4, cols: 8, scrollback: 128 });

    let _ = emulator.snapshot();
    emulator.ingest(b"\x1b[31mR\x1b[0m\x1b[?2004h\x1b[?25l");
    let frame = emulator.snapshot();

    assert!(frame.bracketed_paste);
    assert_eq!(frame.cursor.shape, TerminalCursorShape::Hidden);
    assert_eq!(change_at(&changed_cells(&frame), 0, 0).unwrap().fg, TerminalColor::Palette(1));
}

#[test]
fn resize_marks_terminal_fully_damaged() {
    let mut emulator = AlacrittyEmulator::new(AlacrittyEmulatorConfig { rows: 2, cols: 4, scrollback: 128 });

    let _ = emulator.snapshot();
    emulator.ingest(b"abcd");
    let _ = emulator.snapshot();

    assert!(emulator.resize(3, 6));
    let frame = emulator.snapshot();

    assert_eq!(frame.rows, 3);
    assert_eq!(frame.cols, 6);
    assert_eq!(frame.damage, TerminalDamage::Full);
    assert!(matches!(frame.publication, TerminalCellPublication::Full(_)));
    assert_eq!(frame.cell(0, 0).unwrap().codepoint, 'a');
}

#[test]
fn partial_damage_updates_preserve_undamaged_cells() {
    let mut emulator = AlacrittyEmulator::new(AlacrittyEmulatorConfig { rows: 4, cols: 8, scrollback: 128 });

    let _ = emulator.snapshot();
    emulator.ingest(b"hi");
    let _ = emulator.snapshot();

    emulator.ingest(b"!");
    let frame = emulator.snapshot();

    let changes = changed_cells(&frame);
    assert!(change_at(&changes, 0, 0).is_none());
    assert!(change_at(&changes, 0, 1).is_none());
    assert_eq!(change_at(&changes, 0, 2).unwrap().codepoint, '!');
    assert!(matches!(frame.damage, TerminalDamage::Partial(_)));
}

#[test]
fn resize_to_the_same_clamped_size_changes_nothing() {
    let mut emulator = AlacrittyEmulator::new(AlacrittyEmulatorConfig { rows: 0, cols: 1, scrollback: 16 });
    assert!(!emulator.resize(1, 2));
    assert!(!emulator.resize(0, 0));
    let frame = emulator.snapshot();
    assert_eq!((frame.rows, frame.cols), (1, 2));
    assert!(emulator.resize(2, 2));
}

#[test]
fn empty_input_leaves_the_screen_alone() {
    let mut emulator = AlacrittyEmulator::new(AlacrittyEmulatorConfig { rows: 2, cols: 4, scrollback: 16 });
    let _ = emulator.snapshot();
    emulator.ingest(b"");
    let frame = emulator.snapshot();
    assert_eq!(frame.cursor.row, 0);
    assert_eq!(frame.cursor.col, 0);
    assert!(changed_cells(&frame).iter().all(|(_, _, cell)| cell.codepoint == ' '));
}

#[test]
fn viewport_points_shift_by_the_scroll_offset() {
    assert_eq!(point_to_viewport(0, 3, 5), Some((3, 5)));
    assert_eq!(point_to_viewport(4, -2, 1), Some((2, 1)));
    assert_eq!(point_to_viewport(1, -2, 1), None);
}

#[test]
fn profiled_snapshot_reports_the_same_frame_shape() {
    let mut emulator = AlacrittyEmulator::new(AlacrittyEmulatorConfig::default());
    let (frame, _profile) = emulator.snapshot_profiled();
    assert_eq!((frame.rows, frame.cols), (42, 140));
    assert_eq!(frame.full_cells().map(|cells| cells.len()), Some(42 * 140));
}
