use gestalt::native_frame::{native_frame_content_cols, snapshot_content_cols, NativeTerminalFrame};
use gestalt::terminal_model::{
    TerminalCell, TerminalCellFlags, TerminalCellPublication, TerminalCursor, TerminalCursorShape,
    TerminalDamage, TerminalFrame, FLAG_HIDDEN,
};
use gestalt::terminal_text::TerminalSnapshot;
use std::sync::Arc;

fn snapshot(lines: &[&str], rows: u16, cols: u16, cursor_row: u16, cursor_col: u16) -> TerminalSnapshot {
    TerminalSnapshot {
        lines: lines.iter().map(|line| (*line).to_string()).collect(),
        rows,
        cols,
        cursor_row,
        cursor_col,
        hide_cursor: false,
        bracketed_paste: false,
    }
}

fn full_frame(lines: &[&str], rows: u16, cols: u16, cursor_row: u16, cursor_col: u16) -> TerminalFrame {
    let mut cells = vec![TerminalCell::default(); usize::from(rows) * usize::from(cols)];
    for (row_index, line) in lines.iter().enumerate() {
        for (col_index, codepoint) in line.chars().enumerate() {
            let index = row_index * usize::from(cols) + col_index;
            cells[index].codepoint = codepoint;
        }
    }

    TerminalFrame {
        rows,
        cols,
        history_size: 0,
        cursor: TerminalCursor { row: cursor_row, col: cursor_col, shape: TerminalCursorShape::Block },
        bracketed_paste: false,
        display_offset: 0,
        damage: TerminalDamage::Full,
        publication: TerminalCellPublication::Full(Arc::new(cells)),
    }
}

fn cell(codepoint: char) -> TerminalCell {
    TerminalCell { codepoint, ..TerminalCell::default() }
}

#[test]
fn frame_uses_last_visible_rows() {
    let snapshot = TerminalSnapshot {
        lines: vec!["one".into(), "two".into(), "three".into()],
        rows: 2,
        cols: 5,
        cursor_row: 2,
        cursor_col: 2,
        hide_cursor: false,
        bracketed_paste: false,
    };

    let frame = NativeTerminalFrame::from_snapshot(&snapshot, true, 2, 0, 5, 0);

    assert_eq!(frame.rows, 2);
    assert_eq!(frame.cell(0, 0).codepoint, 't');
    assert_eq!(frame.cell(1, 0).codepoint, 't');
    assert_eq!(frame.cursor.unwrap().row, 1);
}

#[test]
fn frame_clamps_cursor_inside_viewport() {
    let snapshot = TerminalSnapshot {
        lines: vec!["prompt".into()],
        rows: 1,
        cols: 3,
        cursor_row: 0,
        cursor_col: 99,
        hide_cursor: false,
        bracketed_paste: false,
    };

    let frame = NativeTerminalFrame::from_snapshot(&snapshot, true, 1, 0, 3, 0);
    let cursor = frame.cursor.unwrap();
    assert_eq!(cursor.row, 0);
    assert_eq!(cursor.col, 2);
}

#[test]
fn frame_crops_snapshot_columns_for_horizontal_scroll() {
    let snapshot = TerminalSnapshot {
        lines: vec!["abcdef".into()],
        rows: 1,
        cols: 6,
        cursor_row: 0,
        cursor_col: 4,
        hide_cursor: false,
        bracketed_paste: false,
    };

    let frame = NativeTerminalFrame::from_snapshot(&snapshot, true, 1, 0, 3, 2);

    assert_eq!(frame.cols, 3);
    assert_eq!(frame.cell(0, 0).codepoint, 'c');
    assert_eq!(frame.cell(0, 2).codepoint, 'e');
    assert_eq!(frame.cursor.unwrap().col, 2);
}

#[test]
fn frame_builds_cells_from_native_frame() {
    let frame = TerminalFrame {
        rows: 2,
        cols: 3,
        history_size: 0,
        cursor: TerminalCursor { row: 1, col: 2, shape: TerminalCursorShape::Block },
        bracketed_paste: false,
        display_offset: 0,
        damage: TerminalDamage::Full,
        publication: TerminalCellPublication::Full(Arc::new(vec![
            cell('a'),
            cell('b'),
            cell('c'),
            cell('d'),
            TerminalCell {
                codepoint: 'e',
                flags: TerminalCellFlags(FLAG_HIDDEN),
                ..TerminalCell::default()
            },
            cell('f'),
        ])),
    };

    let native = NativeTerminalFrame::from_native_frame(&frame, true, 2, 0, 3, 0);

    assert_eq!(native.cell(0, 0).codepoint, 'a');
    assert_eq!(native.cell(1, 1).codepoint, ' ');
    assert_eq!(native.cursor.unwrap().row, 1);
    assert_eq!(native.cursor.unwrap().col, 2);
}

#[test]
fn frame_crops_native_columns_for_horizontal_scroll() {
    let frame = TerminalFrame {
        rows: 1,
        cols: 5,
        history_size: 0,
        cursor: TerminalCursor { row: 0, col: 3, shape: TerminalCursorShape::Block },
        bracketed_paste: false,
        display_offset: 0,
        damage: TerminalDamage::Full,
        publication: TerminalCellPublication::Full(Arc::new(vec![
            cell('a'),
            cell('b'),
            cell('c'),
            cell('d'),
            cell('e'),
        ])),
    };

    let native = NativeTerminalFrame::from_native_frame(&frame, true, 1, 0, 2, 2);

    assert_eq!(native.cols, 2);
    assert_eq!(native.cell(0, 0).codepoint, 'c');
    assert_eq!(native.cell(0, 1).codepoint, 'd');
    assert_eq!(native.cursor.unwrap().col, 1);
}

#[test]
fn snapshot_content_cols_uses_visible_window_only() {
    let snapshot = snapshot(&["abcdefghij", "zz", "1234"], 2, 20, 2, 1);

    assert_eq!(snapshot_content_cols(&snapshot, 2, 0), 4);
}

#[test]
fn snapshot_content_cols_includes_cursor_beyond_text() {
    let snapshot = snapshot(&[""], 1, 20, 0, 5);

    assert_eq!(snapshot_content_cols(&snapshot, 1, 0), 6);
}

#[test]
fn native_frame_content_cols_uses_visible_rows_only() {
    let frame = full_frame(&["abcdefghij", "zz", "1234"], 3, 20, 2, 1);

    assert_eq!(native_frame_content_cols(&frame, 2, 0), 4);
}

#[test]
fn native_frame_content_cols_includes_cursor_beyond_text() {
    let frame = full_frame(&[""], 1, 20, 0, 7);

    assert_eq!(native_frame_content_cols(&frame, 1, 0), 8);
}

#[test]
fn frame_hides_a_cursor_left_of_the_horizontal_window() {
    let snapshot = snapshot(&["abcdef"], 1, 6, 0, 1);
    let frame = NativeTerminalFrame::from_snapshot(&snapshot, true, 1, 0, 3, 2);
    assert_eq!(frame.cols, 3);
    assert!(frame.cursor.is_none());
}
