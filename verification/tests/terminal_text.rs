use gestalt::terminal_model::{
    TerminalCell, TerminalCellFlags, TerminalCellPublication, TerminalCursor, TerminalCursorShape,
    TerminalDamage, TerminalFrame, FLAG_HIDDEN,
};
use gestalt::terminal_text::{
    frame_visible_lines, materialize_native_frame, merge_scrollback_with_visible, parse_input_lines,
    prepend_history_lines_limited, ScrollbackBuffer,
};
use std::sync::Arc;

#[test]
fn merge_scrollback_deduplicates_visible_suffix() {
    let scrollback = vec!["line 1".to_string(), "line 2".to_string(), "line 3".to_string()];
    let visible = vec!["line 3".to_string(), "line 4".to_string()];

    let merged = merge_scrollback_with_visible(&scrollback, &visible);
    assert_eq!(
        merged,
        vec![
            "line 1".to_string(),
            "line 2".to_string(),
            "line 3".to_string(),
            "line 4".to_string(),
        ]
    );
}

#[test]
fn scrollback_buffer_strips_escape_sequences_and_tracks_lines() {
    let mut scrollback = ScrollbackBuffer::from_restored(Vec::new());
    scrollback.process_bytes(b"\x1b[31mred\x1b[0m\nplain\n");

    assert_eq!(scrollback.lines, vec!["red".to_string(), "plain".to_string()]);
}

#[test]
fn parse_input_lines_collects_completed_lines() {
    let mut pending = Vec::new();
    let lines = parse_input_lines(&mut pending, b"echo hi\rnext");
    assert_eq!(lines, vec!["echo hi".to_string()]);
    assert_eq!(pending, b"next".to_vec());
}

#[test]
fn prepend_history_lines_places_older_lines_at_front() {
    let mut existing = vec!["line 3".to_string(), "line 4".to_string()];
    let inserted = prepend_history_lines_limited(
        &mut existing,
        &["line 1".to_string(), "line 2".to_string()],
        10,
    );

    assert_eq!(inserted, 2);
    assert_eq!(
        existing,
        vec![
            "line 1".to_string(),
            "line 2".to_string(),
            "line 3".to_string(),
            "line 4".to_string(),
        ]
    );
}

fn cell(codepoint: char) -> TerminalCell {
    TerminalCell { codepoint, ..TerminalCell::default() }
}

#[test]
fn materialize_native_frame_reuses_full_publications() {
    let previous = Arc::new(TerminalFrame {
        rows: 1,
        cols: 2,
        history_size: 0,
        cursor: TerminalCursor { row: 0, col: 0, shape: TerminalCursorShape::Hidden },
        bracketed_paste: false,
        display_offset: 0,
        damage: TerminalDamage::Full,
        publication: TerminalCellPublication::Full(Arc::new(vec![TerminalCell::default(); 2])),
    });
    let next = Arc::new(TerminalFrame {
        rows: 1,
        cols: 2,
        history_size: 0,
        cursor: TerminalCursor { row: 0, col: 1, shape: TerminalCursorShape::Block },
        bracketed_paste: false,
        display_offset: 0,
        damage: TerminalDamage::Full,
        publication: TerminalCellPublication::Full(Arc::new(vec![cell('a'), cell('b')])),
    });

    let materialized = materialize_native_frame(previous.as_ref(), Arc::clone(&next));

    assert!(Arc::ptr_eq(&materialized, &next));
}

#[test]
fn frame_visible_lines_trims_trailing_blank_cells_without_reallocating_rows() {
    let frame = TerminalFrame {
        rows: 2,
        cols: 4,
        history_size: 0,
        cursor: TerminalCursor { row: 0, col: 0, shape: TerminalCursorShape::Hidden },
        bracketed_paste: false,
        display_offset: 0,
        damage: TerminalDamage::Full,
        publication: TerminalCellPublication::Full(Arc::new(vec![
            cell('a'),
            cell('b'),
            TerminalCell::default(),
            TerminalCell::default(),
            TerminalCell {
                codepoint: 'x',
                flags: TerminalCellFlags(FLAG_HIDDEN),
                ..TerminalCell::default()
            },
            TerminalCell::default(),
            TerminalCell::default(),
            TerminalCell::default(),
        ])),
    };

    let lines = frame_visible_lines(&frame);

    assert_eq!(lines, vec!["ab".to_string(), String::new()]);
}

#[test]
fn scrollback_reads_output_the_same_in_any_chunking() {
    let output = b"one\r\n\x1b[31mtwo\x1b[0m\nthr\x08ree\n\x1b]0;title\x07four";
    let mut whole = ScrollbackBuffer::from_restored(Vec::new());
    let all = whole.process_bytes(output);
    let mut split = ScrollbackBuffer::from_restored(Vec::new());
    let mut pieces = split.process_bytes(&output[..9]);
    pieces.extend(split.process_bytes(&output[9..]));
    assert_eq!(all, pieces);
    assert_eq!(whole.lines, split.lines);
    assert_eq!(whole.pending, split.pending);
    assert_eq!(all, vec!["one".to_string(), "two".to_string(), "three".to_string()]);
}
