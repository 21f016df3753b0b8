//! The character grid a native terminal surface paints: a window of rows and
//! columns cut from a native frame or from a text snapshot, with the caret
//! placed inside it.
use vstd::prelude::*;
use crate::terminal_model::{cells_view, TerminalCell, TerminalCellView, TerminalCursorShape, TerminalFrame};
use crate::terminal_text::{
    lemma_grid_index_fits, line_views, project_native_snapshot_char, row_chars, snapshot_char,
    visible_row_text,
    TerminalSnapshot,
};
use crate::text::{chars_of, char_run_start, lemma_char_run_start_bounds, trim_end_char_seq};
use vstd::string::StrSliceExecFns;

verus! {

/// One painted character.
#[derive(Debug, Clone, Copy, PartialEq, Eq, Structural)]
pub struct NativeTerminalCell {
    pub codepoint: char,
}

impl Default for NativeTerminalCell {
    fn default() -> (cell: Self)
        ensures
            cell.codepoint == ' ',
    {
        NativeTerminalCell { codepoint: ' ' }
    }
}

/// Caret position inside the painted grid.
#[derive(Debug, Clone, Copy, PartialEq, Eq, Structural)]
pub struct NativeTerminalCursor {
    pub row: u16,
    pub col: u16,
}

/// Painted grid: `rows` by `cols` characters, row-major, and the caret.
#[derive(Debug, Clone)]
pub struct NativeTerminalFrame {
    pub rows: u16,
    pub cols: u16,
    pub cells: Vec<NativeTerminalCell>,
    pub cursor: Option<NativeTerminalCursor>,
}

/// The characters of a row of painted cells.
pub open spec fn cell_chars(cells: Seq<NativeTerminalCell>) -> Seq<char> {
    cells.map_values(|c: NativeTerminalCell| c.codepoint)
}

/// Value of a painted grid.
pub struct NativeFrameView {
    pub rows: u16,
    pub cols: u16,
    pub chars: Seq<char>,
    pub cursor: Option<NativeTerminalCursor>,
}

impl View for NativeTerminalFrame {
    type V = NativeFrameView;

    open spec fn view(&self) -> NativeFrameView {
        NativeFrameView {
            rows: self.rows,
            cols: self.cols,
            chars: cell_chars(self.cells@),
            cursor: self.cursor,
        }
    }
}

/// A requested extent of at least one, kept within a source extent of at
/// least one.
pub open spec fn clamp_extent(visible: u16, total: u16) -> u16 {
    let v: u16 = if visible < 1 { 1 } else { visible };
    let t: u16 = if total < 1 { 1 } else { total };
    if v < t { v } else { t }
}

/// First source column shown: the horizontal offset, kept so that `cols`
/// columns still fit in `total_cols`.
pub open spec fn left_column(offset: u16, total_cols: u16, cols: u16) -> u16 {
    let max_left = total_cols.saturating_sub(cols);
    if offset < max_left { offset } else { max_left }
}

/// First snapshot line of the window: `rows` lines above the end, moved up by
/// the scroll offset, never before the first line.
pub open spec fn window_start(len: nat, rows: u16, offset: u16) -> nat {
    let bottom: nat = if len > rows { (len - rows) as nat } else { 0 };
    if bottom > offset { (bottom - offset) as nat } else { 0 }
}

/// Lines of the snapshot from the window start to the end.
pub open spec fn snapshot_window(snapshot: TerminalSnapshot, rows: u16, offset: u16) -> Seq<Seq<char>> {
    let lines = line_views(snapshot.lines@);
    lines.skip(window_start(lines.len(), rows, offset) as int)
}

/// Character shown at `row`, `col` of a snapshot window scrolled `left`
/// columns: the line's character there, else a space.
pub open spec fn window_char(window: Seq<Seq<char>>, left: int, row: int, col: int) -> char {
    if row < window.len() && left + col < window[row].len() {
        window[row][left + col]
    } else {
        ' '
    }
}

/// Characters of a snapshot window scrolled `left` columns, by row and column.
pub open spec fn window_chars(window: Seq<Seq<char>>, left: int) -> spec_fn(int, int) -> char {
    |r: int, c: int| window_char(window, left, r, c)
}

/// Row `r` of the grid given by `f`: `cols` characters.
pub open spec fn grid_row(cols: int, f: spec_fn(int, int) -> char, r: int) -> Seq<char> {
    Seq::new(cols as nat, |c: int| f(r, c))
}

/// The rows of the grid given by `f`.
pub open spec fn grid_rows(rows: int, cols: int, f: spec_fn(int, int) -> char) -> Seq<Seq<char>> {
    Seq::new(rows as nat, |r: int| grid_row(cols, f, r))
}

/// The grid of `rows` rows of `cols` characters given by `f`, row after row.
pub open spec fn grid(rows: int, cols: int, f: spec_fn(int, int) -> char) -> Seq<char> {
    grid_rows(rows, cols, f).flatten()
}

/// Adding row `r` to the first `r` rows of a grid gives its first `r + 1`.
proof fn lemma_grid_step(rows: int, cols: int, f: spec_fn(int, int) -> char, r: int)
    requires
        0 <= r < rows,
    ensures
        grid_rows(rows, cols, f).take(r + 1).flatten() == grid_rows(rows, cols, f).take(r).flatten()
            + grid_row(cols, f, r),
{
    let g = grid_rows(rows, cols, f);
    assert(g.take(r + 1) =~= g.take(r).push(g[r]));
    g.take(r).lemma_flatten_push(g[r]);
}

/// Window lines past the painted rows hold nothing right of the left column.
/// (Any such character would be written outside the grid.)
pub open spec fn window_fits(window: Seq<Seq<char>>, left: int, rows: int) -> bool {
    forall|r: int| rows <= r < window.len() ==> #[trigger] window[r].len() <= left
}

/// Painted grid of a text snapshot.
pub open spec fn snapshot_frame(
    snapshot: TerminalSnapshot,
    show_cursor: bool,
    visible_rows: u16,
    scroll: u16,
    visible_cols: u16,
    hscroll: u16,
) -> NativeFrameView {
    let rows = clamp_extent(visible_rows, snapshot.rows);
    let cols = clamp_extent(visible_cols, snapshot.cols);
    let left = left_column(hscroll, snapshot.cols, cols);
    let window = snapshot_window(snapshot, rows, scroll);
    let start = window_start(snapshot.lines@.len(), rows, scroll);
    let cursor_row: int = if snapshot.cursor_row > start { snapshot.cursor_row - start } else { 0 };
    NativeFrameView {
        rows,
        cols,
        chars: grid(rows as int, cols as int, window_chars(window, left as int)),
        cursor: if !show_cursor || snapshot.cursor_col < left {
            None
        } else {
            Some(
                NativeTerminalCursor {
                    row: if cursor_row < rows - 1 { cursor_row as u16 } else { (rows - 1) as u16 },
                    col: if snapshot.cursor_col - left < cols - 1 {
                        (snapshot.cursor_col - left) as u16
                    } else {
                        (cols - 1) as u16
                    },
                },
            )
        },
    }
}

/// Offset of the first painted row in the frame's grid: the bottom rows,
/// moved up by the scroll offset as far as the grid allows.
pub open spec fn frame_row_offset(frame_rows: u16, rows: u16, scroll: u16) -> int {
    let hidden = frame_rows.saturating_sub(rows);
    let bottom: int = if frame_rows > rows { frame_rows - rows } else { 0 };
    bottom - (if scroll < hidden { scroll } else { hidden })
}

/// Character a native frame paints at source row `row`, column `col`: the
/// cell's snapshot character when the grid has that cell, else a space.
pub open spec fn native_char(frame: TerminalFrame, row: int, col: int) -> char {
    match frame.spec_full_cells() {
        Some(cells) => {
            let index = row * frame.cols + col;
            if index < cells.len() {
                snapshot_char(cells_view(cells)[index])
            } else {
                ' '
            }
        },
        None => ' ',
    }
}

/// Characters a native frame paints from row `top` and column `left` on,
/// by painted row and column.
pub open spec fn frame_chars(frame: TerminalFrame, top: int, left: int) -> spec_fn(int, int) -> char {
    |r: int, c: int| native_char(frame, r + top, left + c)
}

/// Painted grid of a native frame.
pub open spec fn native_frame(
    frame: TerminalFrame,
    show_cursor: bool,
    visible_rows: u16,
    scroll: u16,
    visible_cols: u16,
    hscroll: u16,
) -> NativeFrameView {
    let rows = clamp_extent(visible_rows, frame.rows);
    let cols = clamp_extent(visible_cols, frame.cols);
    let left = left_column(hscroll, frame.cols, cols);
    let top = frame_row_offset(frame.rows, rows, scroll);
    let cursor = frame.cursor;
    NativeFrameView {
        rows,
        cols,
        chars: grid(rows as int, cols as int, frame_chars(frame, top, left as int)),
        cursor: if !show_cursor || cursor.shape == TerminalCursorShape::Hidden || cursor.row < top
            || cursor.col < left || cursor.col >= left.saturating_add(cols) {
            None
        } else {
            Some(
                NativeTerminalCursor {
                    row: if cursor.row - top < rows - 1 {
                        (cursor.row - top) as u16
                    } else {
                        (rows - 1) as u16
                    },
                    col: if cursor.col - left < cols - 1 {
                        (cursor.col - left) as u16
                    } else {
                        (cols - 1) as u16
                    },
                },
            )
        },
    }
}

/// True when every painted character is a space.
pub open spec fn all_blank(chars: Seq<char>) -> bool {
    forall|i: int| 0 <= i < chars.len() ==> #[trigger] chars[i] == ' '
}

/// Pushing a cell pushes its character.
proof fn lemma_cell_chars_push(cells: Seq<NativeTerminalCell>, cell: NativeTerminalCell)
    ensures
        cell_chars(cells.push(cell)) == cell_chars(cells).push(cell.codepoint),
{
    assert(cell_chars(cells.push(cell)) =~= cell_chars(cells).push(cell.codepoint));
}

/// Appends `n` cells given by `f(row, 0..n)` to `cells`.
fn push_row(
    cells: &mut Vec<NativeTerminalCell>,
    n: u16,
    row: Ghost<int>,
    f: Ghost<spec_fn(int, int) -> char>,
    source: &Vec<char>,
    left: usize,
)
    requires
        forall|c: int| 0 <= c < n ==> #[trigger] f@(row@, c) == if left + c < source@.len() {
            source@[left + c]
        } else {
            ' '
        },
    ensures
        cell_chars(final(cells)@) == cell_chars(old(cells)@) + grid_row(n as int, f@, row@),
{
    let ghost start = cell_chars(cells@);
    let mut c: u16 = 0;
    while c < n
        invariant
            c <= n,
            cell_chars(cells@) == start + Seq::new(c as nat, |k: int| f@(row@, k)),
            forall|k: int| 0 <= k < n ==> #[trigger] f@(row@, k) == if left + k < source@.len() {
                source@[left + k]
            } else {
                ' '
            },
        decreases n - c,
    {
        let codepoint = if left < source.len() && (c as usize) < source.len() - left {
            source[left + c as usize]
        } else {
            ' '
        };
        let ghost before = cells@;
        cells.push(NativeTerminalCell { codepoint });
        proof {
            lemma_cell_chars_push(before, NativeTerminalCell { codepoint });
            assert(cell_chars(cells@) =~= start + Seq::new((c + 1) as nat, |k: int| f@(row@, k)));
        }
        c = c + 1;
    }
}

impl NativeTerminalFrame {
    /// True when every painted character is a space.
    pub fn is_visibly_blank(&self) -> (b: bool)
        ensures
            b == all_blank(self@.chars),
    {
        let mut i: usize = 0;
        while i < self.cells.len()
            invariant
                i <= self.cells.len(),
                forall|k: int| 0 <= k < i ==> self.cells@[k].codepoint == ' ',
            decreases self.cells.len() - i,
        {
            if self.cells[i].codepoint != ' ' {
                assert(cell_chars(self.cells@)[i as int] != ' ');
                return false;
            }
            i = i + 1;
        }
        true
    }

    /// The painted character at `row`, `col`, or a space outside the grid.
    pub fn cell(&self, row: u16, col: u16) -> (cell: NativeTerminalCell)
        ensures
            cell.codepoint == {
                let index = row * self.cols + col;
                if index < self@.chars.len() {
                    self@.chars[index]
                } else {
                    ' '
                }
            },
    {
        proof {
            lemma_grid_index_fits(row, self.cols, col, 0);
        }
        let index = (row as usize) * (self.cols as usize) + (col as usize);
        if index < self.cells.len() {
            self.cells[index]
        } else {
            NativeTerminalCell::default()
        }
    }

    /// Grid of a text snapshot: the window of `visible_rows` lines ending
    /// `local_scroll_offset` lines above the last, cut to `visible_cols`
    /// columns from `horizontal_scroll_offset`, with the caret, when shown,
    /// clamped inside the grid; a caret left of the window is not drawn.
    pub fn from_snapshot(
        snapshot: &TerminalSnapshot,
        show_cursor: bool,
        visible_rows: u16,
        local_scroll_offset: u16,
        visible_cols: u16,
        horizontal_scroll_offset: u16,
    ) -> (frame: Self)
        requires
            window_fits(
                snapshot_window(*snapshot, clamp_extent(visible_rows, snapshot.rows), local_scroll_offset),
                left_column(
                    horizontal_scroll_offset,
                    snapshot.cols,
                    clamp_extent(visible_cols, snapshot.cols),
                ) as int,
                clamp_extent(visible_rows, snapshot.rows) as int,
            ),
        ensures
            frame@ == snapshot_frame(
                *snapshot,
                show_cursor,
                visible_rows,
                local_scroll_offset,
                visible_cols,
                horizontal_scroll_offset,
            ),
    {
        let vr = if visible_rows < 1 { 1 } else { visible_rows };
        let sr = if snapshot.rows < 1 { 1 } else { snapshot.rows };
        let rows = if vr < sr { vr } else { sr };
        let vc = if visible_cols < 1 { 1 } else { visible_cols };
        let sc = if snapshot.cols < 1 { 1 } else { snapshot.cols };
        let cols = if vc < sc { vc } else { sc };
        let max_left = snapshot.cols.saturating_sub(cols);
        let left_col = if horizontal_scroll_offset < max_left { horizontal_scroll_offset } else { max_left };
        let start = visible_window_start(snapshot, rows, local_scroll_offset);
        let cells = snapshot_grid_cells(snapshot, rows, cols, start, left_col);
        let cursor = if !show_cursor || snapshot.cursor_col < left_col {
            None
        } else {
            let cursor_row: usize = (snapshot.cursor_row as usize).saturating_sub(start);
            let last_row = rows - 1;
            let last_col = cols - 1;
            let shown_col = snapshot.cursor_col - left_col;
            Some(
                NativeTerminalCursor {
                    row: if cursor_row < last_row as usize { cursor_row as u16 } else { last_row },
                    col: if shown_col < last_col { shown_col } else { last_col },
                },
            )
        };
        NativeTerminalFrame { rows, cols, cells, cursor }
    }

    /// Grid of a native frame: the `visible_rows` rows ending
    /// `local_scroll_offset` rows above the bottom, cut to `visible_cols`
    /// columns from `horizontal_scroll_offset`, with the caret when shown,
    /// visible and inside the window.
    pub fn from_native_frame(
        frame: &TerminalFrame,
        show_cursor: bool,
        visible_rows: u16,
        local_scroll_offset: u16,
        visible_cols: u16,
        horizontal_scroll_offset: u16,
    ) -> (native: Self)
        ensures
            native@ == native_frame(
                *frame,
                show_cursor,
                visible_rows,
                local_scroll_offset,
                visible_cols,
                horizontal_scroll_offset,
            ),
    {
        let vr = if visible_rows < 1 { 1 } else { visible_rows };
        let fr = if frame.rows < 1 { 1 } else { frame.rows };
        let rows = if vr < fr { vr } else { fr };
        let vc = if visible_cols < 1 { 1 } else { visible_cols };
        let fc = if frame.cols < 1 { 1 } else { frame.cols };
        let cols = if vc < fc { vc } else { fc };
        let max_left = frame.cols.saturating_sub(cols);
        let left_col = if horizontal_scroll_offset < max_left { horizontal_scroll_offset } else { max_left };
        let top = row_offset(frame.rows, rows, local_scroll_offset);
        let cells = native_grid_cells(frame, rows, cols, top, left_col);
        let cursor_shape_hidden = match frame.cursor.shape {
            TerminalCursorShape::Hidden => true,
            _ => false,
        };
        let cursor = if !show_cursor || cursor_shape_hidden || frame.cursor.row < top
            || frame.cursor.col < left_col || frame.cursor.col >= left_col.saturating_add(cols) {
            None
        } else {
            let shown_row = frame.cursor.row - top;
            let shown_col = frame.cursor.col - left_col;
            Some(
                NativeTerminalCursor {
                    row: if shown_row < rows - 1 { shown_row } else { rows - 1 },
                    col: if shown_col < cols - 1 { shown_col } else { cols - 1 },
                },
            )
        };
        NativeTerminalFrame { rows, cols, cells, cursor }
    }

    /// Grid of the native frame, or of the snapshot when the native grid
    /// shows nothing but the snapshot has text.
    pub fn from_native_or_snapshot(
        frame: &TerminalFrame,
        snapshot: &TerminalSnapshot,
        show_cursor: bool,
        visible_rows: u16,
        local_scroll_offset: u16,
        visible_cols: u16,
        horizontal_scroll_offset: u16,
    ) -> (native: Self)
        requires
            all_blank(
                native_frame(
                    *frame,
                    show_cursor,
                    visible_rows,
                    local_scroll_offset,
                    visible_cols,
                    horizontal_scroll_offset,
                ).chars,
            ) && has_text(*snapshot) ==> window_fits(
                snapshot_window(*snapshot, clamp_extent(visible_rows, snapshot.rows), local_scroll_offset),
                left_column(
                    horizontal_scroll_offset,
                    snapshot.cols,
                    clamp_extent(visible_cols, snapshot.cols),
                ) as int,
                clamp_extent(visible_rows, snapshot.rows) as int,
            ),
        ensures
            native@ == {
                let from_frame = native_frame(
                    *frame,
                    show_cursor,
                    visible_rows,
                    local_scroll_offset,
                    visible_cols,
                    horizontal_scroll_offset,
                );
                if all_blank(from_frame.chars) && has_text(*snapshot) {
                    snapshot_frame(
                        *snapshot,
                        show_cursor,
                        visible_rows,
                        local_scroll_offset,
                        visible_cols,
                        horizontal_scroll_offset,
                    )
                } else {
                    from_frame
                }
            },
    {
        let native = Self::from_native_frame(
            frame,
            show_cursor,
            visible_rows,
            local_scroll_offset,
            visible_cols,
            horizontal_scroll_offset,
        );
        if native.is_visibly_blank() && snapshot_has_text(snapshot) {
            return Self::from_snapshot(
                snapshot,
                show_cursor,
                visible_rows,
                local_scroll_offset,
                visible_cols,
                horizontal_scroll_offset,
            );
        }
        native
    }
}


/// Painted cells of a snapshot window: `rows` rows of `cols` characters
/// from column `left` on.
fn snapshot_grid_cells(snapshot: &TerminalSnapshot, rows: u16, cols: u16, start: usize, left: u16) -> (cells: Vec<
    NativeTerminalCell,
>)
    requires
        start <= snapshot.lines@.len(),
    ensures
        cell_chars(cells@) == grid(
            rows as int,
            cols as int,
            window_chars(line_views(snapshot.lines@).skip(start as int), left as int),
        ),
{
    let ghost window = line_views(snapshot.lines@).skip(start as int);
    let ghost f = window_chars(window, left as int);
    let mut cells: Vec<NativeTerminalCell> = Vec::new();
    let mut r: u16 = 0;
    while r < rows
        invariant
            r <= rows,
            start <= snapshot.lines@.len(),
            window == line_views(snapshot.lines@).skip(start as int),
            f == window_chars(window, left as int),
            cell_chars(cells@) == grid_rows(rows as int, cols as int, f).take(r as int).flatten(),
        decreases rows - r,
    {
        let source: Vec<char> = if (r as usize) < snapshot.lines.len() - start {
            chars_of(snapshot.lines[start + r as usize].as_str())
        } else {
            Vec::new()
        };
        proof {
            assert forall|c: int| 0 <= c < cols implies #[trigger] f(r as int, c) == if left + c
                < source@.len() {
                source@[left + c]
            } else {
                ' '
            } by {
                if (r as int) < window.len() {
                    assert(window[r as int] == snapshot.lines@[start + r]@);
                }
            }
            lemma_grid_step(rows as int, cols as int, f, r as int);
        }
        push_row(&mut cells, cols, Ghost(r as int), Ghost(f), &source, left as usize);
        r = r + 1;
    }
    proof {
        assert(grid_rows(rows as int, cols as int, f).take(r as int) =~= grid_rows(rows as int, cols as int, f));
    }
    cells
}

/// Painted cells of a native frame: `rows` rows of `cols` characters from
/// row `top` and column `left` on.
fn native_grid_cells(frame: &TerminalFrame, rows: u16, cols: u16, top: u16, left: u16) -> (cells: Vec<
    NativeTerminalCell,
>)
    requires
        top + rows <= 65535,
    ensures
        cell_chars(cells@) == grid(rows as int, cols as int, frame_chars(*frame, top as int, left as int)),
{
    let ghost f = frame_chars(*frame, top as int, left as int);
    let full = frame.full_cells();
    let mut cells: Vec<NativeTerminalCell> = Vec::new();
    let mut r: u16 = 0;
    while r < rows
        invariant
            r <= rows,
            top + rows <= 65535,
            match full {
                Some(c) => frame.spec_full_cells() == Some(c@),
                None => frame.spec_full_cells() is None,
            },
            f == frame_chars(*frame, top as int, left as int),
            cell_chars(cells@) == grid_rows(rows as int, cols as int, f).take(r as int).flatten(),
        decreases rows - r,
    {
        let source_row = top + r;
        proof {
            lemma_grid_index_fits(source_row, frame.cols, left, cols);
        }
        let source: Vec<char> = match full {
            Some(grid_cells) => row_snapshot_chars(
                grid_cells,
                (source_row as usize) * (frame.cols as usize),
                left as usize + cols as usize,
            ),
            None => Vec::new(),
        };
        proof {
            assert forall|c: int| 0 <= c < cols implies #[trigger] f(r as int, c) == if left + c
                < source@.len() {
                source@[left + c]
            } else {
                ' '
            } by {
                let k = left + c;
                assert(source_row * frame.cols + k == (r + top) * frame.cols + (left + c));
            }
            lemma_grid_step(rows as int, cols as int, f, r as int);
        }
        push_row(&mut cells, cols, Ghost(r as int), Ghost(f), &source, left as usize);
        r = r + 1;
    }
    proof {
        assert(grid_rows(rows as int, cols as int, f).take(r as int) =~= grid_rows(rows as int, cols as int, f));
    }
    cells
}

/// True when some snapshot line is not empty.
pub open spec fn has_text(snapshot: TerminalSnapshot) -> bool {
    exists|i: int| 0 <= i < snapshot.lines@.len() && #[trigger] snapshot.lines@[i]@.len() > 0
}

fn snapshot_has_text(snapshot: &TerminalSnapshot) -> (b: bool)
    ensures
        b == has_text(*snapshot),
{
    let mut i: usize = 0;
    while i < snapshot.lines.len()
        invariant
            i <= snapshot.lines.len(),
            forall|k: int| 0 <= k < i ==> #[trigger] snapshot.lines@[k]@.len() == 0,
        decreases snapshot.lines.len() - i,
    {
        if !snapshot.lines[i].as_str().is_empty() {
            return true;
        }
        i = i + 1;
    }
    false
}

/// First snapshot line of the window of `rows` lines scrolled up by
/// `local_scroll_offset`.
pub fn visible_window_start(snapshot: &TerminalSnapshot, rows: u16, local_scroll_offset: u16) -> (start: usize)
    ensures
        start == window_start(snapshot.lines@.len(), rows, local_scroll_offset),
        start <= snapshot.lines@.len(),
{
    let bottom_start = snapshot.lines.len().saturating_sub(rows as usize);
    bottom_start.saturating_sub(local_scroll_offset as usize)
}

/// Offset of the first painted row in a grid of `frame_rows` rows.
fn row_offset(frame_rows: u16, rows: u16, scroll: u16) -> (top: u16)
    requires
        rows >= 1,
        rows <= if frame_rows < 1 { 1 } else { frame_rows },
    ensures
        top == frame_row_offset(frame_rows, rows, scroll),
        top + rows <= if frame_rows < 1 { 1 } else { frame_rows },
{
    let hidden = frame_rows.saturating_sub(rows);
    let bottom = if frame_rows > rows { frame_rows - rows } else { 0 };
    bottom - (if scroll < hidden { scroll } else { hidden })
}

/// Snapshot characters of the `count` cells from `start` on, as far as
/// `cells` reaches.
fn row_snapshot_chars(cells: &[TerminalCell], start: usize, count: usize) -> (chars: Vec<char>)
    requires
        start + count <= usize::MAX,
    ensures
        chars@.len() == if start >= cells@.len() {
            0
        } else if start + count <= cells@.len() {
            count as int
        } else {
            cells@.len() - start
        },
        forall|k: int| 0 <= k < chars@.len() ==> #[trigger] chars@[k] == snapshot_char(
            cells_view(cells@)[start + k],
        ),
{
    let wanted_end = start + count;
    let end = if wanted_end < cells.len() { wanted_end } else { cells.len() };
    let mut chars: Vec<char> = Vec::new();
    if start >= end {
        return chars;
    }
    let mut k = start;
    while k < end
        invariant
            start <= k <= end <= cells.len(),
            end <= start + count,
            end == if start + count < cells@.len() { start + count } else { cells@.len() as int },
            chars@.len() == k - start,
            forall|c: int| 0 <= c < k - start ==> #[trigger] chars@[c] == snapshot_char(
                cells_view(cells@)[start + c],
            ),
        decreases end - k,
    {
        chars.push(project_native_snapshot_char(&cells[k]));
        k = k + 1;
    }
    chars
}

/// Longest line length.
pub open spec fn max_len(lines: Seq<Seq<char>>) -> nat
    decreases lines.len(),
{
    if lines.len() == 0 {
        0
    } else {
        let m = max_len(lines.drop_last());
        if lines.last().len() > m {
            lines.last().len()
        } else {
            m
        }
    }
}

/// A content width: at most `u16::MAX`, at least one, and at most the
/// terminal's width (itself taken as at least one).
pub open spec fn clamp_content(width: nat, total: u16) -> u16 {
    let w: int = if width > u16::MAX { u16::MAX as int } else { width as int };
    let w1: int = if w < 1 { 1 } else { w };
    let t: int = if total < 1 { 1 } else { total as int };
    (if w1 < t { w1 } else { t }) as u16
}

/// Columns a snapshot window needs: its longest line, or the caret's column
/// and one when the caret row lies in the painted rows and reaches further.
pub open spec fn snapshot_content_width(snapshot: TerminalSnapshot, visible_rows: u16, scroll: u16) -> u16 {
    let rows = clamp_extent(visible_rows, snapshot.rows);
    let start = window_start(snapshot.lines@.len(), rows, scroll);
    let text = max_len(snapshot_window(snapshot, rows, scroll));
    let caret: nat = snapshot.cursor_col.saturating_add(1) as nat;
    let needed = if start <= snapshot.cursor_row < start + rows && caret > text {
        caret
    } else {
        text
    };
    clamp_content(needed, snapshot.cols)
}

/// Columns a snapshot needs to show the window of `visible_rows` lines
/// scrolled up by `local_scroll_offset`.
pub fn snapshot_content_cols(snapshot: &TerminalSnapshot, visible_rows: u16, local_scroll_offset: u16) -> (cols: u16)
    ensures
        cols == snapshot_content_width(*snapshot, visible_rows, local_scroll_offset),
{
    let vr = if visible_rows < 1 { 1 } else { visible_rows };
    let sr = if snapshot.rows < 1 { 1 } else { snapshot.rows };
    let rows = if vr < sr { vr } else { sr };
    let window_start = visible_window_start(snapshot, rows, local_scroll_offset);
    let ghost window = snapshot_window(*snapshot, rows, local_scroll_offset);
    let mut max_cols: usize = 0;
    let mut i = window_start;
    while i < snapshot.lines.len()
        invariant
            window_start <= i <= snapshot.lines@.len(),
            window == line_views(snapshot.lines@).skip(window_start as int),
            max_cols == max_len(window.take(i - window_start)),
        decreases snapshot.lines.len() - i,
    {
        let n = snapshot.lines[i].as_str().unicode_len();
        proof {
            let k = i - window_start;
            assert(window.take(k + 1).drop_last() =~= window.take(k));
            assert(window.take(k + 1).last() == snapshot.lines@[i as int]@);
        }
        if n > max_cols {
            max_cols = n;
        }
        i = i + 1;
    }
    proof {
        assert(window.take(i - window_start) =~= window);
    }
    let cursor_row = snapshot.cursor_row as usize;
    if cursor_row >= window_start && cursor_row - window_start < rows as usize {
        let caret = snapshot.cursor_col.saturating_add(1) as usize;
        if caret > max_cols {
            max_cols = caret;
        }
    }
    clamp_width(max_cols, snapshot.cols)
}

/// Widest occupied text among `n` grid rows from row `top` on.
pub open spec fn max_row_text(cells: Seq<TerminalCellView>, width: int, top: int, n: int) -> nat
    decreases n,
{
    if n <= 0 {
        0
    } else {
        let m = max_row_text(cells, width, top, n - 1);
        let t = visible_row_text(cells, width, top + n - 1).len();
        if t > m {
            t
        } else {
            m
        }
    }
}

/// Columns a native frame needs: its widest occupied painted row, or the
/// caret's column and one when the caret is shown on a painted row and
/// reaches further.
pub open spec fn native_content_width(frame: TerminalFrame, visible_rows: u16, scroll: u16) -> u16 {
    let rows = clamp_extent(visible_rows, frame.rows);
    let top = frame_row_offset(frame.rows, rows, scroll);
    let text = match frame.spec_full_cells() {
        Some(cells) => max_row_text(cells_view(cells), frame.cols as int, top, rows as int),
        None => 0,
    };
    let caret: nat = frame.cursor.col.saturating_add(1) as nat;
    let needed = if frame.cursor.shape != TerminalCursorShape::Hidden && top <= frame.cursor.row
        < top + rows && caret > text {
        caret
    } else {
        text
    };
    clamp_content(needed, frame.cols)
}

/// Width of the occupied text of the `width` cells from `start` on: the
/// position after the last one that does not show a space.
fn occupied_cols(cells: &[TerminalCell], start: usize, width: usize) -> (n: usize)
    requires
        start + width <= cells@.len(),
    ensures
        n == visible_row_text_at(cells_view(cells@), start as int, width as int).len(),
{
    let ghost rc = row_chars(cells_view(cells@).subrange(start as int, start + width));
    let n = cells.len();
    let mut k = width;
    while k > 0
        invariant
            n == cells@.len(),
            k <= width,
            start + width <= cells@.len(),
            rc == row_chars(cells_view(cells@).subrange(start as int, start + width)),
            char_run_start(rc, width as int, ' ') == char_run_start(rc, k as int, ' '),
        ensures
            k <= width,
            char_run_start(rc, width as int, ' ') == char_run_start(rc, k as int, ' '),
            k > 0 ==> rc[k - 1] != ' ',
        decreases k,
    {
        let last = project_native_snapshot_char(&cells[start + k - 1]);
        assert(rc[k - 1] == snapshot_char(cells_view(cells@)[start + k - 1]));
        if last != ' ' {
            break;
        }
        k = k - 1;
    }
    proof {
        lemma_char_run_start_bounds(rc, width as int, ' ');
    }
    k
}

/// Occupied text of the `width` cells from `start` on.
pub open spec fn visible_row_text_at(cells: Seq<TerminalCellView>, start: int, width: int) -> Seq<char> {
    trim_end_char_seq(row_chars(cells.subrange(start, start + width)), ' ')
}

/// Width of the occupied text of grid row `row`, `width` cells wide; zero
/// when the row lies outside `cells`.
fn row_text_width(cells: &[TerminalCell], width: u16, row: u16) -> (n: usize)
    ensures
        n == visible_row_text(cells_view(cells@), width as int, row as int).len(),
{
    proof {
        lemma_grid_index_fits(row, width, width, 0);
    }
    let start = (row as usize) * (width as usize);
    let end = start + width as usize;
    if end <= cells.len() {
        occupied_cols(cells, start, width as usize)
    } else {
        0
    }
}

/// Widest occupied text among the `rows` grid rows from row `top` on.
fn frame_text_width(frame: &TerminalFrame, rows: u16, top: u16) -> (n: usize)
    requires
        top + rows <= 65535,
    ensures
        n == match frame.spec_full_cells() {
            Some(cells) => max_row_text(cells_view(cells), frame.cols as int, top as int, rows as int),
            None => 0,
        },
{
    let cells = match frame.full_cells() {
        Some(cells) => cells,
        None => return 0,
    };
    let ghost cv = cells_view(cells@);
    let mut max_cols: usize = 0;
    let mut row: u16 = 0;
    while row < rows
        invariant
            row <= rows,
            top + rows <= 65535,
            cv == cells_view(cells@),
            max_cols == max_row_text(cv, frame.cols as int, top as int, row as int),
        decreases rows - row,
    {
        let occupied = row_text_width(cells, frame.cols, top + row);
        if occupied > max_cols {
            max_cols = occupied;
        }
        row = row + 1;
    }
    max_cols
}

/// A content width kept within `u16`, at least one and at most the
/// terminal's width.
fn clamp_width(width: usize, total: u16) -> (cols: u16)
    ensures
        cols == clamp_content(width as nat, total),
{
    let capped: u16 = if width > 65535 { 65535 } else { width as u16 };
    let at_least_one = if capped < 1 { 1 } else { capped };
    let limit = if total < 1 { 1 } else { total };
    if at_least_one < limit { at_least_one } else { limit }
}

/// Columns a native frame needs to show the `visible_rows` rows scrolled up
/// by `local_scroll_offset`.
pub fn native_frame_content_cols(frame: &TerminalFrame, visible_rows: u16, local_scroll_offset: u16) -> (cols: u16)
    ensures
        cols == native_content_width(*frame, visible_rows, local_scroll_offset),
{
    let vr = if visible_rows < 1 { 1 } else { visible_rows };
    let fr = if frame.rows < 1 { 1 } else { frame.rows };
    let rows = if vr < fr { vr } else { fr };
    let top = row_offset(frame.rows, rows, local_scroll_offset);
    let mut max_cols = frame_text_width(frame, rows, top);
    let hidden = match frame.cursor.shape {
        TerminalCursorShape::Hidden => true,
        _ => false,
    };
    if !hidden {
        let bottom_row = top.saturating_add(rows);
        if frame.cursor.row >= top && frame.cursor.row < bottom_row {
            let caret = frame.cursor.col.saturating_add(1) as usize;
            if caret > max_cols {
                max_cols = caret;
            }
        }
    }
    clamp_width(max_cols, frame.cols)
}

} // verus!
