//! Software rasterizer for terminal frames: an RGBA pixel buffer redrawn
//! cell by cell from 8x8 bitmap glyph tiles, with damage tracking and
//! scroll reuse.
use vstd::prelude::*;
use font8x8::{UnicodeFonts, BASIC_FONTS};
use crate::terminal_model::{
    cells_view, TerminalCell, TerminalCellFlags, TerminalCellView, TerminalColor, TerminalCursor,
    TerminalCursorShape, TerminalDamage, TerminalDamageSpan, FLAG_DIM, FLAG_HIDDEN, FLAG_INVERSE,
    FLAG_WIDE_CHAR_SPACER,
};

verus! {

/// An RGBA color.
pub type Rgba = [u8; 4];

/// Background of cells in the default background color.
pub open spec fn default_background() -> Seq<u8> {
    seq![8u8, 12u8, 16u8, 255u8]
}

/// Foreground of cells in the default foreground color.
pub open spec fn default_foreground() -> Seq<u8> {
    seq![222u8, 226u8, 230u8, 255u8]
}

/// Color of the block cursor.
pub open spec fn cursor_color() -> Seq<u8> {
    seq![255u8, 244u8, 163u8, 255u8]
}

pub(crate) fn background_rgba() -> (c: Rgba)
    ensures
        c@ == default_background(),
{
    let c = [8u8, 12u8, 16u8, 255u8];
    assert(c@ =~= default_background());
    c
}

fn foreground_rgba() -> (c: Rgba)
    ensures
        c@ == default_foreground(),
{
    let c = [222u8, 226u8, 230u8, 255u8];
    assert(c@ =~= default_foreground());
    c
}

pub(crate) fn cursor_rgba() -> (c: Rgba)
    ensures
        c@ == cursor_color(),
{
    let c = [255u8, 244u8, 163u8, 255u8];
    assert(c@ =~= cursor_color());
    c
}

fn opaque(r: u8, g: u8, b: u8) -> (c: Rgba)
    ensures
        c@ == seq![r, g, b, 255u8],
{
    let c = [r, g, b, 255u8];
    assert(c@ =~= seq![r, g, b, 255u8]);
    c
}

/// Channel of the 6x6x6 color cube for level `component`.
pub open spec fn cube_level(component: u8) -> u8 {
    if component == 0 { 0 } else { (55 + component * 40) as u8 }
}

/// Channel of the color cube for level `component` (0 to 5).
pub fn cube_component(component: u8) -> (level: u8)
    requires
        component <= 5,
    ensures
        level == cube_level(component),
{
    if component == 0 { 0 } else { 55 + component * 40 }
}

/// The sixteen ANSI colors, then the 6x6x6 cube, then a gray ramp.
pub open spec fn palette_rgba(index: u8) -> Seq<u8> {
    if index == 0 {
        seq![18u8, 20u8, 22u8, 255u8]
    } else if index == 1 {
        seq![204u8, 36u8, 29u8, 255u8]
    } else if index == 2 {
        seq![152u8, 151u8, 26u8, 255u8]
    } else if index == 3 {
        seq![215u8, 153u8, 33u8, 255u8]
    } else if index == 4 {
        seq![69u8, 133u8, 136u8, 255u8]
    } else if index == 5 {
        seq![177u8, 98u8, 134u8, 255u8]
    } else if index == 6 {
        seq![104u8, 157u8, 106u8, 255u8]
    } else if index == 7 {
        seq![235u8, 219u8, 178u8, 255u8]
    } else if index == 8 {
        seq![102u8, 92u8, 84u8, 255u8]
    } else if index == 9 {
        seq![251u8, 73u8, 52u8, 255u8]
    } else if index == 10 {
        seq![184u8, 187u8, 38u8, 255u8]
    } else if index == 11 {
        seq![250u8, 189u8, 47u8, 255u8]
    } else if index == 12 {
        seq![131u8, 165u8, 152u8, 255u8]
    } else if index == 13 {
        seq![211u8, 134u8, 155u8, 255u8]
    } else if index == 14 {
        seq![142u8, 192u8, 124u8, 255u8]
    } else if index == 15 {
        seq![251u8, 241u8, 199u8, 255u8]
    } else if index <= 231 {
        let i = (index - 16) as int;
        seq![cube_level((i / 36) as u8), cube_level(((i / 6) % 6) as u8), cube_level((i % 6) as u8), 255u8]
    } else {
        let gray = (8 + (index - 232) * 10) as u8;
        seq![gray, gray, gray, 255u8]
    }
}

/// Color of palette entry `index`.
pub fn resolve_palette(index: u8) -> (color: Rgba)
    ensures
        color@ == palette_rgba(index),
{
    if index < 16 {
        return if index == 0 {
            opaque(18, 20, 22)
        } else if index == 1 {
            opaque(204, 36, 29)
        } else if index == 2 {
            opaque(152, 151, 26)
        } else if index == 3 {
            opaque(215, 153, 33)
        } else if index == 4 {
            opaque(69, 133, 136)
        } else if index == 5 {
            opaque(177, 98, 134)
        } else if index == 6 {
            opaque(104, 157, 106)
        } else if index == 7 {
            opaque(235, 219, 178)
        } else if index == 8 {
            opaque(102, 92, 84)
        } else if index == 9 {
            opaque(251, 73, 52)
        } else if index == 10 {
            opaque(184, 187, 38)
        } else if index == 11 {
            opaque(250, 189, 47)
        } else if index == 12 {
            opaque(131, 165, 152)
        } else if index == 13 {
            opaque(211, 134, 155)
        } else if index == 14 {
            opaque(142, 192, 124)
        } else {
            opaque(251, 241, 199)
        };
    }
    if index <= 231 {
        let i = index - 16;
        let r = i / 36;
        let g = (i / 6) % 6;
        let b = i % 6;
        return opaque(cube_component(r), cube_component(g), cube_component(b));
    }
    let gray = 8 + (index - 232) * 10;
    opaque(gray, gray, gray)
}

/// A 24-bit color is drawn with exactly its own channels, fully opaque:
/// channel 0 is its red, 1 its green, 2 its blue.
pub proof fn lemma_rgb_color_channels(r: u8, g: u8, b: u8)
    ensures
        color_rgba(TerminalColor::Rgb { r, g, b }).len() == 4,
        color_rgba(TerminalColor::Rgb { r, g, b })[0] == r,
        color_rgba(TerminalColor::Rgb { r, g, b })[1] == g,
        color_rgba(TerminalColor::Rgb { r, g, b })[2] == b,
        color_rgba(TerminalColor::Rgb { r, g, b })[3] == 255,
{
}

/// Color a renderer color is drawn with.
pub open spec fn color_rgba(color: TerminalColor) -> Seq<u8> {
    match color {
        TerminalColor::DefaultForeground => default_foreground(),
        TerminalColor::DefaultBackground => default_background(),
        TerminalColor::Cursor => cursor_color(),
        TerminalColor::Palette(index) => palette_rgba(index),
        TerminalColor::Rgb { r, g, b } => seq![r, g, b, 255u8],
    }
}

/// Color a renderer color is drawn with.
pub fn resolve_color(color: TerminalColor) -> (c: Rgba)
    ensures
        c@ == color_rgba(color),
{
    match color {
        TerminalColor::DefaultForeground => foreground_rgba(),
        TerminalColor::DefaultBackground => background_rgba(),
        TerminalColor::Cursor => cursor_rgba(),
        TerminalColor::Palette(index) => resolve_palette(index),
        TerminalColor::Rgb { r, g, b } => opaque(r, g, b),
    }
}

/// `c` with its color channels halved.
pub open spec fn dimmed(c: Seq<u8>) -> Seq<u8> {
    seq![(c[0] / 2) as u8, (c[1] / 2) as u8, (c[2] / 2) as u8, c[3]]
}

/// Background and foreground a cell is drawn with: its colors, swapped
/// when inverse, the foreground dimmed when dim, and a default foreground
/// under the cursor drawn in the default background.
pub open spec fn cell_colors(cell: TerminalCellView, cursor_here: bool) -> (Seq<u8>, Seq<u8>) {
    let inverse = cell.flags.spec_contains(TerminalCellFlags(FLAG_INVERSE));
    let fg0 = if inverse { color_rgba(cell.bg) } else { color_rgba(cell.fg) };
    let bg = if inverse { color_rgba(cell.fg) } else { color_rgba(cell.bg) };
    let fg1 = if cell.flags.spec_contains(TerminalCellFlags(FLAG_DIM)) { dimmed(fg0) } else { fg0 };
    let fg = if cursor_here && cell.fg == TerminalColor::DefaultForeground { default_background() } else { fg1 };
    (bg, fg)
}

/// Background and foreground colors of a cell.
pub fn resolved_colors(cell: &TerminalCell, cursor_here: bool) -> (colors: (Rgba, Rgba))
    ensures
        (colors.0@, colors.1@) == cell_colors(cell@, cursor_here),
{
    let mut fg = resolve_color(cell.fg);
    let mut bg = resolve_color(cell.bg);
    if cell.flags.contains(TerminalCellFlags(FLAG_INVERSE)) {
        let t = fg;
        fg = bg;
        bg = t;
    }
    if cell.flags.contains(TerminalCellFlags(FLAG_DIM)) {
        fg = [fg[0] / 2, fg[1] / 2, fg[2] / 2, fg[3]];
    }
    let default_fg = match cell.fg {
        TerminalColor::DefaultForeground => true,
        _ => false,
    };
    if cursor_here && default_fg {
        fg = background_rgba();
    }
    proof {
        assert((bg@, fg@) =~= cell_colors(cell@, cursor_here));
    }
    (bg, fg)
}

/// Pixels per cell along an axis of `size` pixels and `cells` cells: at
/// least one.
pub open spec fn extent(size: u32, cells: u16) -> u32 {
    if cells == 0 {
        1
    } else if size / (cells as u32) < 1 {
        1
    } else {
        size / (cells as u32)
    }
}

/// Pixels per cell along one axis.
pub fn cell_extent(size: u32, cells: u16) -> (e: u32)
    ensures
        e == extent(size, cells),
        1 <= e,
        cells > 0 && size >= cells ==> e * cells <= size,
{
    if cells == 0 {
        return 1;
    }
    let e = size / (cells as u32);
    proof {
        if size >= cells {
            assert(e * cells <= size) by (nonlinear_arith)
                requires
                    e == size / (cells as u32),
                    cells > 0,
            ;
        }
    }
    if e < 1 { 1 } else { e }
}

/// Row a cell moves to when the screen scrolls by `scroll_rows` (up for a
/// positive count); `None` when it leaves the screen.
pub open spec fn shifted(row: u16, scroll_rows: i16, total_rows: u16) -> Option<u16> {
    if scroll_rows > 0 {
        if row >= scroll_rows { Some((row - scroll_rows) as u16) } else { None }
    } else {
        let shifted = row - scroll_rows;
        if shifted <= u16::MAX && shifted < total_rows { Some(shifted as u16) } else { None }
    }
}

/// Row a cell moves to when the screen scrolls.
pub fn shifted_row(row: u16, scroll_rows: i16, total_rows: u16) -> (moved: Option<u16>)
    ensures
        moved == shifted(row, scroll_rows, total_rows),
{
    if scroll_rows > 0 {
        let up = scroll_rows as u16;
        if row >= up { Some(row - up) } else { None }
    } else {
        let down: u16 = if scroll_rows == -32768 { 32768 } else { (-scroll_rows) as u16 };
        match row.checked_add(down) {
            Some(s) => if s < total_rows {
                Some(s)
            } else {
                None
            },
            None => None,
        }
    }
}

/// True when row `r` is damaged from its first column to its last.
pub open spec fn row_fully_damaged(spans: Seq<TerminalDamageSpan>, r: int, cols: u16) -> bool {
    exists|i: int| 0 <= i < spans.len() && (#[trigger] spans[i]).row == r && spans[i].left == 0 && spans[i].right
        >= cols - 1
}

/// True when partial damage covers every row of the screen completely.
pub open spec fn covers_full_rows(damage: Option<Seq<TerminalDamageSpan>>, rows: u16, cols: u16) -> bool {
    &&& damage is Some
    &&& rows > 0
    &&& cols > 0
    &&& forall|r: int| 0 <= r < rows ==> #[trigger] row_fully_damaged(damage->0, r, cols)
}

proof fn lemma_covered_row(spans: Seq<TerminalDamageSpan>, rows: u16, cols: u16, r: int)
    requires
        covers_full_rows(Some(spans), rows, cols),
        0 <= r < rows,
    ensures
        row_fully_damaged(spans, r, cols),
{
    let d = Some(spans);
    assert(d is Some);
    assert(d->0 == spans);
    assert(forall|q: int| 0 <= q < rows ==> #[trigger] row_fully_damaged(d->0, q, cols));
    assert(row_fully_damaged(d->0, r, cols));
}

/// True when the damage spans cover every row completely.
pub fn damage_covers_full_rows(damage: &TerminalDamage, rows: u16, cols: u16) -> (b: bool)
    ensures
        b == covers_full_rows(damage.spec_spans(), rows, cols),
{
    let spans = match damage {
        TerminalDamage::Full => return false,
        TerminalDamage::Partial(spans) => spans,
    };
    if rows == 0 || cols == 0 {
        return false;
    }
    let mut r: u16 = 0;
    while r < rows
        invariant
            r <= rows,
            cols > 0,
            damage.spec_spans() == Some(spans@),
            forall|q: int| 0 <= q < r ==> #[trigger] row_fully_damaged(spans@, q, cols),
        decreases rows - r,
    {
        let found = row_is_fully_damaged(spans, r, cols);
        if !found {
            proof {
                if covers_full_rows(damage.spec_spans(), rows, cols) {
                    lemma_covered_row(spans@, rows, cols, r as int);
                }
            }
            return false;
        }
        r = r + 1;
    }
    true
}

fn row_is_fully_damaged(spans: &Vec<TerminalDamageSpan>, r: u16, cols: u16) -> (found: bool)
    requires
        cols > 0,
    ensures
        found == row_fully_damaged(spans@, r as int, cols),
{
    let mut i: usize = 0;
    while i < spans.len()
        invariant
            i <= spans@.len(),
            cols > 0,
            forall|j: int| 0 <= j < i ==> !((#[trigger] spans@[j]).row == r && spans@[j].left == 0 && spans@[j].right
                >= cols - 1),
        decreases spans.len() - i,
    {
        let span = spans[i];
        if span.row == r && span.left == 0 && span.right >= cols - 1 {
            return true;
        }
        i = i + 1;
    }
    false
}

/// True when rows `0..rows - delta` of `current` equal the rows `delta`
/// further down in `previous` (the screen scrolled up by `delta`).
pub open spec fn matches_upward(
    previous: Seq<TerminalCellView>,
    current: Seq<TerminalCellView>,
    rows: u16,
    cols: u16,
    delta: u16,
) -> bool {
    forall|r: int, c: int| 0 <= r < rows - delta && 0 <= c < cols ==> #[trigger] current[r * cols + c]
        == previous[(r + delta) * cols + c]
}

/// True when rows `delta..rows` of `current` equal the rows `delta`
/// further up in `previous` (the screen scrolled down by `delta`).
pub open spec fn matches_downward(
    previous: Seq<TerminalCellView>,
    current: Seq<TerminalCellView>,
    rows: u16,
    cols: u16,
    delta: u16,
) -> bool {
    forall|r: int, c: int| delta <= r < rows && 0 <= c < cols ==> #[trigger] current[r * cols + c]
        == previous[(r - delta) * cols + c]
}

/// True when two cell runs hold equal cells.
fn cells_equal(a: &[TerminalCell], a_start: usize, b: &[TerminalCell], b_start: usize, n: usize) -> (eq: bool)
    requires
        a_start + n <= a@.len(),
        b_start + n <= b@.len(),
    ensures
        eq == forall|k: int| 0 <= k < n ==> #[trigger] a@[a_start + k]@ == b@[b_start + k]@,
{
    let a_len = a.len();
    let b_len = b.len();
    let mut k: usize = 0;
    while k < n
        invariant
            k <= n,
            a_len == a@.len(),
            b_len == b@.len(),
            a_start + n <= a@.len(),
            b_start + n <= b@.len(),
            forall|m: int| 0 <= m < k ==> #[trigger] a@[a_start + m]@ == b@[b_start + m]@,
        decreases n - k,
    {
        if !a[a_start + k].same_as(&b[b_start + k]) {
            return false;
        }
        k = k + 1;
    }
    true
}

/// True when the screen scrolled up by `delta` rows: each row of `current`
/// but the last `delta` equals the row `delta` further down in `previous`.
pub fn rows_match_upward_shift(
    previous: &[TerminalCell],
    current: &[TerminalCell],
    rows: u16,
    cols: u16,
    delta: u16,
) -> (matched: bool)
    requires
        previous@.len() == rows * cols,
        current@.len() == rows * cols,
    ensures
        matched == matches_upward(cells_view(previous@), cells_view(current@), rows, cols, delta),
{
    let width = cols as usize;
    let n = current.len();
    let last = rows.saturating_sub(delta);
    let mut row: u16 = 0;
    while row < last
        invariant
            row <= last,
            last == (if rows >= delta { rows - delta } else { 0 }),
            width == cols,
            n == current@.len(),
            previous@.len() == rows * cols,
            current@.len() == rows * cols,
            forall|r: int, c: int| 0 <= r < row && 0 <= c < cols ==> #[trigger] current@[r * cols + c]@
                == previous@[(r + delta) * cols + c]@,
        decreases last - row,
    {
        proof {
            assert((row + 1) * cols <= rows * cols && (row + delta + 1) * cols <= rows * cols) by (nonlinear_arith)
                requires
                    row + delta < rows,
            ;
            assert((row + 1) * cols == row * cols + cols && (row + delta + 1) * cols == (row + delta) * cols + cols) by (nonlinear_arith);
        }
        let current_start = (row as usize) * width;
        let previous_start = ((row + delta) as usize) * width;
        if !cells_equal(current, current_start, previous, previous_start, width) {
            proof {
                let k = choose|k: int| 0 <= k < width && !((#[trigger] current@[current_start + k])@ == previous@[previous_start + k]@);
                assert(current_start + k == row * cols + k);
                assert(previous_start + k == (row + delta) * cols + k);
                if matches_upward(cells_view(previous@), cells_view(current@), rows, cols, delta) {
                    assert(cells_view(current@)[row * cols + k] == cells_view(previous@)[(row + delta) * cols + k]);
                }
            }
            return false;
        }
        proof {
            assert forall|r: int, c: int| 0 <= r < row + 1 && 0 <= c < cols implies #[trigger] current@[r * cols + c]@
                == previous@[(r + delta) * cols + c]@ by {
                if r == row {
                    assert(current@[current_start + c]@ == previous@[previous_start + c]@);
                }
            }
        }
        row = row + 1;
    }
    proof {
        assert forall|r: int, c: int| 0 <= r < rows - delta && 0 <= c < cols implies #[trigger] cells_view(current@)[r * cols + c]
            == cells_view(previous@)[(r + delta) * cols + c] by {
            assert(current@[r * cols + c]@ == previous@[(r + delta) * cols + c]@);
            assert(0 <= r * cols + c < rows * cols && (r + delta) * cols + c < rows * cols) by (nonlinear_arith)
                requires
                    0 <= r < rows - delta,
                    0 <= c < cols,
                    0 <= delta,
            ;
        }
    }
    true
}

/// True when the screen scrolled down by `delta` rows: each row of
/// `current` from `delta` on equals the row `delta` further up in
/// `previous`.
pub fn rows_match_downward_shift(
    previous: &[TerminalCell],
    current: &[TerminalCell],
    rows: u16,
    cols: u16,
    delta: u16,
) -> (matched: bool)
    requires
        previous@.len() == rows * cols,
        current@.len() == rows * cols,
    ensures
        matched == matches_downward(cells_view(previous@), cells_view(current@), rows, cols, delta),
{
    let width = cols as usize;
    let n = current.len();
    let mut row: u16 = delta;
    while row < rows
        invariant
            delta <= row,
            delta < rows ==> row <= rows,
            width == cols,
            n == current@.len(),
            previous@.len() == rows * cols,
            current@.len() == rows * cols,
            forall|r: int, c: int| delta <= r < row && 0 <= c < cols ==> #[trigger] current@[r * cols + c]@
                == previous@[(r - delta) * cols + c]@,
        decreases rows - row,
    {
        proof {
            assert((row + 1) * cols <= rows * cols && (row - delta + 1) * cols <= rows * cols) by (nonlinear_arith)
                requires
                    row < rows,
                    delta <= row,
            ;
            assert((row + 1) * cols == row * cols + cols && (row - delta + 1) * cols == (row - delta) * cols + cols) by (nonlinear_arith);
        }
        let current_start = (row as usize) * width;
        let previous_start = ((row - delta) as usize) * width;
        if !cells_equal(current, current_start, previous, previous_start, width) {
            proof {
                let k = choose|k: int| 0 <= k < width && !((#[trigger] current@[current_start + k])@ == previous@[previous_start + k]@);
                assert(current_start + k == row * cols + k);
                assert(previous_start + k == (row - delta) * cols + k);
                if matches_downward(cells_view(previous@), cells_view(current@), rows, cols, delta) {
                    assert(cells_view(current@)[row * cols + k] == cells_view(previous@)[(row - delta) * cols + k]);
                }
            }
            return false;
        }
        proof {
            assert forall|r: int, c: int| delta <= r < row + 1 && 0 <= c < cols implies #[trigger] current@[r * cols + c]@
                == previous@[(r - delta) * cols + c]@ by {
                if r == row {
                    assert(current@[current_start + c]@ == previous@[previous_start + c]@);
                }
            }
        }
        row = row + 1;
    }
    proof {
        assert forall|r: int, c: int| delta <= r < rows && 0 <= c < cols implies #[trigger] cells_view(current@)[r * cols + c]
            == cells_view(previous@)[(r - delta) * cols + c] by {
            assert(current@[r * cols + c]@ == previous@[(r - delta) * cols + c]@);
            assert(0 <= r * cols + c < rows * cols && 0 <= (r - delta) * cols + c < rows * cols) by (nonlinear_arith)
                requires
                    delta <= r < rows,
                    0 <= c < cols,
                    0 <= delta,
            ;
        }
    }
    true
}

/// The first scroll, trying `delta` up then down for `delta` from `from` to
/// `max`, under which the rows kept on screen match; upward shifts are
/// positive, downward ones negative.
pub open spec fn first_shift(
    previous: Seq<TerminalCellView>,
    current: Seq<TerminalCellView>,
    rows: u16,
    cols: u16,
    from: int,
    max: int,
) -> Option<i16>
    decreases max + 1 - from,
{
    if from > max || from < 0 || from > u16::MAX {
        None
    } else if matches_upward(previous, current, rows, cols, from as u16) {
        Some(from as i16)
    } else if matches_downward(previous, current, rows, cols, from as u16) {
        Some((-from) as i16)
    } else {
        first_shift(previous, current, rows, cols, from + 1, max)
    }
}

/// The four bytes of pixel `x`, `y` of an image `w` pixels wide.
pub open spec fn pixel_at(img: Seq<u8>, w: int, x: int, y: int) -> Seq<u8> {
    img.subrange((y * w + x) * 4, (y * w + x) * 4 + 4)
}

/// Distinct pixels of a row-major image occupy distinct positions.
pub proof fn lemma_pixel_distinct(w: int, x: int, y: int, x2: int, y2: int)
    requires
        0 <= x < w,
        0 <= x2 < w,
        0 <= y,
        0 <= y2,
        x != x2 || y != y2,
    ensures
        y * w + x != y2 * w + x2,
{
    if y < y2 {
        assert(y * w + x < y2 * w + x2) by (nonlinear_arith)
            requires
                0 <= x < w,
                0 <= x2,
                y < y2,
        ;
    } else if y2 < y {
        assert(y2 * w + x2 < y * w + x) by (nonlinear_arith)
            requires
                0 <= x2 < w,
                0 <= x,
                y2 < y,
        ;
    }
}

/// Pixel positions of an image stay inside it.
pub proof fn lemma_pixel_inside(w: int, h: int, x: int, y: int)
    requires
        0 <= x < w,
        0 <= y < h,
    ensures
        0 <= y * w + x,
        (y * w + x) * 4 + 4 <= w * h * 4,
{
    assert(0 <= y * w + x && (y * w + x) * 4 + 4 <= w * h * 4) by (nonlinear_arith)
        requires
            0 <= x < w,
            0 <= y < h,
    ;
}

/// `img` with pixel `x`, `y` set to `c` when it lies in the `w` by `h`
/// image.
pub open spec fn put_pixel(img: Seq<u8>, w: int, h: int, x: int, y: int, c: Seq<u8>) -> Seq<u8> {
    if 0 <= x < w && 0 <= y < h {
        let i = (y * w + x) * 4;
        img.update(i, c[0]).update(i + 1, c[1]).update(i + 2, c[2]).update(i + 3, c[3])
    } else {
        img
    }
}

/// Writing a pixel changes that pixel only.
pub proof fn lemma_put_pixel(img: Seq<u8>, w: int, h: int, x: int, y: int, c: Seq<u8>, x2: int, y2: int)
    requires
        img.len() == w * h * 4,
        c.len() == 4,
        0 <= x2 < w,
        0 <= y2 < h,
    ensures
        put_pixel(img, w, h, x, y, c).len() == img.len(),
        pixel_at(put_pixel(img, w, h, x, y, c), w, x2, y2) == if x == x2 && y == y2 {
            c
        } else {
            pixel_at(img, w, x2, y2)
        },
{
    lemma_pixel_inside(w, h, x2, y2);
    if 0 <= x < w && 0 <= y < h {
        lemma_pixel_inside(w, h, x, y);
        if x != x2 || y != y2 {
            lemma_pixel_distinct(w, x, y, x2, y2);
        }
        assert(pixel_at(put_pixel(img, w, h, x, y, c), w, x2, y2) =~= if x == x2 && y == y2 {
            c
        } else {
            pixel_at(img, w, x2, y2)
        });
    }
}

/// Writes pixel `x`, `y` of a tile when it lies inside the tile.
pub fn write_tile_pixel(tile: &mut Vec<u8>, cell_width: u32, cell_height: u32, x: u32, y: u32, color: Rgba)
    requires
        old(tile)@.len() == cell_width * cell_height * 4,
        cell_width * cell_height * 4 <= u32::MAX,
    ensures
        final(tile)@ == put_pixel(old(tile)@, cell_width as int, cell_height as int, x as int, y as int, color@),
{
    if x >= cell_width || y >= cell_height {
        return;
    }
    proof {
        lemma_pixel_inside(cell_width as int, cell_height as int, x as int, y as int);
    }
    let index = ((y * cell_width + x) * 4) as usize;
    tile.set(index, color[0]);
    tile.set(index + 1, color[1]);
    tile.set(index + 2, color[2]);
    tile.set(index + 3, color[3]);
}

/// An image of `n` bytes in color `c`.
pub open spec fn solid(n: int, c: Seq<u8>) -> Seq<u8> {
    Seq::new(n as nat, |i: int| c[i % 4])
}

/// Fills a tile with `color`.
pub fn fill_tile(tile: &mut Vec<u8>, color: Rgba)
    ensures
        final(tile)@ == solid(old(tile)@.len() as int, color@),
{
    let n = tile.len();
    let mut i: usize = 0;
    while i < n
        invariant
            i <= n == tile@.len(),
            forall|j: int| 0 <= j < i ==> #[trigger] tile@[j] == color@[j % 4],
        decreases n - i,
    {
        tile.set(i, color[i % 4]);
        i = i + 1;
    }
    assert(tile@ =~= solid(n as int, color@));
}

/// Glyph geometry in a tile: scale per axis, and the glyph's offset.
pub open spec fn glyph_scale(extent: u32) -> int {
    let e: int = if extent < 1 { 1 } else { extent as int };
    if e / 8 < 1 { 1 } else { e / 8 }
}

/// Offset that centers a glyph `scale` pixels per dot in `extent` pixels.
pub open spec fn glyph_offset(extent: u32, scale: int) -> int {
    let glyph = 8 * scale;
    (if extent > glyph { extent - glyph } else { 0 }) / 2
}

/// True when glyph dot `col` of glyph row `bits` is set.
pub open spec fn dot_set(bits: u8, col: int) -> bool {
    (bits >> (col as u8)) & 1 == 1
}

/// True when pixel `x`, `y` of a tile lies on a set dot of `glyph`, drawn
/// with each dot `scale_x` by `scale_y` pixels and centered.
pub open spec fn on_glyph(glyph: Seq<u8>, cw: u32, ch: u32, x: int, y: int) -> bool {
    let sx = glyph_scale(cw);
    let sy = glyph_scale(ch);
    let ox = glyph_offset(cw, sx);
    let oy = glyph_offset(ch, sy);
    &&& ox <= x < ox + 8 * sx
    &&& oy <= y < oy + 8 * sy
    &&& dot_set(glyph[(y - oy) / sy], (x - ox) / sx)
}

/// True when pixel `x`, `y` of a tile lies on the outline drawn for a
/// character without a glyph: a rectangle inset by a quarter of the tile
/// (at least one pixel) on each side.
pub open spec fn on_outline(cw: u32, ch: u32, x: int, y: int) -> bool {
    let ix: int = if cw / 4 < 1 { 1 } else { (cw / 4) as int };
    let iy: int = if ch / 4 < 1 { 1 } else { (ch / 4) as int };
    let ex: int = if cw > ix { cw - ix } else { 0 };
    let ey: int = if ch > iy { ch - iy } else { 0 };
    let last_x: int = if ex > 0 { ex - 1 } else { 0 };
    let last_y: int = if ey > 0 { ey - 1 } else { 0 };
    ||| ix <= x < ex && (y == iy || y == last_y)
    ||| iy <= y < ey && (x == ix || x == last_x)
}

/// `tile` with every pixel satisfying `on` set to `c`, the rest kept.
pub open spec fn painted(tile: Seq<u8>, cw: int, ch: int, on: spec_fn(int, int) -> bool, c: Seq<u8>) -> bool {
    forall|x: int, y: int| 0 <= x < cw && 0 <= y < ch ==> #[trigger] pixel_at(tile, cw, x, y) == c || !on(x, y)
}

/// Each pixel of `after` is `c` where `on` holds and the pixel of `before`
/// elsewhere.
pub open spec fn repainted(before: Seq<u8>, after: Seq<u8>, cw: int, ch: int, on: spec_fn(int, int) -> bool, c: Seq<u8>) -> bool {
    &&& after.len() == before.len()
    &&& forall|x: int, y: int| 0 <= x < cw && 0 <= y < ch ==> #[trigger] pixel_at(after, cw, x, y) == if on(x, y) {
        c
    } else {
        pixel_at(before, cw, x, y)
    }
}

/// `test` holds, row by row, whether each pixel of a `w` by `h` image
/// satisfies `on`.
pub open spec fn mask_of(test: Seq<Vec<bool>>, w: int, h: int, on: spec_fn(int, int) -> bool) -> bool {
    &&& test.len() == h
    &&& forall|y: int| 0 <= y < h ==> (#[trigger] test[y])@.len() == w
    &&& forall|x: int, y: int| 0 <= x < w && 0 <= y < h ==> #[trigger] test[y]@[x] == on(x, y)
}

/// Sets every tile pixel satisfying `on` (given by `test`) to `color`.
fn paint_tile(
    tile: &mut Vec<u8>,
    cell_width: u32,
    cell_height: u32,
    color: Rgba,
    on: Ghost<spec_fn(int, int) -> bool>,
    test: &Vec<Vec<bool>>,
)
    requires
        old(tile)@.len() == cell_width * cell_height * 4,
        cell_width * cell_height * 4 <= u32::MAX,
        mask_of(test@, cell_width as int, cell_height as int, on@),
    ensures
        repainted(old(tile)@, final(tile)@, cell_width as int, cell_height as int, on@, color@),
{
    let ghost start = tile@;
    let mut y: u32 = 0;
    while y < cell_height
        invariant
            y <= cell_height,
            tile@.len() == cell_width * cell_height * 4,
            start.len() == tile@.len(),
            cell_width * cell_height * 4 <= u32::MAX,
            mask_of(test@, cell_width as int, cell_height as int, on@),
            forall|px: int, py: int| 0 <= px < cell_width && 0 <= py < cell_height ==> #[trigger] pixel_at(
                tile@,
                cell_width as int,
                px,
                py,
            ) == if py < y && on@(px, py) {
                color@
            } else {
                pixel_at(start, cell_width as int, px, py)
            },
        decreases cell_height - y,
    {
        let mut x: u32 = 0;
        while x < cell_width
            invariant
                x <= cell_width,
                y < cell_height,
                tile@.len() == cell_width * cell_height * 4,
                start.len() == tile@.len(),
                cell_width * cell_height * 4 <= u32::MAX,
                mask_of(test@, cell_width as int, cell_height as int, on@),
                forall|px: int, py: int| 0 <= px < cell_width && 0 <= py < cell_height ==> #[trigger] pixel_at(
                    tile@,
                    cell_width as int,
                    px,
                    py,
                ) == if (py < y || (py == y && px < x)) && on@(px, py) {
                    color@
                } else {
                    pixel_at(start, cell_width as int, px, py)
                },
            decreases cell_width - x,
        {
            proof {
                lemma_pixel_inside(cell_width as int, cell_height as int, x as int, y as int);
            }
            let ghost before = tile@;
            let hit = test[y as usize][x as usize];
            if hit {
                write_tile_pixel(tile, cell_width, cell_height, x, y, color);
            }
            proof {
                assert forall|px: int, py: int| 0 <= px < cell_width && 0 <= py < cell_height implies #[trigger] pixel_at(
                    tile@,
                    cell_width as int,
                    px,
                    py,
                ) == if (py < y || (py == y && px < x + 1)) && on@(px, py) {
                    color@
                } else {
                    pixel_at(start, cell_width as int, px, py)
                } by {
                    if hit {
                        lemma_put_pixel(before, cell_width as int, cell_height as int, x as int, y as int, color@, px, py);
                    }
                }
            }
            x = x + 1;
        }
        y = y + 1;
    }
}

/// Pixels of a tile on the glyph's set dots.
pub open spec fn glyph_on(glyph: Seq<u8>, cw: u32, ch: u32) -> spec_fn(int, int) -> bool {
    |x: int, y: int| on_glyph(glyph, cw, ch, x, y)
}

/// Pixels of a tile on the missing-glyph outline.
pub open spec fn outline_on(cw: u32, ch: u32) -> spec_fn(int, int) -> bool {
    |x: int, y: int| on_outline(cw, ch, x, y)
}

fn glyph_scale_of(extent: u32) -> (scale: u32)
    ensures
        scale == glyph_scale(extent),
        1 <= scale,
        extent >= 8 ==> scale * 8 <= extent,
{
    let e = if extent < 1 { 1 } else { extent };
    let s = e / 8;
    if s < 1 { 1 } else { s }
}

/// True when tile pixel `x`, `y` lies on a set dot of `glyph`.
fn pixel_on_glyph(glyph: &[u8; 8], cw: u32, ch: u32, x: u32, y: u32) -> (on: bool)
    requires
        cw * ch * 4 <= u32::MAX,
        x < cw,
        y < ch,
    ensures
        on == on_glyph(glyph@, cw, ch, x as int, y as int),
{
    let sx = glyph_scale_of(cw);
    let sy = glyph_scale_of(ch);
    let gw: u64 = 8 * (sx as u64);
    let gh: u64 = 8 * (sy as u64);
    let ox: u64 = (if (cw as u64) > gw { (cw as u64) - gw } else { 0 }) / 2;
    let oy: u64 = (if (ch as u64) > gh { (ch as u64) - gh } else { 0 }) / 2;
    let xx = x as u64;
    let yy = y as u64;
    if xx < ox || xx >= ox + gw || yy < oy || yy >= oy + gh {
        return false;
    }
    let dy = yy - oy;
    let dx = xx - ox;
    let sy64 = sy as u64;
    let sx64 = sx as u64;
    let r = dy / sy64;
    let c = dx / sx64;
    assert(r < 8) by (nonlinear_arith)
        requires
            r == dy / sy64,
            dy < 8 * sy64,
            sy64 >= 1,
    ;
    assert(c < 8) by (nonlinear_arith)
        requires
            c == dx / sx64,
            dx < 8 * sx64,
            sx64 >= 1,
    ;
    let bits = glyph[r as usize];
    (bits >> (c as u8)) & 1 == 1
}

/// True when tile pixel `x`, `y` lies on the missing-glyph outline.
fn pixel_on_outline(cw: u32, ch: u32, x: u32, y: u32) -> (on: bool)
    ensures
        on == on_outline(cw, ch, x as int, y as int),
{
    let q = cw / 4;
    let ix = if q < 1 { 1 } else { q };
    let r = ch / 4;
    let iy = if r < 1 { 1 } else { r };
    let ex = cw.saturating_sub(ix);
    let ey = ch.saturating_sub(iy);
    let last_x = ex.saturating_sub(1);
    let last_y = ey.saturating_sub(1);
    (ix <= x && x < ex && (y == iy || y == last_y)) || (iy <= y && y < ey && (x == ix || x == last_x))
}

/// Row-by-row mask of the pixels of a tile on `glyph`'s dots.
fn glyph_mask(glyph: &[u8; 8], cw: u32, ch: u32) -> (mask: Vec<Vec<bool>>)
    requires
        cw * ch * 4 <= u32::MAX,
    ensures
        mask_of(mask@, cw as int, ch as int, glyph_on(glyph@, cw, ch)),
{
    let mut mask: Vec<Vec<bool>> = Vec::new();
    let mut y: u32 = 0;
    while y < ch
        invariant
            y <= ch,
            cw * ch * 4 <= u32::MAX,
            mask@.len() == y,
            forall|py: int| 0 <= py < y ==> (#[trigger] mask@[py])@.len() == cw,
            forall|px: int, py: int| 0 <= px < cw && 0 <= py < y ==> #[trigger] mask@[py]@[px] == on_glyph(
                glyph@,
                cw,
                ch,
                px,
                py,
            ),
        decreases ch - y,
    {
        let mut row: Vec<bool> = Vec::new();
        let mut x: u32 = 0;
        while x < cw
            invariant
                x <= cw,
                y < ch,
                cw * ch * 4 <= u32::MAX,
                row@.len() == x,
                forall|px: int| 0 <= px < x ==> #[trigger] row@[px] == on_glyph(glyph@, cw, ch, px, y as int),
            decreases cw - x,
        {
            row.push(pixel_on_glyph(glyph, cw, ch, x, y));
            x = x + 1;
        }
        mask.push(row);
        y = y + 1;
    }
    mask
}

/// Row-by-row mask of the pixels of a tile on the missing-glyph outline.
fn outline_mask(cw: u32, ch: u32) -> (mask: Vec<Vec<bool>>)
    ensures
        mask_of(mask@, cw as int, ch as int, outline_on(cw, ch)),
{
    let mut mask: Vec<Vec<bool>> = Vec::new();
    let mut y: u32 = 0;
    while y < ch
        invariant
            y <= ch,
            mask@.len() == y,
            forall|py: int| 0 <= py < y ==> (#[trigger] mask@[py])@.len() == cw,
            forall|px: int, py: int| 0 <= px < cw && 0 <= py < y ==> #[trigger] mask@[py]@[px] == on_outline(
                cw,
                ch,
                px,
                py,
            ),
        decreases ch - y,
    {
        let mut row: Vec<bool> = Vec::new();
        let mut x: u32 = 0;
        while x < cw
            invariant
                x <= cw,
                row@.len() == x,
                forall|px: int| 0 <= px < x ==> #[trigger] row@[px] == on_outline(cw, ch, px, y as int),
            decreases cw - x,
        {
            row.push(pixel_on_outline(cw, ch, x, y));
            x = x + 1;
        }
        mask.push(row);
        y = y + 1;
    }
    mask
}

/// Draws `glyph`'s set dots in `color`, each dot a block of pixels scaled
/// to the tile and the glyph centered.
pub fn draw_tile_glyph(tile: &mut Vec<u8>, cell_width: u32, cell_height: u32, glyph: [u8; 8], color: Rgba)
    requires
        old(tile)@.len() == cell_width * cell_height * 4,
        cell_width * cell_height * 4 <= u32::MAX,
    ensures
        repainted(
            old(tile)@,
            final(tile)@,
            cell_width as int,
            cell_height as int,
            glyph_on(glyph@, cell_width, cell_height),
            color@,
        ),
{
    let mask = glyph_mask(&glyph, cell_width, cell_height);
    paint_tile(tile, cell_width, cell_height, color, Ghost(glyph_on(glyph@, cell_width, cell_height)), &mask);
}

/// Draws the outline shown for a character without a glyph.
pub fn draw_tile_missing_glyph(tile: &mut Vec<u8>, cell_width: u32, cell_height: u32, color: Rgba)
    requires
        old(tile)@.len() == cell_width * cell_height * 4,
        cell_width * cell_height * 4 <= u32::MAX,
    ensures
        repainted(
            old(tile)@,
            final(tile)@,
            cell_width as int,
            cell_height as int,
            outline_on(cell_width, cell_height),
            color@,
        ),
{
    let mask = outline_mask(cell_width, cell_height);
    paint_tile(tile, cell_width, cell_height, color, Ghost(outline_on(cell_width, cell_height)), &mask);
}

/// Dots of the 8x8 bitmap glyph of `c` in the basic font, one byte per
/// row with the leftmost dot in the lowest bit.
pub uninterp spec fn basic_glyph(c: char) -> Seq<u8>;

/// `BASIC_FONTS.get(c)` of font8x8: the glyph of a character in U+0000 to
/// U+007F (the characters that set holds), else `None`. The glyph's dots
/// are named, not stated.
#[verifier::external_body]
pub(crate) fn basic_font_glyph(c: char) -> (glyph: Option<[u8; 8]>)
    ensures
        glyph is Some <==> (c as u32) < 128,
        glyph matches Some(g) ==> g@ == basic_glyph(c),
{
    BASIC_FONTS.get(c)
}

/// What a tile is drawn for: character, colors, and whether the cell is
/// hidden, a wide-character spacer, or a character without a glyph.
#[derive(Clone, Copy, Debug)]
pub struct TileCacheKey {
    pub codepoint: char,
    pub fg: Rgba,
    pub bg: Rgba,
    pub hidden: bool,
    pub spacer: bool,
    pub missing: bool,
}

/// Color of tile pixel `x`, `y` drawn for `key`: the foreground on a glyph
/// dot (or on the outline of a missing glyph), else the background;
/// hidden cells and spacers are background only.
pub open spec fn tile_pixel(key: TileCacheKey, cw: u32, ch: u32, x: int, y: int) -> Seq<u8> {
    if key.hidden || key.spacer {
        key.bg@
    } else if (key.codepoint as u32) < 128 {
        if on_glyph(basic_glyph(key.codepoint), cw, ch, x, y) { key.fg@ } else { key.bg@ }
    } else if key.missing && on_outline(cw, ch, x, y) {
        key.fg@
    } else {
        key.bg@
    }
}

/// True when `tile` is the `cw` by `ch` tile drawn for `key`.
pub open spec fn is_tile(tile: Seq<u8>, key: TileCacheKey, cw: u32, ch: u32) -> bool {
    &&& tile.len() == cw * ch * 4
    &&& forall|x: int, y: int| 0 <= x < cw && 0 <= y < ch ==> #[trigger] pixel_at(tile, cw as int, x, y) == tile_pixel(
        key,
        cw,
        ch,
        x,
        y,
    )
}

proof fn lemma_solid_pixel(n: int, c: Seq<u8>, w: int, h: int, x: int, y: int)
    requires
        n == w * h * 4,
        c.len() == 4,
        0 <= x < w,
        0 <= y < h,
    ensures
        pixel_at(solid(n, c), w, x, y) == c,
{
    lemma_pixel_inside(w, h, x, y);
    let i = (y * w + x) * 4;
    assert(i % 4 == 0 && (i + 1) % 4 == 1 && (i + 2) % 4 == 2 && (i + 3) % 4 == 3) by (nonlinear_arith)
        requires
            i == (y * w + x) * 4,
    ;
    assert(pixel_at(solid(n, c), w, x, y) =~= c);
}

/// Draws the tile for `key`.
pub fn build_tile(cell_width: u32, cell_height: u32, key: TileCacheKey) -> (tile: Vec<u8>)
    requires
        cell_width * cell_height * 4 <= u32::MAX,
    ensures
        is_tile(tile@, key, cell_width, cell_height),
{
    let n = ((cell_width as u64) * (cell_height as u64) * 4) as usize;
    let mut tile: Vec<u8> = vec![0u8; n];
    fill_tile(&mut tile, key.bg);
    let ghost filled = tile@;
    proof {
        assert forall|x: int, y: int| 0 <= x < cell_width && 0 <= y < cell_height implies #[trigger] pixel_at(
            filled,
            cell_width as int,
            x,
            y,
        ) == key.bg@ by {
            lemma_solid_pixel(n as int, key.bg@, cell_width as int, cell_height as int, x, y);
        }
    }
    if key.hidden || key.spacer {
        return tile;
    }
    match basic_font_glyph(key.codepoint) {
        Some(glyph) => {
            draw_tile_glyph(&mut tile, cell_width, cell_height, glyph, key.fg);
        },
        None => {
            if key.missing {
                draw_tile_missing_glyph(&mut tile, cell_width, cell_height, key.fg);
            }
        },
    }
    tile
}

} // verus!
