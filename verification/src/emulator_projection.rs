//! Projection of an emulator grid into renderer frames: viewport sizing,
//! damage coalescing, cell and color mapping, and the published changes.
use vstd::prelude::*;
use std::sync::Arc;
use alacritty_terminal::term::{MIN_COLUMNS, MIN_SCREEN_LINES};
use crate::terminal_model::{
    cells_view, copy_cells, TerminalCell, TerminalCellFlags, TerminalCellPublication, TerminalCellSpanBatch,
    TerminalCellSpanUpdate, TerminalCellView, TerminalColor, TerminalCursor, TerminalCursorShape, TerminalDamage,
    TerminalDamageSpan,
};

verus! {

/// Smallest screen height the emulator accepts (`MIN_SCREEN_LINES`).
#[verifier::external_body]
fn min_screen_lines() -> (n: u16)
    ensures
        n == 1,
{
    MIN_SCREEN_LINES as u16
}

/// Smallest screen width the emulator accepts (`MIN_COLUMNS`).
#[verifier::external_body]
fn min_columns() -> (n: u16)
    ensures
        n == 2,
{
    MIN_COLUMNS as u16
}

/// Emulator screen size, at least one row and two columns.
#[derive(Debug, Clone, Copy, PartialEq, Eq, Structural)]
pub struct ViewportSize {
    pub rows: u16,
    pub cols: u16,
}

impl ViewportSize {
    /// A size of at least one row and two columns.
    pub fn new(rows: u16, cols: u16) -> (size: Self)
        ensures
            size.rows == if rows < 1 { 1 } else { rows },
            size.cols == if cols < 2 { 2 } else { cols },
    {
        let min_rows = min_screen_lines();
        let min_cols = min_columns();
        ViewportSize {
            rows: if rows < min_rows { min_rows } else { rows },
            cols: if cols < min_cols { min_cols } else { cols },
        }
    }

    /// Number of cells on screen.
    pub fn cell_count(self) -> (n: usize)
        ensures
            n == self.rows * self.cols,
    {
        proof {
            crate::terminal_text::lemma_grid_index_fits(self.rows, self.cols, 0, 0);
        }
        (self.rows as usize) * (self.cols as usize)
    }
}

/// An emulator color: a named color by its number (the foreground is 256,
/// the background 257, the cursor 258, the dim colors 259 to 266, the
/// bright foreground 267 and the dim foreground 268), a palette index, or
/// an RGB value.
#[derive(Debug, Clone, Copy, PartialEq, Eq, Structural)]
pub enum GridColor {
    Named(u16),
    Indexed(u8),
    Spec { r: u8, g: u8, b: u8 },
}

/// One emulator grid cell: its character, zero-width characters, colors
/// and attribute bits.
#[derive(Debug, Clone)]
pub struct GridCell {
    pub c: char,
    pub zerowidth: Option<Vec<char>>,
    pub fg: GridColor,
    pub bg: GridColor,
    pub flags: u16,
}

/// One damaged line of the emulator screen, columns `left..=right`.
#[derive(Debug, Clone, Copy, PartialEq, Eq, Structural)]
pub struct LineDamage {
    pub line: usize,
    pub left: usize,
    pub right: usize,
}

/// Renderer color of an emulator color: the foreground colors become the
/// default foreground, the background and dim foreground the default
/// background, other named colors their number modulo 256 as a palette
/// index.
pub open spec fn mapped_color(color: GridColor) -> TerminalColor {
    match color {
        GridColor::Named(n) => if n == 256 || n == 267 {
            TerminalColor::DefaultForeground
        } else if n == 257 || n == 268 {
            TerminalColor::DefaultBackground
        } else if n == 258 {
            TerminalColor::Cursor
        } else {
            TerminalColor::Palette((n % 256) as u8)
        },
        GridColor::Indexed(i) => TerminalColor::Palette(i),
        GridColor::Spec { r, g, b } => TerminalColor::Rgb { r, g, b },
    }
}

/// Maps an emulator color to a renderer color.
pub fn map_color(color: GridColor) -> (mapped: TerminalColor)
    ensures
        mapped == mapped_color(color),
{
    match color {
        GridColor::Named(n) => if n == 256 || n == 267 {
            TerminalColor::DefaultForeground
        } else if n == 257 || n == 268 {
            TerminalColor::DefaultBackground
        } else if n == 258 {
            TerminalColor::Cursor
        } else {
            TerminalColor::Palette((n % 256) as u8)
        },
        GridColor::Indexed(i) => TerminalColor::Palette(i),
        GridColor::Spec { r, g, b } => TerminalColor::Rgb { r, g, b },
    }
}

/// True for the colors drawn as the default foreground.
pub fn is_default_foreground(color: GridColor) -> (b: bool)
    ensures
        b == (color == GridColor::Named(256) || color == GridColor::Named(267)),
{
    match color {
        GridColor::Named(n) => n == 256 || n == 267,
        _ => false,
    }
}

/// True for the colors drawn as the default background.
pub fn is_default_background(color: GridColor) -> (b: bool)
    ensures
        b == (color == GridColor::Named(257) || color == GridColor::Named(268)),
{
    match color {
        GridColor::Named(n) => n == 257 || n == 268,
        _ => false,
    }
}

/// Mask of the fifteen attribute bits the emulator and the frame share:
/// inverse, bold, italic, underline, wrapped line, wide character, wide
/// character spacer, dim, hidden, strikeout, leading wide character spacer
/// and the double, curly, dotted and dashed underlines, at the same bit
/// positions in both.
pub const SHARED_FLAG_BITS: u16 = 0x7fff;

/// Frame flags of emulator attribute bits: each known attribute kept.
pub fn map_flags(flags: u16) -> (mapped: TerminalCellFlags)
    ensures
        mapped.0 == flags & SHARED_FLAG_BITS,
{
    if flags == 0 {
        assert(flags & 0x7fff == 0) by (bit_vector)
            requires
                flags == 0,
        ;
        return TerminalCellFlags(0);
    }
    TerminalCellFlags(flags & SHARED_FLAG_BITS)
}

/// Value of an emulator cell.
pub struct GridCellView {
    pub c: char,
    pub zerowidth: Option<Seq<char>>,
    pub fg: GridColor,
    pub bg: GridColor,
    pub flags: u16,
}

impl View for GridCell {
    type V = GridCellView;

    open spec fn view(&self) -> GridCellView {
        GridCellView {
            c: self.c,
            zerowidth: match self.zerowidth {
                Some(z) => Some(z@),
                None => None,
            },
            fg: self.fg,
            bg: self.bg,
            flags: self.flags,
        }
    }
}

/// Renderer cell of an emulator cell.
pub open spec fn projected_cell(cell: GridCellView) -> TerminalCellView {
    TerminalCellView {
        codepoint: cell.c,
        zerowidth: cell.zerowidth,
        fg: mapped_color(cell.fg),
        bg: mapped_color(cell.bg),
        flags: TerminalCellFlags(cell.flags & SHARED_FLAG_BITS),
    }
}

/// Projects one emulator cell.
pub fn project_cell(cell: &GridCell) -> (projected: TerminalCell)
    ensures
        projected@ == projected_cell(cell@),
{
    if cell.flags == 0 && cell.zerowidth.is_none() && is_default_foreground(cell.fg) && is_default_background(
        cell.bg,
    ) {
        let bits = cell.flags;
        assert(bits & 0x7fff == 0) by (bit_vector)
            requires
                bits == 0,
        ;
        return TerminalCell {
            codepoint: cell.c,
            zerowidth: None,
            fg: TerminalColor::DefaultForeground,
            bg: TerminalColor::DefaultBackground,
            flags: TerminalCellFlags(0),
        };
    }
    let zerowidth = match &cell.zerowidth {
        Some(z) => {
            let copy = crate::text::vec_range(z, 0, z.len());
            assert(copy@ =~= z@);
            Some(copy)
        },
        None => None,
    };
    TerminalCell {
        codepoint: cell.c,
        zerowidth,
        fg: map_color(cell.fg),
        bg: map_color(cell.bg),
        flags: map_flags(cell.flags),
    }
}

/// Cursor of a frame: at its viewport position (`None` when it is outside
/// the viewport, drawn hidden at the origin).
pub fn project_cursor(viewport_point: Option<(usize, usize)>, shape: TerminalCursorShape) -> (cursor: TerminalCursor)
    ensures
        cursor == match viewport_point {
            Some((line, column)) => TerminalCursor { row: line as u16, col: column as u16, shape },
            None => TerminalCursor { row: 0, col: 0, shape: TerminalCursorShape::Hidden },
        },
{
    match viewport_point {
        Some((line, column)) => TerminalCursor { row: line as u16, col: column as u16, shape },
        None => TerminalCursor { row: 0, col: 0, shape: TerminalCursorShape::Hidden },
    }
}

/// `x + 1`, held at `u16::MAX`.
pub open spec fn sat_inc16(x: u16) -> int {
    if x == u16::MAX { x as int } else { x + 1 }
}

/// Spans with each one that continues the previous span on the same row
/// (starting at most one column after its end) merged into it.
pub open spec fn coalesced(spans: Seq<TerminalDamageSpan>) -> Seq<TerminalDamageSpan>
    decreases spans.len(),
{
    if spans.len() <= 1 {
        spans
    } else {
        let prev = coalesced(spans.drop_last());
        let cur = spans.last();
        let last = prev.last();
        if last.row == cur.row && cur.left <= sat_inc16(last.right) {
            prev.update(
                prev.len() - 1,
                TerminalDamageSpan { right: if cur.right > last.right { cur.right } else { last.right }, ..last },
            )
        } else {
            prev.push(cur)
        }
    }
}

proof fn lemma_coalesced_len(spans: Seq<TerminalDamageSpan>)
    ensures
        spans.len() > 0 ==> coalesced(spans).len() > 0,
        coalesced(spans).len() <= spans.len(),
    decreases spans.len(),
{
    if spans.len() > 1 {
        lemma_coalesced_len(spans.drop_last());
    }
}

/// Merges spans that continue the previous span on the same row.
pub fn coalesce_damage_spans(spans: &mut Vec<TerminalDamageSpan>)
    ensures
        final(spans)@ == coalesced(old(spans)@),
{
    if spans.len() <= 1 {
        return;
    }
    let ghost input = spans@;
    let mut out: Vec<TerminalDamageSpan> = Vec::new();
    out.push(spans[0]);
    proof {
        assert(input.take(1) =~= seq![input[0]]);
    }
    let mut read_index: usize = 1;
    while read_index < spans.len()
        invariant
            1 <= read_index <= spans@.len(),
            spans@ == input,
            out@ == coalesced(input.take(read_index as int)),
            out@.len() > 0,
        decreases spans.len() - read_index,
    {
        proof {
            assert(input.take(read_index + 1).drop_last() =~= input.take(read_index as int));
            lemma_coalesced_len(input.take(read_index as int));
        }
        let current = spans[read_index];
        let n = out.len();
        let last = out[n - 1];
        let reach: u16 = last.right.saturating_add(1);
        if last.row == current.row && current.left <= reach {
            let right = if current.right > last.right { current.right } else { last.right };
            out.set(n - 1, TerminalDamageSpan { row: last.row, left: last.left, right });
        } else {
            out.push(current);
        }
        read_index = read_index + 1;
    }
    proof {
        assert(input.take(read_index as int) =~= input);
    }
    *spans = out;
}

/// Frame damage of the emulator's damage report: full damage, or each
/// damaged line as a span (positions cut to 16 bits), coalesced.
pub open spec fn frame_damage(report: Option<Seq<LineDamage>>) -> Option<Seq<TerminalDamageSpan>> {
    match report {
        None => None,
        Some(lines) => Some(
            coalesced(
                lines.map_values(
                    |l: LineDamage| TerminalDamageSpan { row: l.line as u16, left: l.left as u16, right: l.right as u16 },
                ),
            ),
        ),
    }
}

/// Turns the emulator's damage report (`None` for full damage) into frame
/// damage.
pub fn collect_damage(report: Option<Vec<LineDamage>>) -> (damage: TerminalDamage)
    ensures
        damage.spec_spans() == frame_damage(
            match report {
                Some(lines) => Some(lines@),
                None => None,
            },
        ),
{
    let lines = match report {
        None => return TerminalDamage::Full,
        Some(lines) => lines,
    };
    let mut spans: Vec<TerminalDamageSpan> = Vec::new();
    let mut i: usize = 0;
    while i < lines.len()
        invariant
            i <= lines@.len(),
            spans@ == lines@.take(i as int).map_values(
                |l: LineDamage| TerminalDamageSpan { row: l.line as u16, left: l.left as u16, right: l.right as u16 },
            ),
        decreases lines.len() - i,
    {
        let line = lines[i];
        spans.push(TerminalDamageSpan { row: line.line as u16, left: line.left as u16, right: line.right as u16 });
        proof {
            assert(spans@ =~= lines@.take(i + 1).map_values(
                |l: LineDamage| TerminalDamageSpan { row: l.line as u16, left: l.left as u16, right: l.right as u16 },
            ));
        }
        i = i + 1;
    }
    proof {
        assert(lines@.take(i as int) =~= lines@);
    }
    coalesce_damage_spans(&mut spans);
    TerminalDamage::Partial(spans)
}

/// Screen rows and columns to read back from the emulator: every row for
/// full damage, else each damaged span inside the screen, its right end
/// kept on screen.
pub open spec fn damage_regions(size: ViewportSize, spans: Option<Seq<TerminalDamageSpan>>) -> Seq<(u16, u16, u16)> {
    match spans {
        None => Seq::new(size.rows as nat, |r: int| (r as u16, 0u16, (size.cols - 1) as u16)),
        Some(spans) => regions_of(size, spans, spans.len() as int),
    }
}

/// Regions of the first `n` spans.
pub open spec fn regions_of(size: ViewportSize, spans: Seq<TerminalDamageSpan>, n: int) -> Seq<(u16, u16, u16)>
    decreases n,
{
    if n <= 0 {
        Seq::empty()
    } else {
        let rest = regions_of(size, spans, n - 1);
        let span = spans[n - 1];
        let right = if span.right < size.cols - 1 { span.right as int } else { size.cols - 1 };
        if span.row >= size.rows || span.left >= size.cols || span.left > right {
            rest
        } else {
            rest.push((span.row, span.left, right as u16))
        }
    }
}

/// Screen regions to project for `damage`.
pub fn projection_regions(size: ViewportSize, damage: &TerminalDamage) -> (regions: Vec<(u16, u16, u16)>)
    requires
        size.cols >= 1,
    ensures
        regions@ == damage_regions(size, damage.spec_spans()),
{
    let mut regions: Vec<(u16, u16, u16)> = Vec::new();
    match damage {
        TerminalDamage::Full => {
            let mut row: u16 = 0;
            while row < size.rows
                invariant
                    row <= size.rows,
                    size.cols >= 1,
                    regions@ == Seq::new(row as nat, |r: int| (r as u16, 0u16, (size.cols - 1) as u16)),
                decreases size.rows - row,
            {
                regions.push((row, 0, size.cols - 1));
                proof {
                    assert(regions@ =~= Seq::new((row + 1) as nat, |r: int| (r as u16, 0u16, (size.cols - 1) as u16)));
                }
                row = row + 1;
            }
        },
        TerminalDamage::Partial(spans) => {
            let mut i: usize = 0;
            while i < spans.len()
                invariant
                    i <= spans@.len(),
                    size.cols >= 1,
                    regions@ == regions_of(size, spans@, i as int),
                decreases spans.len() - i,
            {
                let span = spans[i];
                let last_col = size.cols - 1;
                let right = if span.right < last_col { span.right } else { last_col };
                if !(span.row >= size.rows || span.left >= size.cols || span.left > right) {
                    regions.push((span.row, span.left, right));
                }
                i = i + 1;
            }
        },
    }
    regions
}

/// Writes the projections of `source` (the emulator cells of columns
/// `left..=right` of screen row `row`) into the projected grid; nothing
/// changes when the span does not fit in the grid.
pub fn write_projected_row(
    cells: &mut Vec<TerminalCell>,
    size: ViewportSize,
    row: u16,
    left: u16,
    right: u16,
    source: &[GridCell],
)
    requires
        left <= right,
    ensures
        ({
            let start = row * size.cols + left;
            let count = right - left + 1;
            let n = if source@.len() < count { source@.len() as int } else { count as int };
            &&& final(cells)@.len() == old(cells)@.len()
            &&& if start + count <= old(cells)@.len() {
                &&& forall|k: int| 0 <= k < n ==> (#[trigger] final(cells)@[start + k])@ == projected_cell(source@[k]@)
                &&& forall|j: int| 0 <= j < old(cells)@.len() && !(start <= j < start + n) ==> #[trigger] final(cells)@[j]
                    == old(cells)@[j]
            } else {
                final(cells)@ == old(cells)@
            }
        }),
{
    proof {
        crate::terminal_text::lemma_grid_index_fits(row, size.cols, right, 1);
    }
    let start = (row as usize) * (size.cols as usize) + (left as usize);
    let count = (right - left) as usize + 1;
    if start + count > cells.len() {
        return;
    }
    let n = if source.len() < count { source.len() } else { count };
    let total = cells.len();
    let ghost before = cells@;
    let mut k: usize = 0;
    while k < n
        invariant
            k <= n <= source@.len(),
            n <= count,
            start + count <= cells@.len(),
            cells@.len() <= usize::MAX,
            cells@.len() == before.len(),
            forall|m: int| 0 <= m < k ==> (#[trigger] cells@[start + m])@ == projected_cell(source@[m]@),
            forall|j: int| 0 <= j < before.len() && !(start <= j < start + k) ==> #[trigger] cells@[j] == before[j],
        decreases n - k,
    {
        let projected = project_cell(&source[k]);
        cells.set(start + k, projected);
        k = k + 1;
    }
}

/// The changed spans of a partial frame and their cells, back to back,
/// after the first `n` damage spans: each span inside the screen, its
/// right end kept on screen, with the cells of that part of the grid when
/// it fits in the grid.
pub open spec fn changed_spans_of(
    cells: Seq<TerminalCellView>,
    size: ViewportSize,
    spans: Seq<TerminalDamageSpan>,
    n: int,
) -> (Seq<TerminalCellSpanUpdate>, Seq<TerminalCellView>)
    decreases n,
{
    if n <= 0 {
        (Seq::empty(), Seq::empty())
    } else {
        let (updates, changed) = changed_spans_of(cells, size, spans, n - 1);
        let span = spans[n - 1];
        let right = if span.right < size.cols - 1 { span.right as int } else { size.cols - 1 };
        let start = span.row * size.cols + span.left;
        let end = span.row * size.cols + right + 1;
        if span.row >= size.rows || span.left > span.right || span.left >= size.cols || end > cells.len() {
            (updates, changed)
        } else {
            (
                updates.push(
                    TerminalCellSpanUpdate {
                        row: span.row,
                        left: span.left,
                        len: (end - start) as u16,
                        cells_start: changed.len() as u32,
                    },
                ),
                changed + cells.subrange(start, end),
            )
        }
    }
}

/// Changed spans of a partial frame, read from the projected grid.
pub fn collect_changed_spans(cells: &[TerminalCell], size: ViewportSize, spans: &[TerminalDamageSpan]) -> (batch:
    TerminalCellSpanBatch)
    requires
        size.cols >= 1,
    ensures
        (batch.spec_spans(), cells_view(batch.spec_cells())) == changed_spans_of(
            cells_view(cells@),
            size,
            spans@,
            spans@.len() as int,
        ),
{
    let width = size.cols as usize;
    let mut change_spans: Vec<TerminalCellSpanUpdate> = Vec::new();
    let mut changed_cells: Vec<TerminalCell> = Vec::new();
    let mut i: usize = 0;
    while i < spans.len()
        invariant
            i <= spans@.len(),
            width == size.cols,
            size.cols >= 1,
            (change_spans@, cells_view(changed_cells@)) == changed_spans_of(cells_view(cells@), size, spans@, i as int),
        decreases spans.len() - i,
    {
        let span = spans[i];
        if !(span.row >= size.rows || span.left > span.right || span.left >= size.cols) {
            let last_col = size.cols - 1;
            let right = if span.right < last_col { span.right } else { last_col };
            proof {
                crate::terminal_text::lemma_grid_index_fits(span.row, size.cols, right, 1);
            }
            let start = (span.row as usize) * width + (span.left as usize);
            let end = (span.row as usize) * width + (right as usize) + 1;
            if end <= cells.len() {
                let cells_start = changed_cells.len() as u32;
                let ghost before = cells_view(changed_cells@);
                let mut k = start;
                while k < end
                    invariant
                        start <= k <= end <= cells@.len(),
                        cells_view(changed_cells@) == before + cells_view(cells@).subrange(start as int, k as int),
                    decreases end - k,
                {
                    let ghost prev = changed_cells@;
                    changed_cells.push(cells[k].duplicate());
                    proof {
                        assert(cells_view(changed_cells@) =~= cells_view(prev).push(cells_view(cells@)[k as int]));
                        assert(cells_view(changed_cells@) =~= before + cells_view(cells@).subrange(start as int, k + 1));
                    }
                    k = k + 1;
                }
                change_spans.push(
                    TerminalCellSpanUpdate { row: span.row, left: span.left, len: (end - start) as u16, cells_start },
                );
            }
        }
        i = i + 1;
    }
    TerminalCellSpanBatch::new(change_spans, changed_cells)
}

/// Publication of a frame: the whole projected grid for full damage, else
/// the changed spans.
pub fn build_publication(cells: &[TerminalCell], size: ViewportSize, damage: &TerminalDamage) -> (publication:
    TerminalCellPublication)
    requires
        size.cols >= 1,
    ensures
        match damage.spec_spans() {
            None => match publication {
                TerminalCellPublication::Full(full) => cells_view((*full)@) == cells_view(cells@),
                TerminalCellPublication::Partial(_) => false,
            },
            Some(spans) => match publication {
                TerminalCellPublication::Partial(batch) => (batch.spec_spans(), cells_view(batch.spec_cells()))
                    == changed_spans_of(cells_view(cells@), size, spans, spans.len() as int),
                TerminalCellPublication::Full(_) => false,
            },
        },
{
    match damage {
        TerminalDamage::Full => TerminalCellPublication::Full(Arc::new(copy_cells(cells))),
        TerminalDamage::Partial(spans) => TerminalCellPublication::Partial(
            collect_changed_spans(cells, size, spans.as_slice()),
        ),
    }
}

} // verus!
