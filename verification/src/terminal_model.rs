//! Renderer-facing terminal frame model: cells, cursor, damage and publications.
use vstd::prelude::*;
use std::sync::Arc;

verus! {

/// Renderer-facing cursor shapes.
#[derive(Debug, Clone, Copy, PartialEq, Eq, Structural)]
pub enum TerminalCursorShape {
    Block,
    Underline,
    Beam,
    HollowBlock,
    Hidden,
}

impl Default for TerminalCursorShape {
    fn default() -> (shape: Self)
        ensures
            shape == TerminalCursorShape::Block,
    {
        TerminalCursorShape::Block
    }
}

/// Renderer-facing terminal color values.
#[derive(Debug, Clone, Copy, PartialEq, Eq, Structural)]
pub enum TerminalColor {
    DefaultForeground,
    DefaultBackground,
    Cursor,
    Palette(u8),
    Rgb { r: u8, g: u8, b: u8 },
}

impl Default for TerminalColor {
    fn default() -> (color: Self)
        ensures
            color == TerminalColor::DefaultForeground,
    {
        TerminalColor::DefaultForeground
    }
}

/// Bit of the `NONE` cell flag.
pub const FLAG_NONE: u16 = 0;

/// Bit of the `INVERSE` cell flag.
pub const FLAG_INVERSE: u16 = 1;

/// Bit of the `BOLD` cell flag.
pub const FLAG_BOLD: u16 = 2;

/// Bit of the `ITALIC` cell flag.
pub const FLAG_ITALIC: u16 = 4;

/// Bit of the `UNDERLINE` cell flag.
pub const FLAG_UNDERLINE: u16 = 8;

/// Bit of the `WRAPLINE` cell flag.
pub const FLAG_WRAPLINE: u16 = 16;

/// Bit of the `WIDE_CHAR` cell flag.
pub const FLAG_WIDE_CHAR: u16 = 32;

/// Bit of the `WIDE_CHAR_SPACER` cell flag.
pub const FLAG_WIDE_CHAR_SPACER: u16 = 64;

/// Bit of the `DIM` cell flag.
pub const FLAG_DIM: u16 = 128;

/// Bit of the `HIDDEN` cell flag.
pub const FLAG_HIDDEN: u16 = 256;

/// Bit of the `STRIKEOUT` cell flag.
pub const FLAG_STRIKEOUT: u16 = 512;

/// Bit of the `LEADING_WIDE_CHAR_SPACER` cell flag.
pub const FLAG_LEADING_WIDE_CHAR_SPACER: u16 = 1024;

/// Bit of the `DOUBLE_UNDERLINE` cell flag.
pub const FLAG_DOUBLE_UNDERLINE: u16 = 2048;

/// Bit of the `UNDERCURL` cell flag.
pub const FLAG_UNDERCURL: u16 = 4096;

/// Bit of the `DOTTED_UNDERLINE` cell flag.
pub const FLAG_DOTTED_UNDERLINE: u16 = 8192;

/// Bit of the `DASHED_UNDERLINE` cell flag.
pub const FLAG_DASHED_UNDERLINE: u16 = 16384;

/// Terminal cell decoration and layout flags.
#[derive(Debug, Clone, Copy, PartialEq, Eq, Structural)]
pub struct TerminalCellFlags(pub u16);

impl TerminalCellFlags {
    /// Every bit of `other` is set in `self`.
    pub open spec fn spec_contains(self, other: TerminalCellFlags) -> bool {
        self.0 & other.0 == other.0
    }

    /// Flags with the given raw bits.
    pub fn from_bits(bits: u16) -> (flags: TerminalCellFlags)
        ensures
            flags.0 == bits,
    {
        TerminalCellFlags(bits)
    }

    /// Raw flag bits.
    pub fn bits(self) -> (bits: u16)
        ensures
            bits == self.0,
    {
        self.0
    }

    /// True when every bit of `other` is set in `self`.
    pub fn contains(self, other: TerminalCellFlags) -> (b: bool)
        ensures
            b == self.spec_contains(other),
    {
        self.0 & other.0 == other.0
    }

    /// Flags set in either operand.
    pub fn union(self, other: TerminalCellFlags) -> (u: TerminalCellFlags)
        ensures
            u.0 == self.0 | other.0,
    {
        TerminalCellFlags(self.0 | other.0)
    }
}

impl Default for TerminalCellFlags {
    fn default() -> (flags: Self)
        ensures
            flags.0 == 0,
    {
        TerminalCellFlags(0)
    }
}

/// A union holds both operands' flags and nothing else.
pub proof fn lemma_union_contains(a: TerminalCellFlags, b: TerminalCellFlags, c: TerminalCellFlags)
    ensures
        TerminalCellFlags(a.0 | b.0).spec_contains(a),
        TerminalCellFlags(a.0 | b.0).spec_contains(b),
        (a.spec_contains(c) || b.spec_contains(c)) ==> TerminalCellFlags(a.0 | b.0).spec_contains(c),
{
    let (x, y, z) = (a.0, b.0, c.0);
    assert((x | y) & x == x) by (bit_vector);
    assert((x | y) & y == y) by (bit_vector);
    assert((x & z == z || y & z == z) ==> (x | y) & z == z) by (bit_vector);
}

/// Renderable terminal cell projected from the emulator grid.
#[derive(Debug, Clone, PartialEq, Eq)]
pub struct TerminalCell {
    pub codepoint: char,
    pub zerowidth: Option<Vec<char>>,
    pub fg: TerminalColor,
    pub bg: TerminalColor,
    pub flags: TerminalCellFlags,
}

/// Value of a [`TerminalCell`], with the zero-width characters as a sequence.
pub struct TerminalCellView {
    pub codepoint: char,
    pub zerowidth: Option<Seq<char>>,
    pub fg: TerminalColor,
    pub bg: TerminalColor,
    pub flags: TerminalCellFlags,
}

impl View for TerminalCell {
    type V = TerminalCellView;

    open spec fn view(&self) -> TerminalCellView {
        TerminalCellView {
            codepoint: self.codepoint,
            zerowidth: match self.zerowidth {
                Some(z) => Some(z@),
                None => None,
            },
            fg: self.fg,
            bg: self.bg,
            flags: self.flags,
        }
    }
}

/// Values of a sequence of cells.
pub open spec fn cells_view(cells: Seq<TerminalCell>) -> Seq<TerminalCellView> {
    cells.map_values(|c: TerminalCell| c@)
}

/// The blank cell: a space in the default colors with no flags.
pub open spec fn blank_cell_view() -> TerminalCellView {
    TerminalCellView {
        codepoint: ' ',
        zerowidth: None,
        fg: TerminalColor::DefaultForeground,
        bg: TerminalColor::DefaultBackground,
        flags: TerminalCellFlags(0),
    }
}

impl Default for TerminalCell {
    fn default() -> (cell: Self)
        ensures
            cell@ == blank_cell_view(),
    {
        TerminalCell {
            codepoint: ' ',
            zerowidth: None,
            fg: TerminalColor::DefaultForeground,
            bg: TerminalColor::DefaultBackground,
            flags: TerminalCellFlags(0),
        }
    }
}

impl TerminalCell {
    /// A copy with the same value.
    pub fn duplicate(&self) -> (c: TerminalCell)
        ensures
            c@ == self@,
    {
        TerminalCell {
            codepoint: self.codepoint,
            zerowidth: match &self.zerowidth {
                Some(z) => Some(z.clone()),
                None => None,
            },
            fg: self.fg,
            bg: self.bg,
            flags: self.flags,
        }
    }

    /// True when both cells hold the same value.
    pub fn same_as(&self, other: &TerminalCell) -> (b: bool)
        ensures
            b == (self@ == other@),
    {
        if self.codepoint != other.codepoint || self.fg != other.fg || self.bg != other.bg
            || self.flags.0 != other.flags.0 {
            return false;
        }
        match (&self.zerowidth, &other.zerowidth) {
            (None, None) => true,
            (Some(a), Some(b)) => {
                if a.len() != b.len() {
                    return false;
                }
                let mut i: usize = 0;
                while i < a.len()
                    invariant
                        i <= a.len(),
                        a.len() == b.len(),
                        self@.zerowidth == Some(a@),
                        other@.zerowidth == Some(b@),
                        forall|j: int| 0 <= j < i ==> a@[j] == b@[j],
                    decreases a.len() - i,
                {
                    if a[i] != b[i] {
                        proof {
                            assert(a@[i as int] != b@[i as int]);
                        }
                        return false;
                    }
                    i = i + 1;
                }
                proof {
                    assert(a@ =~= b@);
                }
                true
            },
            _ => false,
        }
    }
}

/// A copy of a slice of cells.
pub fn copy_cells(cells: &[TerminalCell]) -> (out: Vec<TerminalCell>)
    ensures
        cells_view(out@) == cells_view(cells@),
{
    let mut out: Vec<TerminalCell> = Vec::new();
    let mut i: usize = 0;
    while i < cells.len()
        invariant
            i <= cells.len(),
            out@.len() == i,
            forall|j: int| 0 <= j < i ==> out@[j]@ == cells@[j]@,
        decreases cells.len() - i,
    {
        out.push(cells[i].duplicate());
        i = i + 1;
    }
    proof {
        assert(cells_view(out@) =~= cells_view(cells@));
    }
    out
}

/// `n` blank cells.
pub fn blank_cells(n: usize) -> (out: Vec<TerminalCell>)
    ensures
        out@.len() == n,
        forall|j: int| 0 <= j < n ==> (#[trigger] out@[j])@ == blank_cell_view(),
{
    let mut out: Vec<TerminalCell> = Vec::new();
    let mut i: usize = 0;
    while i < n
        invariant
            i <= n,
            out@.len() == i,
            forall|j: int| 0 <= j < i ==> (#[trigger] out@[j])@ == blank_cell_view(),
        decreases n - i,
    {
        out.push(TerminalCell::default());
        i = i + 1;
    }
    out
}

/// Cursor state projected from the terminal core.
#[derive(Debug, Clone, Copy, PartialEq, Eq, Structural)]
pub struct TerminalCursor {
    pub row: u16,
    pub col: u16,
    pub shape: TerminalCursorShape,
}

/// Single damaged span within the viewport.
#[derive(Debug, Clone, Copy, PartialEq, Eq, Structural)]
pub struct TerminalDamageSpan {
    pub row: u16,
    pub left: u16,
    pub right: u16,
}

/// Visible terminal damage since the last published frame.
#[derive(Debug, Clone, PartialEq, Eq)]
pub enum TerminalDamage {
    Full,
    Partial(Vec<TerminalDamageSpan>),
}

impl TerminalDamage {
    /// The damaged spans, or `None` for full damage.
    pub open spec fn spec_spans(&self) -> Option<Seq<TerminalDamageSpan>> {
        match self {
            TerminalDamage::Full => None,
            TerminalDamage::Partial(spans) => Some(spans@),
        }
    }

    /// A copy of this damage.
    pub fn duplicate(&self) -> (d: TerminalDamage)
        ensures
            d.spec_spans() == self.spec_spans(),
    {
        match self {
            TerminalDamage::Full => TerminalDamage::Full,
            TerminalDamage::Partial(spans) => TerminalDamage::Partial(spans.clone()),
        }
    }
}

/// Single renderer-facing contiguous row span within the viewport.
#[derive(Debug, Clone, Copy, PartialEq, Eq, Structural)]
pub struct TerminalCellSpanUpdate {
    pub row: u16,
    pub left: u16,
    pub len: u16,
    pub cells_start: u32,
}

/// Changed row spans of a frame, with their cells stored back to back.
#[derive(Debug, Clone, PartialEq, Eq)]
pub struct TerminalCellSpanBatch {
    spans: Vec<TerminalCellSpanUpdate>,
    cells: Vec<TerminalCell>,
}

impl TerminalCellSpanBatch {
    /// The span updates, in order.
    pub closed spec fn spec_spans(&self) -> Seq<TerminalCellSpanUpdate> {
        self.spans@
    }

    /// The changed cells, back to back.
    pub closed spec fn spec_cells(&self) -> Seq<TerminalCell> {
        self.cells@
    }

    /// Every span's cells lie within the cell storage.
    pub open spec fn spans_in_bounds(&self) -> bool {
        forall|i: int|
            0 <= i < self.spec_spans().len() ==> (#[trigger] self.spec_spans()[i]).cells_start
                + self.spec_spans()[i].len <= self.spec_cells().len()
    }

    /// Bundles span updates with their cells.
    pub fn new(spans: Vec<TerminalCellSpanUpdate>, cells: Vec<TerminalCell>) -> (batch: Self)
        ensures
            batch.spec_spans() == spans@,
            batch.spec_cells() == cells@,
    {
        TerminalCellSpanBatch { spans, cells }
    }

    /// The span updates, in order.
    pub fn spans(&self) -> (spans: &[TerminalCellSpanUpdate])
        ensures
            spans@ == self.spec_spans(),
    {
        self.spans.as_slice()
    }

    /// Number of span updates.
    pub fn span_count(&self) -> (n: usize)
        ensures
            n == self.spec_spans().len(),
    {
        self.spans.len()
    }

    /// Number of changed cells.
    pub fn cell_count(&self) -> (n: usize)
        ensures
            n == self.spec_cells().len(),
    {
        self.cells.len()
    }

    /// The cells of one span.
    pub fn cells_for_span(&self, span: &TerminalCellSpanUpdate) -> (cells: &[TerminalCell])
        requires
            span.cells_start + span.len <= self.spec_cells().len(),
        ensures
            cells@ == self.spec_cells().subrange(
                span.cells_start as int,
                span.cells_start + span.len,
            ),
    {
        let n = self.cells.len();
        let start = span.cells_start as usize;
        let end = start + span.len as usize;
        slice_range(self.cells.as_slice(), start, end)
    }
}

/// `s[start..end]`.
pub fn slice_range<T>(s: &[T], start: usize, end: usize) -> (r: &[T])
    requires
        start <= end <= s@.len(),
    ensures
        r@ == s@.subrange(start as int, end as int),
{
    vstd::slice::slice_subrange(s, start, end)
}

/// Immutable terminal cell publication for a single frame.
#[derive(Debug, Clone, PartialEq, Eq)]
pub enum TerminalCellPublication {
    Full(Arc<Vec<TerminalCell>>),
    Partial(TerminalCellSpanBatch),
}

/// Immutable terminal frame published to native renderers.
#[derive(Debug, Clone, PartialEq, Eq)]
pub struct TerminalFrame {
    pub rows: u16,
    pub cols: u16,
    pub history_size: usize,
    pub cursor: TerminalCursor,
    pub bracketed_paste: bool,
    pub display_offset: usize,
    pub damage: TerminalDamage,
    pub publication: TerminalCellPublication,
}

impl TerminalFrame {
    /// The full cell grid when this frame publishes one.
    pub open spec fn spec_full_cells(&self) -> Option<Seq<TerminalCell>> {
        match self.publication {
            TerminalCellPublication::Full(cells) => Some((*cells)@),
            TerminalCellPublication::Partial(_) => None,
        }
    }

    /// The shared full cell grid, when this frame publishes one.
    pub fn full_cells_shared(&self) -> (cells: Option<&Arc<Vec<TerminalCell>>>)
        ensures
            match cells {
                Some(c) => self.spec_full_cells() == Some((**c)@),
                None => self.spec_full_cells() is None,
            },
    {
        match &self.publication {
            TerminalCellPublication::Full(cells) => Some(cells),
            TerminalCellPublication::Partial(_) => None,
        }
    }

    /// The full cell grid, when this frame publishes one.
    pub fn full_cells(&self) -> (cells: Option<&[TerminalCell]>)
        ensures
            match cells {
                Some(c) => self.spec_full_cells() == Some(c@),
                None => self.spec_full_cells() is None,
            },
    {
        match &self.publication {
            TerminalCellPublication::Full(cells) => {
                let v: &Vec<TerminalCell> = &**cells;
                Some(v.as_slice())
            },
            TerminalCellPublication::Partial(_) => None,
        }
    }

    /// The changed spans, when this frame publishes only changes.
    pub fn changed_spans(&self) -> (changes: Option<&TerminalCellSpanBatch>)
        ensures
            match changes {
                Some(c) => self.publication == TerminalCellPublication::Partial(*c),
                None => self.publication is Full,
            },
    {
        match &self.publication {
            TerminalCellPublication::Full(_) => None,
            TerminalCellPublication::Partial(changes) => Some(changes),
        }
    }

    /// The cell at `row`, `col` of the full grid (row-major, `cols` wide).
    pub fn cell(&self, row: u16, col: u16) -> (cell: Option<&TerminalCell>)
        ensures
            match self.spec_full_cells() {
                Some(cells) => {
                    let index = row * self.cols + col;
                    match cell {
                        Some(c) => index < cells.len() && *c == cells[index],
                        None => index >= cells.len(),
                    }
                },
                None => cell is None,
            },
    {
        let cells = match self.full_cells() {
            Some(cells) => cells,
            None => return None,
        };
        let n = cells.len();
        let width = self.cols as usize;
        let index = match (row as usize).checked_mul(width) {
            Some(v) => match v.checked_add(col as usize) {
                Some(i) => i,
                None => return None,
            },
            None => return None,
        };
        if index < n {
            Some(&cells[index])
        } else {
            None
        }
    }
}

} // verus!
