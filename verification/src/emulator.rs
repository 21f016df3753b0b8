//! The terminal emulator: feeds output bytes to the emulator core, keeps a
//! renderer-facing projection of its screen and publishes frames of it.
use vstd::prelude::*;
use crate::clock::{instant_now, micros_since};
use alacritty_terminal::event::VoidListener;
use alacritty_terminal::grid::Dimensions;
use alacritty_terminal::term::test::TermSize;
use alacritty_terminal::term::{Config, Term, TermDamage, TermMode};
use alacritty_terminal::vte::ansi::{Color, CursorShape, Processor, StdSyncHandler};
use crate::emulator_projection::{
    build_publication, changed_spans_of, collect_damage, frame_damage, project_cursor, projected_cell, projection_regions,
    damage_regions, write_projected_row, GridCell, GridCellView, GridColor, LineDamage, ViewportSize,
};
use crate::terminal_model::{
    blank_cell_view, blank_cells, cells_view, slice_range, TerminalCell, TerminalCellView, TerminalCursor,
    TerminalCellPublication, TerminalCursorShape, TerminalDamage, TerminalFrame,
};
use crate::terminal_raster::{resize_cells, resized_cells};

verus! {

/// Rows of an emulator built from the default configuration.
pub const EMULATOR_DEFAULT_ROWS: u16 = 42;

/// Columns of an emulator built from the default configuration.
pub const EMULATOR_DEFAULT_COLS: u16 = 140;

/// Scrollback lines of an emulator built from the default configuration.
pub const EMULATOR_DEFAULT_SCROLLBACK: usize = 10000;

/// Construction parameters for the terminal emulator.
#[derive(Debug, Clone, Copy, PartialEq, Eq, Structural)]
pub struct AlacrittyEmulatorConfig {
    pub rows: u16,
    pub cols: u16,
    pub scrollback: usize,
}

impl Default for AlacrittyEmulatorConfig {
    fn default() -> (config: Self)
        ensures
            config.rows == EMULATOR_DEFAULT_ROWS,
            config.cols == EMULATOR_DEFAULT_COLS,
            config.scrollback == EMULATOR_DEFAULT_SCROLLBACK,
    {
        AlacrittyEmulatorConfig {
            rows: EMULATOR_DEFAULT_ROWS,
            cols: EMULATOR_DEFAULT_COLS,
            scrollback: EMULATOR_DEFAULT_SCROLLBACK,
        }
    }
}

/// Fine-grained timing, in microseconds, of one emulator snapshot build.
#[derive(Debug, Clone, Copy, Default, PartialEq, Eq, Structural)]
pub struct EmulatorSnapshotProfile {
    pub damage_collect_us: u128,
    pub projection_update_us: u128,
    pub publication_build_us: u128,
}

#[verifier::external_type_specification]
#[verifier::external_body]
#[verifier::reject_recursive_types(T)]
pub struct ExTerm<T>(Term<T>);

#[verifier::external_type_specification]
#[verifier::external_body]
pub struct ExVoidListener(VoidListener);

/// The escape-sequence parser that drives the emulator core (`Processor`),
/// held opaque: Verus refuses a declaration of `Processor`, whose type
/// parameter is bound by a trait of the outside crate.
#[verifier::external_body]
struct EscapeParser {
    processor: Processor<StdSyncHandler>,
}

/// `Processor::new`: a fresh escape-sequence parser.
#[verifier::external_body]
fn new_parser() -> EscapeParser {
    EscapeParser { processor: Processor::new() }
}

/// `Term::new`: an emulator core with a screen of `size` that keeps
/// `scrollback` lines of history.
#[verifier::external_body]
fn new_term(size: ViewportSize, scrollback: usize) -> Term<VoidListener> {
    let mut config = Config::default();
    config.scrolling_history = scrollback;
    let dimensions = TermSize::new(size.cols as usize, size.rows as usize);
    Term::new(config, &dimensions, VoidListener)
}

/// `Processor::advance`: feeds `bytes` through the parser to the core.
#[verifier::external_body]
fn advance_parser(parser: &mut EscapeParser, term: &mut Term<VoidListener>, bytes: &[u8]) {
    parser.processor.advance(term, bytes);
}

/// `Term::resize`: gives the core's screen the size `size`, which must have
/// a line and two columns (the core computes its last column as the column
/// count minus one).
#[verifier::external_body]
fn resize_term(term: &mut Term<VoidListener>, size: ViewportSize)
    requires
        size.rows >= 1,
        size.cols >= 2,
{
    term.resize(TermSize::new(size.cols as usize, size.rows as usize));
}

/// `Term::reset_damage`: clears the core's damage.
#[verifier::external_body]
fn reset_term_damage(term: &mut Term<VoidListener>) {
    term.reset_damage();
}

/// One thing the emulator core and its parser were told, in order.
pub enum CoreEvent {
    /// Made with a screen of `rows` by `cols` keeping `scrollback` lines of
    /// history.
    Created { rows: u16, cols: u16, scrollback: usize },
    /// Fed output bytes.
    Fed(Seq<u8>),
    /// Resized to `rows` by `cols`.
    Resized { rows: u16, cols: u16 },
    /// Asked for its damage, which also records the cursor it damaged.
    DamageRead,
    /// Told to forget its damage.
    DamageReset,
}

/// `Term::damage` after the calls of `history`: `None` when the whole
/// screen is damaged, else each damaged line with its columns.
pub uninterp spec fn core_damage(history: Seq<CoreEvent>) -> Option<Seq<LineDamage>>;

/// `Term::renderable_content`'s cursor and display offset after the calls
/// of `history`.
pub uninterp spec fn core_cursor(history: Seq<CoreEvent>) -> CursorReport;

/// `Grid::display_iter` after the calls of `history`: the cells on screen,
/// row by row from the top.
pub uninterp spec fn core_screen(history: Seq<CoreEvent>) -> Seq<GridCellView>;

/// `Term::mode`'s bracketed paste flag after the calls of `history`.
pub uninterp spec fn core_bracketed_paste(history: Seq<CoreEvent>) -> bool;

/// `Grid::history_size` after the calls of `history`.
pub uninterp spec fn core_history_size(history: Seq<CoreEvent>) -> usize;

/// The emulator core and its parser, with the calls made on them since
/// they were made. Only this module's methods touch them, and each call
/// is recorded as it is made, so the record is the core's whole input.
pub struct EmulatorCore {
    parser: EscapeParser,
    term: Term<VoidListener>,
    history: Ghost<Seq<CoreEvent>>,
}

impl View for EmulatorCore {
    type V = Seq<CoreEvent>;

    closed spec fn view(&self) -> Seq<CoreEvent> {
        self.history@
    }
}

/// `Term::damage`: the core's damage since it was last reset, `None` when
/// the whole screen is damaged, else each damaged line with its columns.
/// The result is named over the calls made on the core before; the record
/// of this call is added by its caller.
#[verifier::external_body]
fn damage_report(core: &mut EmulatorCore) -> (report: Option<Vec<LineDamage>>)
    ensures
        match report {
            Some(lines) => core_damage(old(core)@) == Some(lines@),
            None => core_damage(old(core)@) is None,
        },
        final(core)@ == old(core)@,
{
    match core.term.damage() {
        TermDamage::Full => None,
        TermDamage::Partial(lines) => Some(
            lines.map(|l| LineDamage { line: l.line, left: l.left, right: l.right }).collect(),
        ),
    }
}

/// `Term::renderable_content`: the core's cursor (its grid line, counted
/// from the top of the screen when the view is not scrolled, its column
/// and shape) and how far the view is scrolled back.
#[verifier::external_body]
fn cursor_report(core: &EmulatorCore) -> (report: CursorReport)
    ensures
        report == core_cursor(core@),
{
    let content = core.term.renderable_content();
    let shape = match content.cursor.shape {
        CursorShape::Block => TerminalCursorShape::Block,
        CursorShape::Underline => TerminalCursorShape::Underline,
        CursorShape::Beam => TerminalCursorShape::Beam,
        CursorShape::HollowBlock => TerminalCursorShape::HollowBlock,
        CursorShape::Hidden => TerminalCursorShape::Hidden,
    };
    let point = content.cursor.point;
    CursorReport { line: point.line.0, column: point.column.0, shape, display_offset: content.display_offset }
}

/// `Grid::display_iter`: the cells on screen, row by row from the top.
#[verifier::external_body]
fn visible_cells(core: &EmulatorCore) -> (cells: Vec<GridCell>)
    ensures
        grid_cells_view(cells@) == core_screen(core@),
{
    let color = |c: Color| match c {
        Color::Named(n) => GridColor::Named(n as u16),
        Color::Indexed(i) => GridColor::Indexed(i),
        Color::Spec(rgb) => GridColor::Spec { r: rgb.r, g: rgb.g, b: rgb.b },
    };
    core.term.grid().display_iter().map(|i| GridCell {
        c: i.cell.c,
        zerowidth: i.cell.zerowidth().map(|z| z.to_vec()),
        fg: color(i.cell.fg),
        bg: color(i.cell.bg),
        flags: i.cell.flags.bits(),
    }).collect()
}

/// `TermMode::BRACKETED_PASTE`: whether the core's bracketed paste mode is on.
#[verifier::external_body]
fn bracketed_paste_on(core: &EmulatorCore) -> (on: bool)
    ensures
        on == core_bracketed_paste(core@),
{
    core.term.mode().contains(TermMode::BRACKETED_PASTE)
}

/// `Dimensions::history_size`: lines of history the core holds.
#[verifier::external_body]
fn history_lines(core: &EmulatorCore) -> (lines: usize)
    ensures
        lines == core_history_size(core@),
{
    core.term.grid().history_size()
}

impl EmulatorCore {
    /// A fresh core with a screen of `size` keeping `scrollback` lines.
    fn new(size: ViewportSize, scrollback: usize) -> (core: Self)
        ensures
            core@ == seq![CoreEvent::Created { rows: size.rows, cols: size.cols, scrollback }],
    {
        EmulatorCore {
            parser: new_parser(),
            term: new_term(size, scrollback),
            history: Ghost(Seq::empty().push(CoreEvent::Created { rows: size.rows, cols: size.cols, scrollback })),
        }
    }

    /// Feeds `bytes` through the parser to the core.
    fn feed(&mut self, bytes: &[u8])
        ensures
            final(self)@ == old(self)@.push(CoreEvent::Fed(bytes@)),
    {
        advance_parser(&mut self.parser, &mut self.term, bytes);
        self.history = Ghost(self.history@.push(CoreEvent::Fed(bytes@)));
    }

    /// Resizes the core's screen.
    fn resize(&mut self, size: ViewportSize)
        requires
            size.rows >= 1,
            size.cols >= 2,
        ensures
            final(self)@ == old(self)@.push(CoreEvent::Resized { rows: size.rows, cols: size.cols }),
    {
        resize_term(&mut self.term, size);
        self.history = Ghost(self.history@.push(CoreEvent::Resized { rows: size.rows, cols: size.cols }));
    }

    /// Reads the core's damage (see [`core_damage`]).
    fn read_damage(&mut self) -> (report: Option<Vec<LineDamage>>)
        ensures
            match report {
                Some(lines) => core_damage(old(self)@) == Some(lines@),
                None => core_damage(old(self)@) is None,
            },
            final(self)@ == old(self)@.push(CoreEvent::DamageRead),
    {
        let report = damage_report(self);
        self.history = Ghost(self.history@.push(CoreEvent::DamageRead));
        report
    }

    /// Clears the core's damage.
    fn reset_damage(&mut self)
        ensures
            final(self)@ == old(self)@.push(CoreEvent::DamageReset),
    {
        reset_term_damage(&mut self.term);
        self.history = Ghost(self.history@.push(CoreEvent::DamageReset));
    }
}

/// Where the emulator core reports its cursor: grid line (negative in the
/// history), column, shape, and how far the view is scrolled back.
#[derive(Debug, Clone, Copy, PartialEq, Eq, Structural)]
pub struct CursorReport {
    pub line: i32,
    pub column: usize,
    pub shape: TerminalCursorShape,
    pub display_offset: usize,
}

/// Screen position of grid line `line`, column `column` when the view is
/// scrolled back `display_offset` lines; `None` above the screen.
pub open spec fn viewport_point(display_offset: usize, line: i32, column: usize) -> Option<(usize, usize)> {
    let viewport_line = line + (display_offset as i32);
    if viewport_line >= 0 {
        Some((viewport_line as usize, column))
    } else {
        None
    }
}

/// Screen position of a grid position (see [`viewport_point`]).
pub fn point_to_viewport(display_offset: usize, line: i32, column: usize) -> (point: Option<(usize, usize)>)
    ensures
        point == viewport_point(display_offset, line, column),
{
    let offset = display_offset as i32;
    let viewport_line: i64 = line as i64 + offset as i64;
    if viewport_line >= 0 {
        Some((viewport_line as usize, column))
    } else {
        None
    }
}

/// Frame cursor of a cursor report: at its screen position, drawn hidden
/// at the origin when it is off screen.
pub open spec fn reported_cursor(report: CursorReport) -> TerminalCursor {
    match viewport_point(report.display_offset, report.line, report.column) {
        Some((line, column)) => TerminalCursor { row: line as u16, col: column as u16, shape: report.shape },
        None => TerminalCursor { row: 0, col: 0, shape: TerminalCursorShape::Hidden },
    }
}

/// Screen size of a requested size: at least one row and two columns.
pub open spec fn clamped_size(rows: u16, cols: u16) -> ViewportSize {
    ViewportSize { rows: if rows < 1 { 1 } else { rows }, cols: if cols < 2 { 2 } else { cols } }
}

/// Values of emulator cells.
pub open spec fn grid_cells_view(cells: Seq<GridCell>) -> Seq<GridCellView> {
    cells.map_values(|c: GridCell| c@)
}

/// The projected grid after reading back the screen region `region`
/// (row, first and last column) from `visible`, the screen's cells row by
/// row: its cells replaced by the projections of the cells at the same
/// positions, when the region lies in both.
pub open spec fn region_written(
    cells: Seq<TerminalCellView>,
    size: ViewportSize,
    region: (u16, u16, u16),
    visible: Seq<GridCellView>,
) -> Seq<TerminalCellView> {
    let (row, left, right) = region;
    let start = row * size.cols + left;
    let end = row * size.cols + right + 1;
    if left <= right && end <= cells.len() && end <= visible.len() {
        Seq::new(cells.len(), |j: int| if start <= j < end { projected_cell(visible[j]) } else { cells[j] })
    } else {
        cells
    }
}

/// The projected grid after reading back the first `n` regions in order.
pub open spec fn regions_written(
    cells: Seq<TerminalCellView>,
    size: ViewportSize,
    regions: Seq<(u16, u16, u16)>,
    visible: Seq<GridCellView>,
    n: int,
) -> Seq<TerminalCellView>
    decreases n,
{
    if n <= 0 {
        cells
    } else {
        region_written(regions_written(cells, size, regions, visible, n - 1), size, regions[n - 1], visible)
    }
}

proof fn lemma_regions_written_len(
    cells: Seq<TerminalCellView>,
    size: ViewportSize,
    regions: Seq<(u16, u16, u16)>,
    visible: Seq<GridCellView>,
    n: int,
)
    ensures
        regions_written(cells, size, regions, visible, n).len() == cells.len(),
    decreases n,
{
    if n > 0 {
        lemma_regions_written_len(cells, size, regions, visible, n - 1);
    }
}

/// Reads back each region of the screen from `visible` into the projected
/// grid.
fn write_regions(
    cells: &mut Vec<TerminalCell>,
    size: ViewportSize,
    regions: &Vec<(u16, u16, u16)>,
    visible: &[GridCell],
)
    ensures
        cells_view(final(cells)@) == regions_written(
            cells_view(old(cells)@),
            size,
            regions@,
            grid_cells_view(visible@),
            regions@.len() as int,
        ),
{
    let ghost start_cells = cells_view(cells@);
    let ghost vis = grid_cells_view(visible@);
    let mut i: usize = 0;
    while i < regions.len()
        invariant
            i <= regions@.len(),
            vis == grid_cells_view(visible@),
            cells_view(cells@) == regions_written(start_cells, size, regions@, vis, i as int),
        decreases regions.len() - i,
    {
        let (row, left, right) = regions[i];
        let ghost before = cells_view(cells@);
        proof {
            crate::terminal_text::lemma_grid_index_fits(row, size.cols, right, 1);
        }
        if left <= right {
            let start = (row as usize) * (size.cols as usize) + (left as usize);
            let end = (row as usize) * (size.cols as usize) + (right as usize) + 1;
            if end <= visible.len() {
                let source = slice_range(visible, start, end);
                let ghost old_cells = cells@;
                write_projected_row(cells, size, row, left, right, source);
                proof {
                    assert(cells_view(cells@) =~= region_written(before, size, (row, left, right), vis)) by {
                        if end <= old_cells.len() {
                            assert forall|j: int| 0 <= j < cells@.len() implies #[trigger] cells_view(cells@)[j]
                                == (if start <= j < end { projected_cell(vis[j]) } else { before[j] }) by {
                                if start <= j < end {
                                    assert(cells@[start + (j - start)]@ == projected_cell(source@[j - start]@));
                                    assert(source@[j - start] == visible@[j]);
                                } else {
                                    assert(cells@[j] == old_cells[j]);
                                }
                            }
                        }
                    }
                }
            }
        }
        i = i + 1;
    }
}

/// State of an emulator: the screen size, the projected screen cells row
/// by row, how far the view was scrolled back at the last frame, and the
/// calls made on the emulator core since it was made.
pub struct EmulatorView {
    pub size: ViewportSize,
    pub cells: Seq<TerminalCellView>,
    pub last_display_offset: usize,
    pub core: Seq<CoreEvent>,
}

/// Local terminal emulator that projects the emulator core's screen into a
/// renderer-facing frame.
pub struct AlacrittyEmulator {
    core: EmulatorCore,
    size: ViewportSize,
    projected_cells: Vec<TerminalCell>,
    last_display_offset: usize,
}

impl View for AlacrittyEmulator {
    type V = EmulatorView;

    closed spec fn view(&self) -> EmulatorView {
        EmulatorView {
            size: self.size,
            cells: cells_view(self.projected_cells@),
            last_display_offset: self.last_display_offset,
            core: self.core@,
        }
    }
}

impl AlacrittyEmulator {
    /// The projected grid covers the screen, of at least one row and two
    /// columns.
    pub open spec fn wf(&self) -> bool {
        &&& self@.size.rows >= 1
        &&& self@.size.cols >= 2
        &&& self@.cells.len() == self@.size.rows * self@.size.cols
    }

    /// An emulator with an empty screen of the configured size (at least
    /// one row and two columns) and history.
    pub fn new(config: AlacrittyEmulatorConfig) -> (emulator: Self)
        ensures
            emulator.wf(),
            emulator@.size == clamped_size(config.rows, config.cols),
            emulator@.cells == Seq::new(emulator@.cells.len(), |i: int| blank_cell_view()),
            emulator@.last_display_offset == 0,
            emulator@.core == seq![
                CoreEvent::Created {
                    rows: clamped_size(config.rows, config.cols).rows,
                    cols: clamped_size(config.rows, config.cols).cols,
                    scrollback: config.scrollback,
                },
            ],
    {
        let size = ViewportSize::new(config.rows, config.cols);
        let cells = blank_cells(size.cell_count());
        let emulator = AlacrittyEmulator {
            core: EmulatorCore::new(size, config.scrollback),
            size,
            projected_cells: cells,
            last_display_offset: 0,
        };
        assert(emulator@.cells =~= Seq::new(emulator@.cells.len(), |i: int| blank_cell_view()));
        emulator
    }

    /// Feeds terminal output to the emulator core (nothing is fed for no
    /// bytes); the projection is left for the next snapshot.
    pub fn ingest(&mut self, bytes: &[u8])
        requires
            old(self).wf(),
        ensures
            final(self).wf(),
            final(self)@ == (EmulatorView {
                core: if bytes@.len() == 0 {
                    old(self)@.core
                } else {
                    old(self)@.core.push(CoreEvent::Fed(bytes@))
                },
                ..old(self)@
            }),
    {
        if bytes.len() == 0 {
            return;
        }
        self.core.feed(bytes);
    }

    /// Resizes the screen to `rows` by `cols` (at least one row and two
    /// columns); true when the size changed. The projected grid keeps its
    /// leading cells, cut or padded with blanks.
    pub fn resize(&mut self, rows: u16, cols: u16) -> (changed: bool)
        requires
            old(self).wf(),
        ensures
            final(self).wf(),
            changed == (old(self)@.size != clamped_size(rows, cols)),
            changed ==> final(self)@ == (EmulatorView {
                size: clamped_size(rows, cols),
                cells: resized_cells(old(self)@.cells, rows_times_cols(clamped_size(rows, cols))),
                last_display_offset: old(self)@.last_display_offset,
                core: old(self)@.core.push(
                    CoreEvent::Resized { rows: clamped_size(rows, cols).rows, cols: clamped_size(rows, cols).cols },
                ),
            }),
            !changed ==> final(self)@ == old(self)@,
    {
        let next = ViewportSize::new(rows, cols);
        if self.size == next {
            return false;
        }
        self.core.resize(next);
        self.size = next;
        let n = next.cell_count();
        resize_cells(&mut self.projected_cells, n);
        true
    }

    /// Frame damage of a snapshot: the core's reported damage, or the whole
    /// screen when the view was scrolled since the last frame.
    pub fn snapshot_damage(&self, report: Option<Vec<LineDamage>>, display_offset: usize) -> (damage:
        TerminalDamage)
        ensures
            damage.spec_spans() == if display_offset != self@.last_display_offset {
                None
            } else {
                frame_damage(
                    match report {
                        Some(lines) => Some(lines@),
                        None => None,
                    },
                )
            },
    {
        let damage = collect_damage(report);
        if self.last_display_offset != display_offset {
            TerminalDamage::Full
        } else {
            damage
        }
    }

    /// Reads back the damaged regions of the screen from `visible` (the
    /// screen's cells, row by row) into the projected grid.
    pub fn project_damage(&mut self, damage: &TerminalDamage, visible: &[GridCell])
        requires
            old(self).wf(),
        ensures
            final(self).wf(),
            final(self)@ == (EmulatorView {
                cells: regions_written(
                    old(self)@.cells,
                    old(self)@.size,
                    damage_regions(old(self)@.size, damage.spec_spans()),
                    grid_cells_view(visible@),
                    damage_regions(old(self)@.size, damage.spec_spans()).len() as int,
                ),
                ..old(self)@
            }),
    {
        let regions = projection_regions(self.size, damage);
        write_regions(&mut self.projected_cells, self.size, &regions, visible);
        proof {
            lemma_regions_written_len(
                cells_view(old(self).projected_cells@),
                self.size,
                regions@,
                grid_cells_view(visible@),
                regions@.len() as int,
            );
        }
    }

    /// Projects the core's screen into a frame and resets its damage: see
    /// [`snapshot_profiled`](Self::snapshot_profiled).
    pub fn snapshot(&mut self) -> (frame: TerminalFrame)
        requires
            old(self).wf(),
        ensures
            final(self).wf(),
            snapshot_taken(old(self)@, final(self)@, frame),
    {
        self.snapshot_profiled().0
    }

    /// Projects the core's screen into a frame, timing each step: the
    /// damage ([`snapshot_damage`](Self::snapshot_damage)), the projection
    /// of the damaged regions ([`project_damage`](Self::project_damage)),
    /// and the publication of the whole grid or of the changed spans
    /// (`build_publication`); the cursor comes from its report
    /// ([`reported_cursor`]). The core's damage is then reset.
    pub fn snapshot_profiled(&mut self) -> (result: (TerminalFrame, EmulatorSnapshotProfile))
        requires
            old(self).wf(),
        ensures
            final(self).wf(),
            snapshot_taken(old(self)@, final(self)@, result.0),
    {
        let damage_started = instant_now();
        let report = self.core.read_damage();
        let cursor_state = cursor_report(&self.core);
        let display_offset = cursor_state.display_offset;
        let damage = self.snapshot_damage(report, display_offset);
        let viewport = point_to_viewport(display_offset, cursor_state.line, cursor_state.column);
        let cursor = project_cursor(viewport, cursor_state.shape);
        let damage_collect_us = micros_since(&damage_started);

        let projection_started = instant_now();
        let visible = visible_cells(&self.core);
        self.project_damage(&damage, visible.as_slice());
        let projection_update_us = micros_since(&projection_started);
        let bracketed_paste = bracketed_paste_on(&self.core);

        let publication_started = instant_now();
        let publication = build_publication(self.projected_cells.as_slice(), self.size, &damage);
        let publication_build_us = micros_since(&publication_started);
        self.last_display_offset = display_offset;
        let history_size = history_lines(&self.core);

        self.core.reset_damage();

        let frame = TerminalFrame {
            rows: self.size.rows,
            cols: self.size.cols,
            history_size,
            cursor,
            bracketed_paste,
            display_offset,
            damage,
            publication,
        };
        (frame, EmulatorSnapshotProfile { damage_collect_us, projection_update_us, publication_build_us })
    }
}

/// What a snapshot leaves behind, over the emulator `before` and `after`
/// it and the frame it returns. The core's damage is read (`h`, the calls
/// made on it then) and then reset; the frame has the screen's size; the
/// cursor report of the core gives the frame's cursor, placed on screen,
/// and its display offset; the damage is the core's, or the whole screen
/// when the view was scrolled since the last frame; the projected cells
/// are the old ones with the damaged regions read back from the core's
/// screen; the frame publishes the whole grid for full damage, else the
/// changed spans of the projected cells; bracketed paste and the history
/// size are the core's.
pub open spec fn snapshot_taken(before: EmulatorView, after: EmulatorView, frame: TerminalFrame) -> bool {
    let h = before.core.push(CoreEvent::DamageRead);
    let report = core_cursor(h);
    let damage = if report.display_offset != before.last_display_offset {
        None
    } else {
        frame_damage(core_damage(before.core))
    };
    &&& after.core == h.push(CoreEvent::DamageReset)
    &&& after.size == before.size
    &&& frame.rows == before.size.rows
    &&& frame.cols == before.size.cols
    &&& frame.cursor == reported_cursor(report)
    &&& frame.display_offset == report.display_offset
    &&& after.last_display_offset == report.display_offset
    &&& frame.damage.spec_spans() == damage
    &&& after.cells == regions_written(
        before.cells,
        before.size,
        damage_regions(before.size, damage),
        core_screen(h),
        damage_regions(before.size, damage).len() as int,
    )
    &&& (damage is None) == (frame.spec_full_cells() is Some)
    &&& frame.spec_full_cells() is Some ==> cells_view(frame.spec_full_cells().unwrap()) == after.cells
    &&& match damage {
        Some(spans) => match frame.publication {
            TerminalCellPublication::Partial(batch) => (batch.spec_spans(), cells_view(batch.spec_cells()))
                == changed_spans_of(after.cells, before.size, spans, spans.len() as int),
            TerminalCellPublication::Full(_) => false,
        },
        None => true,
    }
    &&& frame.bracketed_paste == core_bracketed_paste(h)
    &&& frame.history_size == core_history_size(h)
}

/// Cells of a screen size.
pub open spec fn rows_times_cols(size: ViewportSize) -> int {
    size.rows * size.cols
}

} // verus!
