//! Text-level terminal history: input line capture, scrollback tracking,
//! history merging and snapshots projected from native frames.
use vstd::prelude::*;
use std::sync::Arc;
use crate::native_session::NativeTerminalError;
use crate::state::SessionId;
use crate::terminal_model::{
    blank_cells, cells_view, copy_cells, TerminalCell, TerminalCellFlags, TerminalCellPublication,
    TerminalCellSpanBatch, TerminalCellView, TerminalCursorShape, TerminalFrame, FLAG_HIDDEN,
    FLAG_LEADING_WIDE_CHAR_SPACER, FLAG_WIDE_CHAR_SPACER,
};
use crate::text::{chars_of, lossy_string, trim_end_char, trim_end_char_seq, utf8_lossy};

verus! {

/// Most history lines kept in memory and restored from storage.
pub const MAX_PERSISTED_HISTORY_LINES: usize = 20000;

/// Render-ready terminal frame data extracted from terminal state.
#[derive(Debug, Clone, PartialEq, Eq)]
pub struct TerminalSnapshot {
    pub lines: Vec<String>,
    pub rows: u16,
    pub cols: u16,
    pub cursor_row: u16,
    pub cursor_col: u16,
    pub hide_cursor: bool,
    pub bracketed_paste: bool,
}

/// Terminal state kept with the workspace between runs.
#[derive(Debug, Clone)]
pub struct PersistedTerminalState {
    pub session_id: SessionId,
    pub cwd: String,
    pub rows: u16,
    pub cols: u16,
    pub cursor_row: u16,
    pub cursor_col: u16,
    pub hide_cursor: bool,
    pub bracketed_paste: bool,
    pub lines: Vec<String>,
}

/// Kind of a terminal runtime notification.
#[derive(Debug, Clone, Copy, PartialEq, Eq, Structural)]
pub enum TerminalEventKind {
    Activity,
    SnapshotChanged,
}

/// Terminal runtime notification for one session.
#[derive(Debug, Clone, Copy, PartialEq, Eq, Structural)]
pub struct TerminalEvent {
    pub session_id: SessionId,
    pub kind: TerminalEventKind,
}

/// Failures of the terminal runtime.
#[derive(Debug, Clone)]
pub enum TerminalError {
    SessionMissing,
    CreatePty(String),
    StartShell { cwd: String, details: String },
    OpenWriter(String),
    OpenReader(String),
    WriteInput(String),
    FlushInput(String),
    ResizePty(String),
}

/// Non-blocking sink for terminal text history events.
pub trait TerminalMemorySink {
    fn record_input_line(&self, session_id: SessionId, cwd: &str, line: String, ts_unix_ms: i64);

    fn record_output_line(&self, session_id: SessionId, cwd: &str, line: String, ts_unix_ms: i64);
}

/// Maps a native runtime error to the terminal error with the same details.
pub fn map_native_terminal_error(error: NativeTerminalError) -> (mapped: TerminalError)
    ensures
        mapped == match error {
            NativeTerminalError::CreatePty(d) => TerminalError::CreatePty(d),
            NativeTerminalError::StartShell { cwd, details } => TerminalError::StartShell {
                cwd,
                details,
            },
            NativeTerminalError::OpenWriter(d) => TerminalError::OpenWriter(d),
            NativeTerminalError::OpenReader(d) => TerminalError::OpenReader(d),
            NativeTerminalError::WriteInput(d) => TerminalError::WriteInput(d),
            NativeTerminalError::FlushInput(d) => TerminalError::FlushInput(d),
            NativeTerminalError::ResizePty(d) => TerminalError::ResizePty(d),
        },
{
    match error {
        NativeTerminalError::CreatePty(details) => TerminalError::CreatePty(details),
        NativeTerminalError::StartShell { cwd, details } => TerminalError::StartShell {
            cwd,
            details,
        },
        NativeTerminalError::OpenWriter(details) => TerminalError::OpenWriter(details),
        NativeTerminalError::OpenReader(details) => TerminalError::OpenReader(details),
        NativeTerminalError::WriteInput(details) => TerminalError::WriteInput(details),
        NativeTerminalError::FlushInput(details) => TerminalError::FlushInput(details),
        NativeTerminalError::ResizePty(details) => TerminalError::ResizePty(details),
    }
}

/// Text of each string.
pub open spec fn line_views(lines: Seq<String>) -> Seq<Seq<char>> {
    lines.map_values(|s: String| s@)
}

/// Pushing a string pushes its text.
pub proof fn lemma_line_views_push(lines: Seq<String>, line: String)
    ensures
        line_views(lines.push(line)) == line_views(lines).push(line@),
{
    assert(line_views(lines.push(line)) =~= line_views(lines).push(line@));
}

/// `s` with each `'` written as `'\''`.
pub open spec fn quote_body(s: Seq<char>) -> Seq<char>
    decreases s.len(),
{
    if s.len() == 0 {
        Seq::empty()
    } else {
        quote_body(s.drop_last()) + if s.last() == '\'' {
            seq!['\'', '\\', '\'', '\'']
        } else {
            seq![s.last()]
        }
    }
}

/// Quotes `input` as one single-quoted shell word.
pub fn shell_quote(input: &str) -> (quoted: String)
    ensures
        quoted@ == seq!['\''] + quote_body(input@) + seq!['\''],
{
    let v = chars_of(input);
    let mut out = String::new();
    out.push('\'');
    let mut i: usize = 0;
    while i < v.len()
        invariant
            i <= v.len(),
            out@ == seq!['\''] + quote_body(v@.take(i as int)),
        decreases v.len() - i,
    {
        proof {
            assert(v@.take(i + 1).drop_last() =~= v@.take(i as int));
        }
        if v[i] == '\'' {
            out.push('\'');
            out.push('\\');
            out.push('\'');
            out.push('\'');
        } else {
            out.push(v[i]);
        }
        proof {
            assert(out@ =~= seq!['\''] + quote_body(v@.take(i + 1)));
        }
        i = i + 1;
    }
    out.push('\'');
    proof {
        assert(v@.take(i as int) =~= v@);
    }
    out
}

/// A completed line: the pending bytes decoded, without trailing `\r`.
pub open spec fn finished_line(pending: Seq<u8>) -> Seq<char> {
    trim_end_char_seq(utf8_lossy(pending), '\r')
}

/// Pending input bytes and completed lines after reading `bytes`: `\r` or
/// `\n` completes a line, backspace drops the last pending byte, printable
/// bytes and tabs are kept, other control bytes are ignored.
pub open spec fn input_fold(pending: Seq<u8>, bytes: Seq<u8>) -> (Seq<u8>, Seq<Seq<char>>)
    decreases bytes.len(),
{
    if bytes.len() == 0 {
        (pending, Seq::empty())
    } else {
        let (p, lines) = input_fold(pending, bytes.drop_last());
        let b = bytes.last();
        if b == 0x0d || b == 0x0a {
            (Seq::empty(), lines.push(finished_line(p)))
        } else if b == 0x08 {
            (if p.len() > 0 {
                p.drop_last()
            } else {
                p
            }, lines)
        } else if b >= 0x20 || b == 0x09 {
            (p.push(b), lines)
        } else {
            (p, lines)
        }
    }
}

/// Typed bytes that are all printable (0x20 and up, UTF-8 continuation and
/// lead bytes included) or tabs are all kept, in order, after what was
/// pending, and complete no line.
pub proof fn lemma_typed_bytes_kept(pending: Seq<u8>, typed: Seq<u8>)
    requires
        forall|i: int| 0 <= i < typed.len() ==> #[trigger] typed[i] >= 0x20 || typed[i] == 0x09,
    ensures
        input_fold(pending, typed) == (pending + typed, Seq::<Seq<char>>::empty()),
    decreases typed.len(),
{
    if typed.len() == 0 {
        assert(pending + typed =~= pending);
    } else {
        let d = typed.drop_last();
        assert forall|i: int| 0 <= i < d.len() implies #[trigger] d[i] >= 0x20 || d[i] == 0x09 by {
            assert(d[i] == typed[i]);
        }
        lemma_typed_bytes_kept(pending, d);
        assert(typed[typed.len() - 1] >= 0x20 || typed[typed.len() - 1] == 0x09);
        assert((pending + d).push(typed.last()) =~= pending + typed);
    }
}

/// A typed byte erased by a backspace leaves the pending line as it was,
/// and other control bytes (below 0x20, but tab, CR, LF and backspace) are
/// ignored.
pub proof fn lemma_typed_byte_erased(pending: Seq<u8>, typed: u8, control: u8)
    requires
        typed >= 0x20 || typed == 0x09,
        control < 0x20,
        control != 0x09 && control != 0x0a && control != 0x0d && control != 0x08,
    ensures
        input_fold(pending, seq![typed, 0x08u8]) == (pending, Seq::<Seq<char>>::empty()),
        input_fold(pending, seq![control]) == (pending, Seq::<Seq<char>>::empty()),
{
    reveal_with_fuel(input_fold, 3);
    assert(seq![typed, 0x08u8].drop_last() =~= seq![typed]);
    assert(seq![typed].drop_last() =~= Seq::<u8>::empty());
    assert(seq![control].drop_last() =~= Seq::<u8>::empty());
    assert(pending.push(typed).drop_last() =~= pending);
}

/// A line typed without control bytes and ended by CR or LF is captured
/// whole: exactly one line, the decoding of what was pending followed by
/// every typed byte, with nothing left pending.
pub proof fn lemma_typed_line_captured(pending: Seq<u8>, typed: Seq<u8>, end: u8)
    requires
        forall|i: int| 0 <= i < typed.len() ==> #[trigger] typed[i] >= 0x20 || typed[i] == 0x09,
        end == 0x0d || end == 0x0a,
    ensures
        input_fold(pending, typed.push(end)) == (Seq::<u8>::empty(), seq![finished_line(pending + typed)]),
{
    lemma_typed_bytes_kept(pending, typed);
    assert(typed.push(end).drop_last() =~= typed);
    assert(Seq::<Seq<char>>::empty().push(finished_line(pending + typed)) =~= seq![finished_line(pending + typed)]);
}

/// Feeds typed bytes into the pending input line and returns the lines they complete.
pub fn parse_input_lines(pending: &mut Vec<u8>, bytes: &[u8]) -> (lines: Vec<String>)
    ensures
        final(pending)@ == input_fold(old(pending)@, bytes@).0,
        line_views(lines@) == input_fold(old(pending)@, bytes@).1,
{
    let ghost p0 = pending@;
    let mut lines: Vec<String> = Vec::new();
    let mut i: usize = 0;
    while i < bytes.len()
        invariant
            i <= bytes.len(),
            pending@ == input_fold(p0, bytes@.take(i as int)).0,
            line_views(lines@) == input_fold(p0, bytes@.take(i as int)).1,
        decreases bytes.len() - i,
    {
        proof {
            assert(bytes@.take(i + 1).drop_last() =~= bytes@.take(i as int));
        }
        let byte = bytes[i];
        if byte == 0x0d || byte == 0x0a {
            let decoded = lossy_string(pending.as_slice());
            let line = trim_end_char(decoded.as_str(), '\r');
            pending.clear();
            lines.push(line);
            proof {
                assert(line_views(lines@) =~= input_fold(p0, bytes@.take(i + 1)).1);
            }
        } else if byte == 0x08 {
            if pending.len() > 0 {
                pending.pop();
            }
            proof {
                assert(pending@ =~= input_fold(p0, bytes@.take(i + 1)).0);
            }
        } else if byte >= 0x20 || byte == 0x09 {
            pending.push(byte);
        }
        i = i + 1;
    }
    proof {
        assert(bytes@.take(i as int) =~= bytes@);
    }
    lines
}

/// The last `max` lines of `lines` (all of them when there are fewer), each
/// without trailing `\r`.
pub open spec fn normalized_history(lines: Seq<Seq<char>>, max: nat) -> Seq<Seq<char>> {
    let start = if lines.len() > max {
        lines.len() - max
    } else {
        0
    };
    lines.skip(start).map_values(|l: Seq<char>| trim_end_char_seq(l, '\r'))
}

/// The last `max` lines, each without trailing `\r`.
pub fn normalized_history_lines_limited(lines: &[String], max_history_lines: usize) -> (out: Vec<String>)
    ensures
        line_views(out@) == normalized_history(line_views(lines@), max_history_lines as nat),
{
    let start = lines.len().saturating_sub(max_history_lines);
    let mut out: Vec<String> = Vec::new();
    let mut i = start;
    while i < lines.len()
        invariant
            start <= i <= lines.len(),
            start == if lines@.len() > max_history_lines {
                lines@.len() - max_history_lines
            } else {
                0
            },
            out@.len() == i - start,
            forall|k: int|
                0 <= k < out@.len() ==> (#[trigger] out@[k])@ == trim_end_char_seq(
                    lines@[start + k]@,
                    '\r',
                ),
        decreases lines.len() - i,
    {
        out.push(trim_end_char(lines[i].as_str(), '\r'));
        i = i + 1;
    }
    proof {
        assert(line_views(out@) =~= normalized_history(line_views(lines@), max_history_lines as nat));
    }
    out
}

/// The last `MAX_PERSISTED_HISTORY_LINES` lines, each without trailing `\r`.
pub fn normalized_history_lines(lines: &[String]) -> (out: Vec<String>)
    ensures
        line_views(out@) == normalized_history(line_views(lines@), MAX_PERSISTED_HISTORY_LINES as nat),
{
    normalized_history_lines_limited(lines, MAX_PERSISTED_HISTORY_LINES)
}

/// The last `max` elements of `s`.
pub open spec fn keep_last(s: Seq<Seq<char>>, max: nat) -> Seq<Seq<char>> {
    if s.len() > max {
        s.skip(s.len() - max)
    } else {
        s
    }
}

fn copy_strings_from(src: &Vec<String>, from: usize) -> (out: Vec<String>)
    requires
        from <= src.len(),
    ensures
        line_views(out@) == line_views(src@).skip(from as int),
{
    let mut out: Vec<String> = Vec::new();
    let mut i = from;
    while i < src.len()
        invariant
            from <= i <= src.len(),
            out@.len() == i - from,
            forall|k: int| 0 <= k < out@.len() ==> (#[trigger] out@[k])@ == src@[from + k]@,
        decreases src.len() - i,
    {
        out.push(src[i].clone());
        i = i + 1;
    }
    proof {
        assert(line_views(out@) =~= line_views(src@).skip(from as int));
    }
    out
}

/// History `after` is `before` with the older lines `older_lines` put in
/// front, keeping at most `max` lines in all (the newest ones), and the
/// history grew by `inserted` lines.
pub open spec fn history_prepended(
    before: Seq<Seq<char>>,
    after: Seq<Seq<char>>,
    older_lines: Seq<Seq<char>>,
    max: nat,
    inserted: int,
) -> bool {
    let older = normalized_history(older_lines, max);
    if older.len() == 0 {
        &&& after == before
        &&& inserted == 0
    } else {
        let merged = keep_last(older + before, max);
        &&& after == merged
        &&& inserted == if merged.len() > before.len() {
            merged.len() - before.len()
        } else {
            0
        }
    }
}

/// Puts older history lines in front of `existing_lines`, keeping at most
/// `max_history_lines` lines in all (the newest ones). Returns how many lines
/// the history grew by.
pub fn prepend_history_lines_limited(
    existing_lines: &mut Vec<String>,
    older_lines: &[String],
    max_history_lines: usize,
) -> (inserted: usize)
    ensures
        history_prepended(
            line_views(old(existing_lines)@),
            line_views(final(existing_lines)@),
            line_views(older_lines@),
            max_history_lines as nat,
            inserted as int,
        ),
{
    let normalized_older = normalized_history_lines_limited(older_lines, max_history_lines);
    if normalized_older.len() == 0 {
        return 0;
    }
    let existing_len = existing_lines.len();
    let mut merged: Vec<String> = normalized_older;
    let mut i: usize = 0;
    let ghost prefix = line_views(merged@);
    while i < existing_lines.len()
        invariant
            i <= existing_lines.len(),
            existing_lines@ == old(existing_lines)@,
            line_views(merged@) == prefix + line_views(existing_lines@).take(i as int),
        decreases existing_lines.len() - i,
    {
        let ghost before = merged@;
        merged.push(existing_lines[i].clone());
        proof {
            lemma_line_views_push(before, existing_lines@[i as int]);
            assert(line_views(existing_lines@).take(i + 1) =~= line_views(existing_lines@).take(i as int).push(existing_lines@[i as int]@));
            assert(line_views(merged@) =~= prefix + line_views(existing_lines@).take(i + 1));
        }
        i = i + 1;
    }
    proof {
        assert(line_views(existing_lines@).take(i as int) =~= line_views(existing_lines@));
    }
    let overflow = merged.len().saturating_sub(max_history_lines);
    let kept = copy_strings_from(&merged, overflow);
    proof {
        assert(line_views(kept@) =~= keep_last(
            line_views(merged@),
            max_history_lines as nat,
        ));
    }
    *existing_lines = kept;
    existing_lines.len().saturating_sub(existing_len)
}

/// Prepends older history lines to a session's history `lines` (the
/// running terminal's, or those waiting to restore it): no lines give
/// `Ok(0)` and change nothing; a session that is neither running nor
/// waiting (`session_known` false) gives `SessionMissing`; otherwise the
/// lines are put in front, at most `MAX_PERSISTED_HISTORY_LINES` kept, and
/// the growth of the history is returned.
pub fn prepend_session_history(lines: &mut Vec<String>, session_known: bool, older_lines: &[String]) -> (outcome:
    Result<usize, TerminalError>)
    ensures
        older_lines@.len() == 0 ==> outcome == Ok::<usize, TerminalError>(0) && final(lines)@ == old(lines)@,
        older_lines@.len() > 0 && !session_known ==> (outcome matches Err(TerminalError::SessionMissing))
            && final(lines)@ == old(lines)@,
        older_lines@.len() > 0 && session_known ==> outcome is Ok && history_prepended(
            line_views(old(lines)@),
            line_views(final(lines)@),
            line_views(older_lines@),
            MAX_PERSISTED_HISTORY_LINES as nat,
            outcome->Ok_0 as int,
        ),
{
    if older_lines.len() == 0 {
        return Ok(0);
    }
    if !session_known {
        return Err(TerminalError::SessionMissing);
    }
    Ok(prepend_history_lines_limited(lines, older_lines, MAX_PERSISTED_HISTORY_LINES))
}

/// The overlap `k` used when joining: the largest `k <= max` for which the
/// last `k` scrollback lines equal the first `k` visible lines.
pub open spec fn overlap_from(scrollback: Seq<Seq<char>>, visible: Seq<Seq<char>>, k: int) -> int
    decreases k,
{
    if k <= 0 {
        0
    } else if scrollback.skip(scrollback.len() - k) == visible.take(k) {
        k
    } else {
        overlap_from(scrollback, visible, k - 1)
    }
}

/// Scrollback followed by the visible lines, with the longest scrollback
/// suffix that repeats the start of the visible lines dropped.
pub open spec fn merged_history(scrollback: Seq<Seq<char>>, visible: Seq<Seq<char>>) -> Seq<Seq<char>> {
    let max = if scrollback.len() < visible.len() {
        scrollback.len()
    } else {
        visible.len()
    };
    let overlap = overlap_from(scrollback, visible, max as int);
    scrollback.take(scrollback.len() - overlap) + visible
}

proof fn lemma_overlap_bounds(scrollback: Seq<Seq<char>>, visible: Seq<Seq<char>>, k: int)
    ensures
        k >= 0 ==> 0 <= overlap_from(scrollback, visible, k) <= k,
    decreases k,
{
    if k > 0 {
        lemma_overlap_bounds(scrollback, visible, k - 1);
    }
}

fn suffix_matches_prefix(scrollback: &[String], visible: &[String], k: usize) -> (b: bool)
    requires
        k <= scrollback.len(),
        k <= visible.len(),
    ensures
        b == (line_views(scrollback@).skip(scrollback@.len() - k) == line_views(visible@).take(
            k as int,
        )),
{
    let base = scrollback.len() - k;
    let mut i: usize = 0;
    while i < k
        invariant
            i <= k <= visible.len(),
            base + k == scrollback.len(),
            forall|j: int| 0 <= j < i ==> scrollback@[base + j]@ == visible@[j]@,
        decreases k - i,
    {
        if scrollback[base + i] != visible[i] {
            proof {
                assert(line_views(scrollback@).skip(base as int)[i as int] != line_views(
                    visible@,
                ).take(k as int)[i as int]);
            }
            return false;
        }
        i = i + 1;
    }
    proof {
        assert(line_views(scrollback@).skip(base as int) =~= line_views(visible@).take(k as int));
    }
    true
}

/// Joins scrollback with the visible screen lines without repeating the
/// lines they share.
pub fn merge_scrollback_with_visible(scrollback: &[String], visible: &[String]) -> (lines: Vec<String>)
    ensures
        line_views(lines@) == merged_history(line_views(scrollback@), line_views(visible@)),
{
    let max_overlap = if scrollback.len() < visible.len() {
        scrollback.len()
    } else {
        visible.len()
    };
    let ghost sb = line_views(scrollback@);
    let ghost vis = line_views(visible@);
    let mut overlap = max_overlap;
    while overlap > 0 && !suffix_matches_prefix(scrollback, visible, overlap)
        invariant
            overlap <= max_overlap,
            max_overlap <= scrollback.len(),
            max_overlap <= visible.len(),
            sb == line_views(scrollback@),
            vis == line_views(visible@),
            overlap_from(sb, vis, max_overlap as int) == overlap_from(sb, vis, overlap as int),
        decreases overlap,
    {
        overlap = overlap - 1;
    }
    let keep = scrollback.len() - overlap;
    let mut lines: Vec<String> = Vec::new();
    let mut i: usize = 0;
    while i < keep
        invariant
            i <= keep <= scrollback.len(),
            line_views(lines@) == sb.take(i as int),
            sb == line_views(scrollback@),
        decreases keep - i,
    {
        let ghost before = lines@;
        lines.push(scrollback[i].clone());
        proof {
            lemma_line_views_push(before, scrollback@[i as int]);
            assert(sb.take(i + 1) =~= sb.take(i as int).push(scrollback@[i as int]@));
        }
        i = i + 1;
    }
    let mut j: usize = 0;
    while j < visible.len()
        invariant
            j <= visible.len(),
            line_views(lines@) == sb.take(keep as int) + vis.take(j as int),
            vis == line_views(visible@),
        decreases visible.len() - j,
    {
        let ghost before = lines@;
        lines.push(visible[j].clone());
        proof {
            lemma_line_views_push(before, visible@[j as int]);
            assert(vis.take(j + 1) =~= vis.take(j as int).push(visible@[j as int]@));
            assert(line_views(lines@) =~= sb.take(keep as int) + vis.take(j + 1));
        }
        j = j + 1;
    }
    proof {
        assert(vis.take(j as int) =~= vis);
    }
    lines
}

/// Parser state for escape sequences in terminal output.
#[derive(Debug, Clone, Copy, PartialEq, Eq, Structural)]
pub enum EscapeParseState {
    Normal,
    Esc,
    Csi,
    Osc,
    OscEsc,
}

/// Plain-text history of a terminal's output.
#[derive(Debug, Clone)]
pub struct ScrollbackBuffer {
    pub lines: Vec<String>,
    pub pending: Vec<u8>,
    pub escape_state: EscapeParseState,
}

/// Abstract state of a [`ScrollbackBuffer`] while output is read.
pub struct ScrollbackSpec {
    pub lines: Seq<Seq<char>>,
    pub pending: Seq<u8>,
    pub escape_state: EscapeParseState,
    pub emitted: Seq<Seq<char>>,
}

/// `lines` with `line` added, keeping the newest `MAX_PERSISTED_HISTORY_LINES`.
pub open spec fn pushed_history(lines: Seq<Seq<char>>, line: Seq<char>) -> Seq<Seq<char>> {
    keep_last(lines.push(line), MAX_PERSISTED_HISTORY_LINES as nat)
}

/// One output byte: escape sequences (CSI up to a final byte, OSC up to BEL
/// or ESC and one more byte, other ESC pairs) are skipped; `\n` completes a
/// line; `\r` is ignored; backspace drops the last pending byte; printable
/// bytes and tabs are kept.
pub open spec fn scroll_step(st: ScrollbackSpec, b: u8) -> ScrollbackSpec {
    match st.escape_state {
        EscapeParseState::Normal => if b == 0x1b {
            ScrollbackSpec { escape_state: EscapeParseState::Esc, ..st }
        } else if b == 0x0a {
            let line = finished_line(st.pending);
            ScrollbackSpec {
                lines: pushed_history(st.lines, line),
                pending: Seq::empty(),
                escape_state: st.escape_state,
                emitted: st.emitted.push(line),
            }
        } else if b == 0x0d {
            st
        } else if b == 0x08 {
            ScrollbackSpec {
                pending: if st.pending.len() > 0 {
                    st.pending.drop_last()
                } else {
                    st.pending
                },
                ..st
            }
        } else if b >= 0x20 || b == 0x09 {
            ScrollbackSpec { pending: st.pending.push(b), ..st }
        } else {
            st
        },
        EscapeParseState::Esc => ScrollbackSpec {
            escape_state: if b == 0x5b {
                EscapeParseState::Csi
            } else if b == 0x5d {
                EscapeParseState::Osc
            } else {
                EscapeParseState::Normal
            },
            ..st
        },
        EscapeParseState::Csi => if 0x40 <= b <= 0x7e {
            ScrollbackSpec { escape_state: EscapeParseState::Normal, ..st }
        } else {
            st
        },
        EscapeParseState::Osc => if b == 0x07 {
            ScrollbackSpec { escape_state: EscapeParseState::Normal, ..st }
        } else if b == 0x1b {
            ScrollbackSpec { escape_state: EscapeParseState::OscEsc, ..st }
        } else {
            st
        },
        EscapeParseState::OscEsc => ScrollbackSpec { escape_state: EscapeParseState::Normal, ..st },
    }
}

/// State after reading `bytes` from `st`.
pub open spec fn scroll_fold(st: ScrollbackSpec, bytes: Seq<u8>) -> ScrollbackSpec
    decreases bytes.len(),
{
    if bytes.len() == 0 {
        st
    } else {
        scroll_step(scroll_fold(st, bytes.drop_last()), bytes.last())
    }
}

/// Output read in two pieces leaves the state it leaves read at once: the
/// line splitter does not depend on how output is chunked.
pub proof fn lemma_scroll_fold_chunks(st: ScrollbackSpec, first: Seq<u8>, second: Seq<u8>)
    ensures
        scroll_fold(scroll_fold(st, first), second) == scroll_fold(st, first + second),
    decreases second.len(),
{
    if second.len() == 0 {
        assert(first + second =~= first);
    } else {
        lemma_scroll_fold_chunks(st, first, second.drop_last());
        assert((first + second).drop_last() =~= first + second.drop_last());
        assert((first + second).last() == second.last());
    }
}

impl ScrollbackBuffer {
    /// Abstract state with nothing emitted yet.
    pub open spec fn spec_state(&self) -> ScrollbackSpec {
        ScrollbackSpec {
            lines: line_views(self.lines@),
            pending: self.pending@,
            escape_state: self.escape_state,
            emitted: Seq::empty(),
        }
    }

    /// A buffer holding restored history.
    pub fn from_restored(restored: Vec<String>) -> (buffer: Self)
        ensures
            line_views(buffer.lines@) == normalized_history(
                line_views(restored@),
                MAX_PERSISTED_HISTORY_LINES as nat,
            ),
            buffer.pending@.len() == 0,
            buffer.escape_state == EscapeParseState::Normal,
    {
        ScrollbackBuffer {
            lines: normalized_history_lines(restored.as_slice()),
            pending: Vec::new(),
            escape_state: EscapeParseState::Normal,
        }
    }

    /// Adds one completed line, dropping the oldest lines beyond the cap.
    pub fn push_line(&mut self, line: String)
        ensures
            line_views(final(self).lines@) == pushed_history(line_views(old(self).lines@), line@),
            final(self).pending == old(self).pending,
            final(self).escape_state == old(self).escape_state,
    {
        self.lines.push(line);
        proof {
            assert(line_views(self.lines@) =~= line_views(old(self).lines@).push(line@));
        }
        let overflow = self.lines.len().saturating_sub(MAX_PERSISTED_HISTORY_LINES);
        if overflow > 0 {
            let kept = copy_strings_from(&self.lines, overflow);
            self.lines = kept;
        }
    }

    /// Completes the pending line, records it, and returns it.
    pub fn finish_line(&mut self) -> (line: String)
        ensures
            line@ == finished_line(old(self).pending@),
            line_views(final(self).lines@) == pushed_history(line_views(old(self).lines@), line@),
            final(self).pending@.len() == 0,
            final(self).escape_state == old(self).escape_state,
    {
        let decoded = lossy_string(self.pending.as_slice());
        let line = trim_end_char(decoded.as_str(), '\r');
        self.pending.clear();
        self.push_line(line.clone());
        line
    }

    /// Reads terminal output, returning the lines it completes.
    pub fn process_bytes(&mut self, bytes: &[u8]) -> (emitted: Vec<String>)
        ensures
            ({
                let r = scroll_fold(old(self).spec_state(), bytes@);
                &&& line_views(final(self).lines@) == r.lines
                &&& final(self).pending@ == r.pending
                &&& final(self).escape_state == r.escape_state
                &&& line_views(emitted@) == r.emitted
            }),
    {
        let ghost st0 = self.spec_state();
        let mut emitted: Vec<String> = Vec::new();
        let mut i: usize = 0;
        while i < bytes.len()
            invariant
                i <= bytes.len(),
                ({
                    let r = scroll_fold(st0, bytes@.take(i as int));
                    &&& line_views(self.lines@) == r.lines
                    &&& self.pending@ == r.pending
                    &&& self.escape_state == r.escape_state
                    &&& line_views(emitted@) == r.emitted
                }),
            decreases bytes.len() - i,
        {
            proof {
                assert(bytes@.take(i + 1).drop_last() =~= bytes@.take(i as int));
            }
            let byte = bytes[i];
            match self.escape_state {
                EscapeParseState::Normal => {
                    if byte == 0x1b {
                        self.escape_state = EscapeParseState::Esc;
                    } else if byte == 0x0a {
                        let line = self.finish_line();
                        emitted.push(line);
                        proof {
                            assert(line_views(emitted@) =~= scroll_fold(st0, bytes@.take(i + 1)).emitted);
                        }
                    } else if byte == 0x0d {
                    } else if byte == 0x08 {
                        if self.pending.len() > 0 {
                            self.pending.pop();
                        }
                        proof {
                            assert(self.pending@ =~= scroll_fold(st0, bytes@.take(i + 1)).pending);
                        }
                    } else if byte >= 0x20 || byte == 0x09 {
                        self.pending.push(byte);
                    }
                },
                EscapeParseState::Esc => {
                    if byte == 0x5b {
                        self.escape_state = EscapeParseState::Csi;
                    } else if byte == 0x5d {
                        self.escape_state = EscapeParseState::Osc;
                    } else {
                        self.escape_state = EscapeParseState::Normal;
                    }
                },
                EscapeParseState::Csi => {
                    if 0x40 <= byte && byte <= 0x7e {
                        self.escape_state = EscapeParseState::Normal;
                    }
                },
                EscapeParseState::Osc => {
                    if byte == 0x07 {
                        self.escape_state = EscapeParseState::Normal;
                    } else if byte == 0x1b {
                        self.escape_state = EscapeParseState::OscEsc;
                    }
                },
                EscapeParseState::OscEsc => {
                    self.escape_state = EscapeParseState::Normal;
                },
            }
            i = i + 1;
        }
        proof {
            assert(bytes@.take(i as int) =~= bytes@);
        }
        emitted
    }
}

/// The character a snapshot shows for `cell`: a space for hidden cells and
/// wide-character spacers, else the cell's character.
pub open spec fn snapshot_char(cell: TerminalCellView) -> char {
    if cell.flags.spec_contains(TerminalCellFlags(FLAG_HIDDEN)) || cell.flags.spec_contains(
        TerminalCellFlags(FLAG_WIDE_CHAR_SPACER),
    ) || cell.flags.spec_contains(TerminalCellFlags(FLAG_LEADING_WIDE_CHAR_SPACER)) {
        ' '
    } else {
        cell.codepoint
    }
}

/// The character a snapshot shows for `cell`.
pub fn project_native_snapshot_char(cell: &TerminalCell) -> (c: char)
    ensures
        c == snapshot_char(cell@),
{
    if cell.flags.contains(TerminalCellFlags(FLAG_HIDDEN)) || cell.flags.contains(
        TerminalCellFlags(FLAG_WIDE_CHAR_SPACER),
    ) || cell.flags.contains(TerminalCellFlags(FLAG_LEADING_WIDE_CHAR_SPACER)) {
        ' '
    } else {
        cell.codepoint
    }
}

/// Snapshot characters of `cells`.
pub open spec fn row_chars(cells: Seq<TerminalCellView>) -> Seq<char> {
    cells.map_values(|c: TerminalCellView| snapshot_char(c))
}

/// Text of grid row `row`: its snapshot characters without trailing spaces,
/// or nothing when the row lies outside `cells`.
pub open spec fn visible_row_text(cells: Seq<TerminalCellView>, width: int, row: int) -> Seq<char> {
    let start = row * width;
    let end = start + width;
    if end <= cells.len() {
        trim_end_char_seq(row_chars(cells.subrange(start, end)), ' ')
    } else {
        Seq::empty()
    }
}

/// Visible screen lines of a frame: one per row, empty when the frame
/// publishes no full grid.
pub open spec fn frame_lines(frame: TerminalFrame) -> Seq<Seq<char>> {
    Seq::new(
        frame.rows as nat,
        |row: int| match frame.spec_full_cells() {
            Some(cells) => visible_row_text(cells_view(cells), frame.cols as int, row),
            None => Seq::empty(),
        },
    )
}

/// Arithmetic on grid positions stays within `u32` (and so within `usize`).
pub proof fn lemma_grid_index_fits(row: u16, width: u16, col: u16, extra: u16)
    ensures
        (row as int) * (width as int) + (col as int) + (extra as int) <= u32::MAX,
        (row as int) * (width as int) <= u32::MAX,
{
    assert((row as int) * (width as int) <= 65535 * 65535) by (nonlinear_arith)
        requires
            row <= 65535,
            width <= 65535,
    ;
}

/// Visible screen lines of `frame`, trailing blanks trimmed.
pub fn frame_visible_lines(frame: &TerminalFrame) -> (lines: Vec<String>)
    ensures
        line_views(lines@) == frame_lines(*frame),
{
    let mut lines: Vec<String> = Vec::new();
    let width = frame.cols as usize;
    let cells = match frame.full_cells() {
        Some(cells) => cells,
        None => {
            let mut r: u16 = 0;
            while r < frame.rows
                invariant
                    r <= frame.rows,
                    frame.spec_full_cells() is None,
                    line_views(lines@) == frame_lines(*frame).take(r as int),
                decreases frame.rows - r,
            {
                let ghost before = lines@;
                let empty = String::new();
                lines.push(empty);
                proof {
                    lemma_line_views_push(before, empty);
                    assert(frame_lines(*frame).take(r + 1) =~= frame_lines(*frame).take(r as int).push(empty@));
                }
                r = r + 1;
            }
            proof {
                assert(frame_lines(*frame).take(r as int) =~= frame_lines(*frame));
            }
            return lines;
        },
    };
    let ghost cv = cells_view(cells@);
    let mut row: u16 = 0;
    while row < frame.rows
        invariant
            row <= frame.rows,
            width == frame.cols,
            frame.spec_full_cells() == Some(cells@),
            cv == cells_view(cells@),
            line_views(lines@) == frame_lines(*frame).take(row as int),
        decreases frame.rows - row,
    {
        proof {
            lemma_grid_index_fits(row, frame.cols, frame.cols, 0);
        }
        let start = (row as usize) * width;
        let end = start + width;
        let ghost before = lines@;
        let ghost expected = frame_lines(*frame)[row as int];
        assert(expected == visible_row_text(cv, width as int, row as int));
        let line = if end > cells.len() {
            String::new()
        } else {
            let mut chars: Vec<char> = Vec::new();
            let mut k = start;
            while k < end
                invariant
                    start <= k <= end <= cells.len(),
                    cv == cells_view(cells@),
                    chars@ == row_chars(cv.subrange(start as int, k as int)),
                decreases end - k,
            {
                chars.push(project_native_snapshot_char(&cells[k]));
                proof {
                    assert(chars@ =~= row_chars(cv.subrange(start as int, k + 1)));
                }
                k = k + 1;
            }
            let mut trimmed_len = chars.len();
            while trimmed_len > 0 && chars[trimmed_len - 1] == ' '
                invariant
                    trimmed_len <= chars.len(),
                    crate::text::char_run_start(chars@, chars@.len() as int, ' ')
                        == crate::text::char_run_start(chars@, trimmed_len as int, ' '),
                decreases trimmed_len,
            {
                trimmed_len = trimmed_len - 1;
            }
            proof {
                assert(chars@ == row_chars(cv.subrange(start as int, end as int)));
                assert(crate::text::char_run_start(chars@, trimmed_len as int, ' ') == trimmed_len);
            }
            crate::text::string_from_range(&chars, 0, trimmed_len)
        };
        assert(line@ == expected);
        lines.push(line);
        proof {
            lemma_line_views_push(before, line);
            assert(frame_lines(*frame).take(row + 1) =~= frame_lines(*frame).take(row as int).push(expected));
        }
        row = row + 1;
    }
    proof {
        assert(frame_lines(*frame).take(row as int) =~= frame_lines(*frame));
    }
    lines
}

/// Snapshot of a native frame: its visible lines (after restored history,
/// when there is some), the cursor mapped into those lines, the cursor column
/// kept inside the grid, and the hidden cursor shape reported as hidden.
pub open spec fn native_snapshot(
    frame: TerminalFrame,
    restored: Seq<Seq<char>>,
    lines: Seq<Seq<char>>,
    snapshot: TerminalSnapshot,
) -> bool {
    let visible = frame_lines(frame);
    let visible_start = if lines.len() > visible.len() {
        lines.len() - visible.len()
    } else {
        0
    };
    let row = visible_start + frame.cursor.row;
    &&& lines == if restored.len() == 0 {
        visible
    } else {
        merged_history(normalized_history(restored, MAX_PERSISTED_HISTORY_LINES as nat), visible)
    }
    &&& line_views(snapshot.lines@) == lines
    &&& snapshot.rows == frame.rows
    &&& snapshot.cols == frame.cols
    &&& snapshot.cursor_row == if row <= u16::MAX {
        row as u16
    } else {
        u16::MAX
    }
    &&& snapshot.cursor_col == if frame.cols == 0 {
        0
    } else if frame.cursor.col < frame.cols - 1 {
        frame.cursor.col
    } else {
        (frame.cols - 1) as u16
    }
    &&& snapshot.hide_cursor == (frame.cursor.shape == TerminalCursorShape::Hidden)
    &&& snapshot.bracketed_paste == frame.bracketed_paste
}

/// Text snapshot of a native frame, joined with restored history.
pub fn compatibility_snapshot_from_native_frame(frame: &TerminalFrame, restored_lines: &[String]) -> (snapshot: TerminalSnapshot)
    ensures
        native_snapshot(*frame, line_views(restored_lines@), line_views(snapshot.lines@), snapshot),
{
    let visible_lines = frame_visible_lines(frame);
    let visible_len = visible_lines.len();
    let lines = if restored_lines.len() == 0 {
        visible_lines
    } else {
        let restored = normalized_history_lines(restored_lines);
        merge_scrollback_with_visible(restored.as_slice(), visible_lines.as_slice())
    };
    proof {
        assert(restored_lines@.len() == 0 <==> line_views(restored_lines@).len() == 0);
    }
    let visible_start = lines.len().saturating_sub(visible_len);
    let cursor_row_wide: usize = match visible_start.checked_add(frame.cursor.row as usize) {
        Some(v) => v,
        None => usize::MAX,
    };
    let cursor_row: u16 = if cursor_row_wide <= 65535 {
        cursor_row_wide as u16
    } else {
        65535
    };
    let last_col = frame.cols.saturating_sub(1);
    let cursor_col = if frame.cursor.col < last_col {
        frame.cursor.col
    } else {
        last_col
    };
    let hide_cursor = match frame.cursor.shape {
        TerminalCursorShape::Hidden => true,
        _ => false,
    };
    TerminalSnapshot {
        lines,
        rows: frame.rows,
        cols: frame.cols,
        cursor_row,
        cursor_col,
        hide_cursor,
        bracketed_paste: frame.bracketed_paste,
    }
}

/// Full grid of a frame after applying its changes to the previous grid:
/// each span overwrites its cells when it fits in the grid.
pub open spec fn apply_span_updates(
    cells: Seq<TerminalCellView>,
    batch: TerminalCellSpanBatch,
    width: int,
    n: int,
) -> Seq<TerminalCellView>
    decreases n,
{
    if n <= 0 {
        cells
    } else {
        let before = apply_span_updates(cells, batch, width, n - 1);
        let span = batch.spec_spans()[n - 1];
        let start = span.row * width + span.left;
        let end = start + span.len;
        if end <= before.len() {
            before.subrange(0, start) + cells_view(
                batch.spec_cells().subrange(span.cells_start as int, span.cells_start + span.len),
            ) + before.subrange(end, before.len() as int)
        } else {
            before
        }
    }
}

/// Overwrites, span by span, the cells each span of `changes` covers in a
/// grid `width` cells wide; a span reaching past the grid is skipped.
pub fn overwrite_spans(cells: &mut Vec<TerminalCell>, changes: &TerminalCellSpanBatch, width: u16)
    requires
        changes.spans_in_bounds(),
    ensures
        cells_view(final(cells)@) == apply_span_updates(
            cells_view(old(cells)@),
            *changes,
            width as int,
            changes.spec_spans().len() as int,
        ),
{
    let ghost base = cells_view(cells@);
    let width = width as usize;
    let spans = changes.spans();
    let mut i: usize = 0;
    while i < spans.len()
        invariant
            i <= spans.len(),
            width <= u16::MAX,
            spans@ == changes.spec_spans(),
            changes.spans_in_bounds(),
            cells_view(cells@) == apply_span_updates(base, *changes, width as int, i as int),
        decreases spans.len() - i,
    {
        let span = spans[i];
        proof {
            lemma_grid_index_fits(span.row, width as u16, span.left, span.len);
            assert(changes.spec_spans()[i as int] == span);
        }
        let start = (span.row as usize) * width + (span.left as usize);
        let end = start + (span.len as usize);
        let ghost before = cells_view(cells@);
        if end <= cells.len() {
            let source = changes.cells_for_span(&span);
            let mut k: usize = 0;
            while k < source.len()
                invariant
                    k <= source.len(),
                    start + source.len() == end,
                    end <= cells@.len(),
                    cells@.len() == before.len(),
                    forall|j: int| 0 <= j < start ==> (#[trigger] cells@[j])@ == before[j],
                    forall|j: int| end <= j < cells@.len() ==> (#[trigger] cells@[j])@ == before[j],
                    forall|j: int| start <= j < start + k ==> (#[trigger] cells@[j])@ == source@[j - start]@,
                    forall|j: int| start + k <= j < end ==> (#[trigger] cells@[j])@ == before[j],
                decreases source.len() - k,
            {
                cells[start + k] = source[k].duplicate();
                k = k + 1;
            }
            proof {
                assert(cells_view(cells@) =~= apply_span_updates(base, *changes, width as int, i + 1));
            }
        }
        i = i + 1;
    }
}

/// The grid a partial frame starts from: the previous frame's full grid, or
/// blank cells when it has none.
pub open spec fn base_grid(previous: TerminalFrame, rows: u16, cols: u16) -> Seq<TerminalCellView> {
    match previous.spec_full_cells() {
        Some(cells) => cells_view(cells),
        None => Seq::new((rows * cols) as nat, |i: int| crate::terminal_model::blank_cell_view()),
    }
}

/// Turns a frame that publishes changes into one that publishes its full
/// grid; a frame that already publishes its full grid is returned as is.
pub fn materialize_native_frame(previous: &TerminalFrame, next: Arc<TerminalFrame>) -> (full: Arc<TerminalFrame>)
    requires
        match next.publication {
            TerminalCellPublication::Partial(batch) => batch.spans_in_bounds(),
            _ => true,
        },
    ensures
        match next.publication {
            TerminalCellPublication::Full(_) => full == next,
            TerminalCellPublication::Partial(batch) => {
                &&& full.rows == next.rows
                &&& full.cols == next.cols
                &&& full.history_size == next.history_size
                &&& full.cursor == next.cursor
                &&& full.bracketed_paste == next.bracketed_paste
                &&& full.display_offset == next.display_offset
                &&& full.damage.spec_spans() == next.damage.spec_spans()
                &&& match full.spec_full_cells() {
                    Some(cells) => cells_view(cells) == apply_span_updates(
                        base_grid(*previous, next.rows, next.cols),
                        batch,
                        next.cols as int,
                        batch.spec_spans().len() as int,
                    ),
                    None => false,
                }
            },
        },
{
    let changes = match &next.publication {
        TerminalCellPublication::Full(_) => return next,
        TerminalCellPublication::Partial(changes) => changes,
    };
    let mut cells = match previous.full_cells() {
        Some(prev) => copy_cells(prev),
        None => {
            proof {
                lemma_grid_index_fits(next.rows, next.cols, 0, 0);
            }
            let b = blank_cells((next.rows as usize) * (next.cols as usize));
            proof {
                assert(cells_view(b@) =~= base_grid(*previous, next.rows, next.cols));
            }
            b
        },
    };
    proof {
        assert(cells_view(cells@) == apply_span_updates(
            base_grid(*previous, next.rows, next.cols),
            *changes,
            next.cols as int,
            0,
        ));
    }
    overwrite_spans(&mut cells, changes, next.cols);
    Arc::new(
        TerminalFrame {
            rows: next.rows,
            cols: next.cols,
            history_size: next.history_size,
            cursor: next.cursor,
            bracketed_paste: next.bracketed_paste,
            display_offset: next.display_offset,
            damage: next.damage.duplicate(),
            publication: TerminalCellPublication::Full(Arc::new(cells)),
        },
    )
}

/// Rows a terminal starts with when nothing is restored.
pub const DEFAULT_ROWS: u16 = 42;

/// Columns a terminal starts with when nothing is restored.
pub const DEFAULT_COLS: u16 = 140;

/// Fewest rows a restored terminal starts with.
pub const MIN_ROWS: u16 = 2;

/// Fewest columns a restored terminal starts with.
pub const MIN_COLS: u16 = 8;

/// Directory and size a session starts with: the restored state's
/// directory when it is not blank, else `cwd`; the restored size raised to
/// the minimum, else the default size.
pub fn startup_geometry(restored: Option<&PersistedTerminalState>, cwd: &str) -> (start: (String, u16, u16))
    ensures
        start.0@ == match restored {
            Some(r) => if crate::text::trim_seq(r.cwd@).len() == 0 {
                cwd@
            } else {
                r.cwd@
            },
            None => cwd@,
        },
        start.1 == match restored {
            Some(r) => if r.rows < MIN_ROWS {
                MIN_ROWS
            } else {
                r.rows
            },
            None => DEFAULT_ROWS,
        },
        start.2 == match restored {
            Some(r) => if r.cols < MIN_COLS {
                MIN_COLS
            } else {
                r.cols
            },
            None => DEFAULT_COLS,
        },
{
    match restored {
        Some(r) => {
            let dir = if crate::text::is_blank(r.cwd.as_str()) {
                cwd.to_string()
            } else {
                r.cwd.clone()
            };
            let rows = if r.rows < MIN_ROWS { MIN_ROWS } else { r.rows };
            let cols = if r.cols < MIN_COLS { MIN_COLS } else { r.cols };
            (dir, rows, cols)
        },
        None => (cwd.to_string(), DEFAULT_ROWS, DEFAULT_COLS),
    }
}

/// Cursor row in the merged lines: the row below the start of the visible
/// screen, kept on the last line, and held at `u16::MAX`.
pub open spec fn merged_cursor_row(total: int, visible: int, cursor_row: u16) -> u16 {
    let start = if total > visible { total - visible } else { 0 };
    let last = if total > 0 { total - 1 } else { 0 };
    let row = if start + cursor_row < last { start + cursor_row } else { last };
    if row > u16::MAX { u16::MAX } else { row as u16 }
}

/// Snapshot of a parsed screen: the scrollback merged with the visible
/// rows, the cursor moved into the merged lines, and the screen's size and
/// modes.
pub fn terminal_snapshot_from_screen(
    scrollback_lines: &[String],
    visible_lines: &[String],
    rows: u16,
    cols: u16,
    cursor_row: u16,
    cursor_col: u16,
    hide_cursor: bool,
    bracketed_paste: bool,
) -> (snapshot: TerminalSnapshot)
    ensures
        line_views(snapshot.lines@) == merged_history(line_views(scrollback_lines@), line_views(visible_lines@)),
        snapshot.cursor_row == merged_cursor_row(snapshot.lines@.len() as int, visible_lines@.len() as int, cursor_row),
        snapshot.rows == rows,
        snapshot.cols == cols,
        snapshot.cursor_col == cursor_col,
        snapshot.hide_cursor == hide_cursor,
        snapshot.bracketed_paste == bracketed_paste,
{
    let lines = merge_scrollback_with_visible(scrollback_lines, visible_lines);
    let total = lines.len();
    let visible = visible_lines.len();
    let start = if total > visible { total - visible } else { 0 };
    let last = if total > 0 { total - 1 } else { 0 };
    let row = if start < last && (cursor_row as usize) < last - start { start + cursor_row as usize } else { last };
    let merged_row: u16 = if row > 65535 { 65535 } else { row as u16 };
    TerminalSnapshot {
        lines,
        rows,
        cols,
        cursor_row: merged_row,
        cursor_col,
        hide_cursor,
        bracketed_paste,
    }
}

/// The vt100 parser of a legacy terminal, held opaque: its type parameter
/// is bound by a trait of the outside crate.
#[verifier::external_body]
struct VtParser {
    parser: vt100::Parser,
}

/// `Parser::new` of vt100: a parser with a screen of `rows` by `cols`
/// keeping `scrollback` lines.
#[verifier::external_body]
fn new_vt_parser(rows: u16, cols: u16, scrollback: usize) -> VtParser
    requires
        rows >= 1,
        cols >= 1,
{
    let rows = std::num::NonZeroU16::new(rows).unwrap();
    let cols = std::num::NonZeroU16::new(cols).unwrap();
    VtParser { parser: vt100::Parser::new(rows, cols, scrollback) }
}

/// `Parser::process` of vt100: feeds output bytes to the parser.
#[verifier::external_body]
fn vt_parser_process(parser: &mut VtParser, bytes: &[u8]) {
    parser.parser.process(bytes);
}

/// `Parser::set_size` of vt100: resizes the screen.
#[verifier::external_body]
fn vt_parser_set_size(parser: &mut VtParser, rows: u16, cols: u16)
    requires
        rows >= 1,
        cols >= 1,
{
    let rows = std::num::NonZeroU16::new(rows).unwrap();
    let cols = std::num::NonZeroU16::new(cols).unwrap();
    parser.parser.set_size(rows, cols);
}

/// One thing a legacy terminal's parser was told, in order.
pub enum VtEvent {
    /// Made with a screen of `rows` by `cols` keeping `scrollback` lines.
    Created { rows: u16, cols: u16, scrollback: usize },
    /// Fed output bytes.
    Processed(Seq<u8>),
    /// Resized to `rows` by `cols`.
    Resized { rows: u16, cols: u16 },
}

/// `Screen::size` of vt100 after the calls of `history`.
pub uninterp spec fn vt_size(history: Seq<VtEvent>) -> (u16, u16);

/// `Screen::cursor_position` of vt100 after the calls of `history`.
pub uninterp spec fn vt_cursor(history: Seq<VtEvent>) -> (u16, u16);

/// `Screen::rows` of vt100 from column 0, `width` wide, after the calls of
/// `history`: the text of each row on screen, from the top.
pub uninterp spec fn vt_rows(history: Seq<VtEvent>, width: u16) -> Seq<Seq<char>>;

/// `Screen::hide_cursor` of vt100 after the calls of `history`.
pub uninterp spec fn vt_hides_cursor(history: Seq<VtEvent>) -> bool;

/// `Screen::bracketed_paste` of vt100 after the calls of `history`.
pub uninterp spec fn vt_bracketed_paste(history: Seq<VtEvent>) -> bool;

/// A legacy terminal's vt100 parser, with the calls made on it since it was
/// made. Only this module's methods touch the parser, and each call is
/// recorded as it is made, so the record is the parser's whole input.
pub struct VtTerminal {
    parser: VtParser,
    history: Ghost<Seq<VtEvent>>,
}

impl View for VtTerminal {
    type V = Seq<VtEvent>;

    closed spec fn view(&self) -> Seq<VtEvent> {
        self.history@
    }
}

impl VtTerminal {
    /// A parser with a screen of `rows` by `cols` (each at least one)
    /// keeping `scrollback` lines.
    pub fn new(rows: u16, cols: u16, scrollback: usize) -> (terminal: Self)
        ensures
            terminal@ == seq![
                VtEvent::Created {
                    rows: if rows < 1 { 1 } else { rows },
                    cols: if cols < 1 { 1 } else { cols },
                    scrollback,
                },
            ],
    {
        let rows = if rows < 1 { 1 } else { rows };
        let cols = if cols < 1 { 1 } else { cols };
        VtTerminal {
            parser: new_vt_parser(rows, cols, scrollback),
            history: Ghost(Seq::empty().push(VtEvent::Created { rows, cols, scrollback })),
        }
    }

    /// Feeds output bytes to the parser.
    pub fn process(&mut self, bytes: &[u8])
        ensures
            final(self)@ == old(self)@.push(VtEvent::Processed(bytes@)),
    {
        vt_parser_process(&mut self.parser, bytes);
        self.history = Ghost(self.history@.push(VtEvent::Processed(bytes@)));
    }

    /// Resizes the screen to `rows` by `cols` (each at least one).
    pub fn set_size(&mut self, rows: u16, cols: u16)
        ensures
            final(self)@ == old(self)@.push(
                VtEvent::Resized { rows: if rows < 1 { 1 } else { rows }, cols: if cols < 1 { 1 } else { cols } },
            ),
    {
        let rows = if rows < 1 { 1 } else { rows };
        let cols = if cols < 1 { 1 } else { cols };
        vt_parser_set_size(&mut self.parser, rows, cols);
        self.history = Ghost(self.history@.push(VtEvent::Resized { rows, cols }));
    }
}

/// `Screen::size` of vt100: rows and columns, each at least one.
#[verifier::external_body]
fn screen_size(terminal: &VtTerminal) -> (size: (u16, u16))
    ensures
        size == vt_size(terminal@),
        size.0 >= 1,
        size.1 >= 1,
{
    let (rows, cols) = terminal.parser.parser.screen().size();
    (rows.get(), cols.get())
}

/// `Screen::cursor_position` of vt100: the cursor's row and column on screen.
#[verifier::external_body]
fn screen_cursor_position(terminal: &VtTerminal) -> (position: (u16, u16))
    ensures
        position == vt_cursor(terminal@),
{
    terminal.parser.parser.screen().cursor_position()
}

/// `Screen::rows` of vt100 from column 0, `width` wide: the text of each
/// row on screen, from the top.
#[verifier::external_body]
fn screen_rows(terminal: &VtTerminal, width: u16) -> (rows: Vec<String>)
    ensures
        line_views(rows@) == vt_rows(terminal@, width),
{
    terminal.parser.parser.screen().rows(0, width).collect()
}

/// `Screen::hide_cursor` of vt100: whether the cursor is hidden.
#[verifier::external_body]
fn screen_hides_cursor(terminal: &VtTerminal) -> (hidden: bool)
    ensures
        hidden == vt_hides_cursor(terminal@),
{
    terminal.parser.parser.screen().hide_cursor()
}

/// `Screen::bracketed_paste` of vt100: whether bracketed paste mode is on.
#[verifier::external_body]
fn screen_bracketed_paste(terminal: &VtTerminal) -> (on: bool)
    ensures
        on == vt_bracketed_paste(terminal@),
{
    terminal.parser.parser.screen().bracketed_paste()
}

/// Snapshot of a legacy terminal's screen: the screen's rows merged after
/// the scrollback (see [`terminal_snapshot_from_screen`]), with the
/// screen's cursor moved into the merged lines, and its size and modes.
pub fn terminal_snapshot_from_parser(terminal: &VtTerminal, scrollback_lines: &[String]) -> (snapshot:
    TerminalSnapshot)
    ensures
        ({
            let (rows, cols) = vt_size(terminal@);
            let visible = vt_rows(terminal@, cols);
            let (cursor_row, cursor_col) = vt_cursor(terminal@);
            &&& snapshot.rows == rows
            &&& snapshot.cols == cols
            &&& rows >= 1
            &&& cols >= 1
            &&& line_views(snapshot.lines@) == merged_history(line_views(scrollback_lines@), visible)
            &&& snapshot.cursor_row == merged_cursor_row(snapshot.lines@.len() as int, visible.len() as int, cursor_row)
            &&& snapshot.cursor_col == cursor_col
            &&& snapshot.hide_cursor == vt_hides_cursor(terminal@)
            &&& snapshot.bracketed_paste == vt_bracketed_paste(terminal@)
        }),
{
    let (rows, cols) = screen_size(terminal);
    let (cursor_row, cursor_col) = screen_cursor_position(terminal);
    let visible = screen_rows(terminal, cols);
    let hide_cursor = screen_hides_cursor(terminal);
    let bracketed_paste = screen_bracketed_paste(terminal);
    proof {
        assert(line_views(visible@).len() == visible@.len());
    }
    terminal_snapshot_from_screen(
        scrollback_lines,
        visible.as_slice(),
        rows,
        cols,
        cursor_row,
        cursor_col,
        hide_cursor,
        bracketed_paste,
    )
}

} // verus!
