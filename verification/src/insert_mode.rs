//! Insert-command mode of a terminal: a small query box opened with the
//! Insert key that picks an insert command for the focused session.
use vstd::prelude::*;
use vstd::string::StringExecFns;
use crate::commands::CommandId;
use crate::state::SessionId;
use crate::text::{chars_of, string_from_range};

verus! {

/// Most commands listed while the mode is open.
pub const INSERT_COMMAND_MATCH_LIMIT: usize = 8;

/// A key as the terminal sees it.
#[derive(Debug, Clone, PartialEq, Eq)]
pub enum TerminalKey {
    Escape,
    Insert,
    Enter,
    ArrowUp,
    ArrowDown,
    Backspace,
    Delete,
    Character(String),
    Tab,
    ArrowLeft,
    ArrowRight,
    Home,
    End,
    PageUp,
    PageDown,
    Other,
}

/// Open insert mode: its session, its query and the highlighted match.
#[derive(Debug, Clone, PartialEq, Eq)]
pub struct InsertModeState {
    pub session_id: SessionId,
    pub query: String,
    pub highlighted_index: usize,
}

/// What a key does to an open insert mode.
#[derive(Debug)]
pub enum InsertModeOutcome {
    Keep(InsertModeState),
    Close,
    Submit(CommandId),
    Ignore,
}

/// Where a key goes.
#[derive(Debug)]
pub enum TerminalKeyRoute {
    OpenMode,
    HandleMode(InsertModeOutcome),
    Passthrough,
}

/// Modifier keys held with a key.
#[derive(Clone, Copy, Debug, PartialEq, Eq, Structural)]
pub struct KeyModifiers {
    pub ctrl: bool,
    pub alt: bool,
    pub shift: bool,
    pub meta: bool,
}

/// The highlighted command and how many commands match the query.
#[derive(Clone, Copy, Debug, PartialEq, Eq, Structural)]
pub struct InsertModeSelection {
    pub selected_command_id: Option<CommandId>,
    pub match_count: usize,
}

/// True for a bare Insert key.
pub open spec fn is_trigger(key: TerminalKey, ctrl: bool, alt: bool, shift: bool, meta: bool) -> bool {
    key is Insert && !ctrl && !alt && !shift && !meta
}

/// True for a bare Insert key, the key that opens insert mode.
pub fn is_insert_trigger_key(key: &TerminalKey, ctrl: bool, alt: bool, shift: bool, meta: bool) -> (b: bool)
    ensures
        b == is_trigger(*key, ctrl, alt, shift, meta),
{
    let insert = match key {
        TerminalKey::Insert => true,
        _ => false,
    };
    insert && !ctrl && !alt && !shift && !meta
}

/// The highlight kept within `count` matches.
pub open spec fn clamped_highlight(index: usize, count: usize) -> int {
    if index < count - 1 { index as int } else { count - 1 }
}

/// Command id of the highlighted match, the highlight kept within the
/// matches; `None` when nothing matches.
pub fn selected_command_id(matches: &[CommandId], highlighted_index: usize) -> (id: Option<CommandId>)
    ensures
        id == if matches@.len() == 0 {
            None
        } else {
            Some(matches@[clamped_highlight(highlighted_index, matches@.len() as usize)])
        },
{
    if matches.len() == 0 {
        return None;
    }
    let last = matches.len() - 1;
    let index = if highlighted_index < last { highlighted_index } else { last };
    Some(matches[index])
}

/// Highlight after ArrowUp among `count` matches: one up, from the top to
/// the bottom.
pub open spec fn highlight_up(index: usize, count: usize) -> int {
    let current = clamped_highlight(index, count);
    if current == 0 { count - 1 } else { current - 1 }
}

/// Highlight after ArrowDown among `count` matches: one down, from the
/// bottom to the top.
pub open spec fn highlight_down(index: usize, count: usize) -> int {
    (clamped_highlight(index, count) + 1) % (count as int)
}

/// `next` keeps `mode`'s session, has query `query` and highlights `index`.
pub open spec fn kept(outcome: InsertModeOutcome, mode: InsertModeState, query: Seq<char>, index: int) -> bool {
    &&& outcome matches InsertModeOutcome::Keep(next)
    &&& next.session_id == mode.session_id
    &&& next.query@ == query
    &&& next.highlighted_index == index
}

/// What `key` does to open mode `mode`: Escape and Insert close it, Enter
/// submits the highlighted command, the arrows move the highlight around
/// the matches, Backspace drops the query's last character, Delete clears
/// it, a character without Ctrl, Alt or Meta is appended (an empty one with
/// Shift is ignored), and other keys are ignored. Query edits reset the
/// highlight.
pub open spec fn reduced(
    mode: InsertModeState,
    key: TerminalKey,
    modifiers: KeyModifiers,
    selection: InsertModeSelection,
    outcome: InsertModeOutcome,
) -> bool {
    match key {
        TerminalKey::Escape => outcome is Close,
        TerminalKey::Insert => outcome is Close,
        TerminalKey::Enter => match selection.selected_command_id {
            Some(id) => outcome == InsertModeOutcome::Submit(id),
            None => outcome is Ignore,
        },
        TerminalKey::ArrowUp => if selection.match_count == 0 {
            outcome is Ignore
        } else {
            kept(outcome, mode, mode.query@, highlight_up(mode.highlighted_index, selection.match_count))
        },
        TerminalKey::ArrowDown => if selection.match_count == 0 {
            outcome is Ignore
        } else {
            kept(outcome, mode, mode.query@, highlight_down(mode.highlighted_index, selection.match_count))
        },
        TerminalKey::Backspace => kept(
            outcome,
            mode,
            if mode.query@.len() == 0 { mode.query@ } else { mode.query@.drop_last() },
            0,
        ),
        TerminalKey::Delete => kept(outcome, mode, Seq::empty(), 0),
        TerminalKey::Character(text) => if modifiers.ctrl || modifiers.alt || modifiers.meta || (
        modifiers.shift && text@.len() == 0) {
            outcome is Ignore
        } else {
            kept(outcome, mode, mode.query@ + text@, 0)
        },
        _ => outcome is Ignore,
    }
}

/// Backspace keeps the mode open and the highlight on the first match, and
/// its query is the old one without its last character: one character
/// shorter (an empty query stays empty), and a prefix of the old query.
pub proof fn lemma_backspace_drops_last_char(
    mode: InsertModeState,
    modifiers: KeyModifiers,
    selection: InsertModeSelection,
    outcome: InsertModeOutcome,
)
    requires
        reduced(mode, TerminalKey::Backspace, modifiers, selection, outcome),
    ensures
        outcome is Keep,
        outcome->Keep_0.session_id == mode.session_id,
        outcome->Keep_0.highlighted_index == 0,
        outcome->Keep_0.query@.len() == if mode.query@.len() > 0 { mode.query@.len() - 1 } else { 0 },
        forall|i: int| 0 <= i < outcome->Keep_0.query@.len() ==> outcome->Keep_0.query@[i] == mode.query@[i],
{
}

/// Typing one character and then Backspace gives back the query typed
/// into.
pub proof fn lemma_type_then_backspace(
    mode: InsertModeState,
    text: String,
    modifiers: KeyModifiers,
    selection: InsertModeSelection,
    typed: InsertModeOutcome,
    modifiers2: KeyModifiers,
    selection2: InsertModeSelection,
    erased: InsertModeOutcome,
)
    requires
        text@.len() == 1,
        !modifiers.ctrl && !modifiers.alt && !modifiers.meta,
        reduced(mode, TerminalKey::Character(text), modifiers, selection, typed),
        typed is Keep,
        reduced(typed->Keep_0, TerminalKey::Backspace, modifiers2, selection2, erased),
    ensures
        erased is Keep,
        erased->Keep_0.query@ == mode.query@,
{
    assert((mode.query@ + text@).drop_last() =~= mode.query@);
}

/// A character typed without Ctrl, Alt or Meta is appended to the query:
/// the old query stays in front and the typed text follows it; Delete
/// empties the query; Escape and Insert close the mode.
pub proof fn lemma_query_edits(
    mode: InsertModeState,
    text: String,
    modifiers: KeyModifiers,
    selection: InsertModeSelection,
    typed: InsertModeOutcome,
    deleted: InsertModeOutcome,
    escaped: InsertModeOutcome,
)
    requires
        text@.len() > 0,
        !modifiers.ctrl && !modifiers.alt && !modifiers.meta,
        reduced(mode, TerminalKey::Character(text), modifiers, selection, typed),
        reduced(mode, TerminalKey::Delete, modifiers, selection, deleted),
        reduced(mode, TerminalKey::Escape, modifiers, selection, escaped),
    ensures
        typed is Keep,
        typed->Keep_0.query@.len() == mode.query@.len() + text@.len(),
        typed->Keep_0.query@.take(mode.query@.len() as int) == mode.query@,
        typed->Keep_0.query@.skip(mode.query@.len() as int) == text@,
        deleted is Keep,
        deleted->Keep_0.query@.len() == 0,
        escaped is Close,
{
    assert((mode.query@ + text@).take(mode.query@.len() as int) =~= mode.query@);
    assert((mode.query@ + text@).skip(mode.query@.len() as int) =~= text@);
}

fn keep(mode: &InsertModeState, query: String, highlighted_index: usize) -> (outcome: InsertModeOutcome)
    ensures
        kept(outcome, *mode, query@, highlighted_index as int),
{
    InsertModeOutcome::Keep(InsertModeState { session_id: mode.session_id, query, highlighted_index })
}

/// Applies `key` to open insert mode `mode`.
pub fn reduce_insert_mode_key(
    mode: &InsertModeState,
    key: &TerminalKey,
    modifiers: KeyModifiers,
    selection: InsertModeSelection,
) -> (outcome: InsertModeOutcome)
    ensures
        reduced(*mode, *key, modifiers, selection, outcome),
{
    match key {
        TerminalKey::Escape => InsertModeOutcome::Close,
        TerminalKey::Insert => InsertModeOutcome::Close,
        TerminalKey::Enter => match selection.selected_command_id {
            Some(id) => InsertModeOutcome::Submit(id),
            None => InsertModeOutcome::Ignore,
        },
        TerminalKey::ArrowUp => {
            if selection.match_count == 0 {
                return InsertModeOutcome::Ignore;
            }
            let last = selection.match_count - 1;
            let current = if mode.highlighted_index < last { mode.highlighted_index } else { last };
            let next = if current == 0 { last } else { current - 1 };
            keep(mode, mode.query.clone(), next)
        },
        TerminalKey::ArrowDown => {
            if selection.match_count == 0 {
                return InsertModeOutcome::Ignore;
            }
            let last = selection.match_count - 1;
            let current = if mode.highlighted_index < last { mode.highlighted_index } else { last };
            let next = (current + 1) % selection.match_count;
            keep(mode, mode.query.clone(), next)
        },
        TerminalKey::Backspace => {
            let chars = chars_of(mode.query.as_str());
            let next_query = if chars.len() == 0 {
                mode.query.clone()
            } else {
                string_from_range(&chars, 0, chars.len() - 1)
            };
            proof {
                if chars@.len() > 0 {
                    assert(chars@.subrange(0, chars@.len() - 1) =~= mode.query@.drop_last());
                }
            }
            keep(mode, next_query, 0)
        },
        TerminalKey::Delete => {
            let empty = String::new();
            proof {
                assert(empty@ =~= Seq::<char>::empty());
            }
            keep(mode, empty, 0)
        },
        TerminalKey::Character(text) => {
            if modifiers.ctrl || modifiers.alt || modifiers.meta {
                return InsertModeOutcome::Ignore;
            }
            if modifiers.shift && text.as_str().is_empty() {
                return InsertModeOutcome::Ignore;
            }
            let mut next_query = mode.query.clone();
            next_query.append(text.as_str());
            keep(mode, next_query, 0)
        },
        _ => InsertModeOutcome::Ignore,
    }
}

/// Routes a key: to the open mode when there is one, else opens the mode
/// on a bare Insert key and passes every other key through.
pub fn route_terminal_key(
    mode: Option<&InsertModeState>,
    key: &TerminalKey,
    modifiers: KeyModifiers,
    selection: InsertModeSelection,
) -> (route: TerminalKeyRoute)
    ensures
        match mode {
            Some(m) => route matches TerminalKeyRoute::HandleMode(outcome) && reduced(
                *m,
                *key,
                modifiers,
                selection,
                outcome,
            ),
            None => if is_trigger(*key, modifiers.ctrl, modifiers.alt, modifiers.shift, modifiers.meta) {
                route is OpenMode
            } else {
                route is Passthrough
            },
        },
{
    match mode {
        Some(m) => TerminalKeyRoute::HandleMode(reduce_insert_mode_key(m, key, modifiers, selection)),
        None => {
            if is_insert_trigger_key(key, modifiers.ctrl, modifiers.alt, modifiers.shift, modifiers.meta) {
                TerminalKeyRoute::OpenMode
            } else {
                TerminalKeyRoute::Passthrough
            }
        },
    }
}

/// The mode after focus moves to `focused_session`: closed when it belongs
/// to another session, else unchanged.
pub fn mode_after_focus(mode: Option<InsertModeState>, focused_session: SessionId) -> (next: Option<
    InsertModeState,
>)
    ensures
        next == match mode {
            Some(m) => if m.session_id != focused_session {
                None
            } else {
                Some(m)
            },
            None => None,
        },
{
    match mode {
        Some(m) => if m.session_id != focused_session {
            None
        } else {
            Some(m)
        },
        None => None,
    }
}

/// The mode after `blurred_session` loses focus: closed when it belongs to
/// that session, else unchanged.
pub fn mode_after_blur(mode: Option<InsertModeState>, blurred_session: SessionId) -> (next: Option<
    InsertModeState,
>)
    ensures
        next == match mode {
            Some(m) => if m.session_id == blurred_session {
                None
            } else {
                Some(m)
            },
            None => None,
        },
{
    match mode {
        Some(m) => if m.session_id == blurred_session {
            None
        } else {
            Some(m)
        },
        None => None,
    }
}

} // verus!
