//! Application keyboard shortcuts: zoom, the CRT effect toggle and page
//! scrolling of the root terminal.
use vstd::prelude::*;
use crate::insert_mode::{KeyModifiers, TerminalKey};

verus! {

/// Direction of a zoom shortcut.
#[derive(Debug, Clone, Copy, PartialEq, Eq, Structural)]
pub enum ScaleDirection {
    ZoomIn,
    ZoomOut,
}

/// Physical key code of a key, as far as page scrolling reads it.
#[derive(Debug, Clone, Copy, PartialEq, Eq, Structural)]
pub enum PageCode {
    PageUp,
    PageDown,
    Other,
}

/// True when `key` is the text `t`.
pub open spec fn is_text(key: TerminalKey, t: Seq<char>) -> bool {
    key matches TerminalKey::Character(s) && s@ == t
}

fn text_is(key: &TerminalKey, c: char) -> (b: bool)
    ensures
        b == is_text(*key, seq![c]),
{
    match key {
        TerminalKey::Character(s) => {
            let chars = crate::text::chars_of(s.as_str());
            let b = chars.len() == 1 && chars[0] == c;
            proof {
                if b {
                    assert(s@ =~= seq![c]);
                }
            }
            b
        },
        _ => false,
    }
}

/// Zoom a shortcut asks for: with Ctrl or Meta and without Alt, `+` or
/// `=` zooms in and `-` or `_` zooms out.
pub open spec fn spec_scale_direction(key: TerminalKey, ctrl: bool, meta: bool, alt: bool) -> Option<ScaleDirection> {
    if (!ctrl && !meta) || alt {
        None
    } else if is_text(key, seq!['+']) || is_text(key, seq!['=']) {
        Some(ScaleDirection::ZoomIn)
    } else if is_text(key, seq!['-']) || is_text(key, seq!['_']) {
        Some(ScaleDirection::ZoomOut)
    } else {
        None
    }
}

/// Zoom a shortcut asks for: see [`spec_scale_direction`].
pub fn gui_scale_direction(key: &TerminalKey, ctrl: bool, meta: bool, alt: bool) -> (direction: Option<ScaleDirection>)
    ensures
        direction == spec_scale_direction(*key, ctrl, meta, alt),
{
    if (!ctrl && !meta) || alt {
        return None;
    }
    if text_is(key, '+') || text_is(key, '=') {
        Some(ScaleDirection::ZoomIn)
    } else if text_is(key, '-') || text_is(key, '_') {
        Some(ScaleDirection::ZoomOut)
    } else {
        None
    }
}

/// True for Ctrl-1 with no other modifier, the shortcut that toggles the
/// CRT effect.
pub fn crt_toggle_requested(key: &TerminalKey, ctrl: bool, alt: bool, shift: bool, meta: bool) -> (toggle: bool)
    ensures
        toggle == (ctrl && !alt && !shift && !meta && is_text(*key, seq!['1'])),
{
    if !ctrl || alt || shift || meta {
        return false;
    }
    text_is(key, '1')
}

/// Rows a page key scrolls the root terminal by: the visible rows (at
/// least one), up for PageUp and down (negative) for PageDown, going by
/// the key and else by its physical code; none with any modifier.
pub open spec fn page_scroll(key: TerminalKey, code: PageCode, modifiers: KeyModifiers, visible_rows: u16) -> Option<i32> {
    let rows: i32 = if visible_rows < 1 { 1 } else { visible_rows as i32 };
    if modifiers.ctrl || modifiers.alt || modifiers.shift || modifiers.meta {
        None
    } else if key is PageUp {
        Some(rows)
    } else if key is PageDown {
        Some((-rows) as i32)
    } else if code == PageCode::PageUp {
        Some(rows)
    } else if code == PageCode::PageDown {
        Some((-rows) as i32)
    } else {
        None
    }
}

/// Rows a page key scrolls the root terminal by: see [`page_scroll`].
pub fn root_page_scroll_delta(key: &TerminalKey, code: PageCode, modifiers: KeyModifiers, visible_rows: u16) -> (delta: Option<i32>)
    ensures
        delta == page_scroll(*key, code, modifiers, visible_rows),
{
    if modifiers.ctrl || modifiers.alt || modifiers.shift || modifiers.meta {
        return None;
    }
    let rows: i32 = if visible_rows < 1 { 1 } else { visible_rows as i32 };
    match key {
        TerminalKey::PageUp => Some(rows),
        TerminalKey::PageDown => Some(-rows),
        _ => match code {
            PageCode::PageUp => Some(rows),
            PageCode::PageDown => Some(-rows),
            PageCode::Other => None,
        },
    }
}

} // verus!
