//! Bytes a terminal receives for keys and for moving its cursor.
use vstd::prelude::*;
use vstd::utf8::encode_utf8;
use crate::insert_mode::{KeyModifiers, TerminalKey};
use crate::text::chars_of;

verus! {

/// `n` copies of `s`, back to back.
pub open spec fn repeated(s: Seq<u8>, n: nat) -> Seq<u8>
    decreases n,
{
    if n == 0 {
        Seq::empty()
    } else {
        repeated(s, (n - 1) as nat) + s
    }
}

/// Escape sequence `ESC [ c` that moves the cursor one step.
pub open spec fn arrow(c: u8) -> Seq<u8> {
    seq![0x1bu8, 0x5bu8, c]
}

/// Cursor key bytes that move from `from_row`, `from_col` to `target_row`,
/// `target_col`: the vertical steps (down `B` or up `A`), then the
/// horizontal ones (right `C` or left `D`).
pub open spec fn cursor_moves(from_row: u16, from_col: u16, target_row: u16, target_col: u16) -> Seq<u8> {
    let vertical = if target_row > from_row {
        repeated(arrow(0x42), (target_row - from_row) as nat)
    } else {
        repeated(arrow(0x41), (from_row - target_row) as nat)
    };
    let horizontal = if target_col > from_col {
        repeated(arrow(0x43), (target_col - from_col) as nat)
    } else {
        repeated(arrow(0x44), (from_col - target_col) as nat)
    };
    vertical + horizontal
}

fn push_steps(bytes: &mut Vec<u8>, c: u8, n: u16)
    ensures
        final(bytes)@ == old(bytes)@ + repeated(arrow(c), n as nat),
{
    let ghost start = bytes@;
    let mut i: u16 = 0;
    while i < n
        invariant
            i <= n,
            bytes@ == start + repeated(arrow(c), i as nat),
        decreases n - i,
    {
        bytes.push(0x1b);
        bytes.push(0x5b);
        bytes.push(c);
        proof {
            assert(repeated(arrow(c), (i + 1) as nat) == repeated(arrow(c), i as nat) + arrow(c));
            assert(bytes@ =~= start + repeated(arrow(c), (i + 1) as nat));
        }
        i = i + 1;
    }
}

/// Cursor key bytes moving from one cell to another: see [`cursor_moves`].
pub fn cursor_move_bytes(from_row: u16, from_col: u16, target_row: u16, target_col: u16) -> (bytes: Vec<u8>)
    ensures
        bytes@ == cursor_moves(from_row, from_col, target_row, target_col),
{
    let mut bytes: Vec<u8> = Vec::new();
    if target_row > from_row {
        push_steps(&mut bytes, 0x42, target_row - from_row);
    } else {
        push_steps(&mut bytes, 0x41, from_row - target_row);
    }
    let ghost vertical = bytes@;
    if target_col > from_col {
        push_steps(&mut bytes, 0x43, target_col - from_col);
    } else {
        push_steps(&mut bytes, 0x44, from_col - target_col);
    }
    proof {
        assert(vertical =~= Seq::<u8>::empty() + vertical);
        assert(bytes@ =~= cursor_moves(from_row, from_col, target_row, target_col));
    }
    bytes
}

/// ASCII lowercase of `c`.
pub open spec fn ascii_lower(c: char) -> char {
    if 'A' <= c <= 'Z' {
        ((c as u32) + 32) as char
    } else {
        c
    }
}

/// Control byte typed with Ctrl and `input`: Ctrl-@, Ctrl-space and
/// Ctrl-2 give NUL, Ctrl-a to Ctrl-z give 1 to 26 (either case), and the
/// punctuation and digit aliases give ESC, FS, GS, RS, US and DEL.
pub open spec fn spec_control_byte(input: char) -> Option<u8> {
    let c = ascii_lower(input);
    if c == '@' || c == ' ' || c == '2' {
        Some(0u8)
    } else if 'a' <= c <= 'z' {
        Some(((c as u32) - 0x61 + 1) as u8)
    } else if c == '[' || c == '3' {
        Some(27u8)
    } else if c == '\\' || c == '4' {
        Some(28u8)
    } else if c == ']' || c == '5' {
        Some(29u8)
    } else if c == '^' || c == '6' {
        Some(30u8)
    } else if c == '_' || c == '7' {
        Some(31u8)
    } else if c == '8' || c == '?' {
        Some(127u8)
    } else {
        None
    }
}

/// Control byte typed with Ctrl and `input`: see [`spec_control_byte`].
pub fn control_byte(input: char) -> (byte: Option<u8>)
    ensures
        byte == spec_control_byte(input),
{
    let lower = if 'A' <= input && input <= 'Z' {
        let v = (input as u32) + 32;
        proof {
            assert(v < 0xD800);
        }
        char_from_ascii(v)
    } else {
        input
    };
    if lower == '@' || lower == ' ' || lower == '2' {
        Some(0)
    } else if 'a' <= lower && lower <= 'z' {
        Some(((lower as u32) - 0x61 + 1) as u8)
    } else if lower == '[' || lower == '3' {
        Some(27)
    } else if lower == '\\' || lower == '4' {
        Some(28)
    } else if lower == ']' || lower == '5' {
        Some(29)
    } else if lower == '^' || lower == '6' {
        Some(30)
    } else if lower == '_' || lower == '7' {
        Some(31)
    } else if lower == '8' || lower == '?' {
        Some(127)
    } else {
        None
    }
}

/// The lowercase ASCII letter with code `v`.
fn char_from_ascii(v: u32) -> (c: char)
    requires
        0x61 <= v <= 0x7a,
    ensures
        c as u32 == v,
{
    let b = v as u8;
    let c = b as char;
    proof {
        assert(c as u32 == v);
    }
    c
}

/// Bytes a key sends before the Alt prefix: the usual control and escape
/// sequences for named keys (shift-Tab as back-tab), and for text its
/// UTF-8 bytes, or with Ctrl the control byte of its first character.
/// `None` for other keys, empty text, and Ctrl with a character that has
/// no control byte.
pub open spec fn key_bytes(key: TerminalKey, modifiers: KeyModifiers) -> Option<Seq<u8>> {
    match key {
        TerminalKey::Enter => Some(seq![0x0du8]),
        TerminalKey::Tab => if modifiers.shift {
            Some(seq![0x1bu8, 0x5bu8, 0x5au8])
        } else {
            Some(seq![0x09u8])
        },
        TerminalKey::Backspace => Some(seq![0x7fu8]),
        TerminalKey::Escape => Some(seq![0x1bu8]),
        TerminalKey::ArrowUp => Some(arrow(0x41)),
        TerminalKey::ArrowDown => Some(arrow(0x42)),
        TerminalKey::ArrowRight => Some(arrow(0x43)),
        TerminalKey::ArrowLeft => Some(arrow(0x44)),
        TerminalKey::Home => Some(arrow(0x48)),
        TerminalKey::End => Some(arrow(0x46)),
        TerminalKey::Delete => Some(seq![0x1bu8, 0x5bu8, 0x33u8, 0x7eu8]),
        TerminalKey::Insert => Some(seq![0x1bu8, 0x5bu8, 0x32u8, 0x7eu8]),
        TerminalKey::PageUp => Some(seq![0x1bu8, 0x5bu8, 0x35u8, 0x7eu8]),
        TerminalKey::PageDown => Some(seq![0x1bu8, 0x5bu8, 0x36u8, 0x7eu8]),
        TerminalKey::Character(text) => if text@.len() == 0 {
            None
        } else if modifiers.ctrl {
            match spec_control_byte(text@[0]) {
                Some(b) => Some(seq![b]),
                None => None,
            }
        } else {
            Some(encode_utf8(text@))
        },
        TerminalKey::Other => None,
    }
}

/// The arrow keys send the standard cursor-key sequences, whatever the
/// modifiers (Alt adds its ESC in front, see [`key_event_bytes`]): up
/// `ESC [ A`, down `ESC [ B`, right `ESC [ C`, left `ESC [ D`, each the
/// bytes of a one-step cursor move in its direction.
pub proof fn lemma_arrow_keys_move_one_step(modifiers: KeyModifiers, row: u16, col: u16)
    requires
        row < u16::MAX,
        col < u16::MAX,
    ensures
        key_bytes(TerminalKey::ArrowUp, modifiers) == Some(seq![0x1bu8, 0x5bu8, 0x41u8]),
        key_bytes(TerminalKey::ArrowDown, modifiers) == Some(seq![0x1bu8, 0x5bu8, 0x42u8]),
        key_bytes(TerminalKey::ArrowRight, modifiers) == Some(seq![0x1bu8, 0x5bu8, 0x43u8]),
        key_bytes(TerminalKey::ArrowLeft, modifiers) == Some(seq![0x1bu8, 0x5bu8, 0x44u8]),
        key_bytes(TerminalKey::ArrowUp, modifiers) == Some(cursor_moves((row + 1) as u16, col, row, col)),
        key_bytes(TerminalKey::ArrowDown, modifiers) == Some(cursor_moves(row, col, (row + 1) as u16, col)),
        key_bytes(TerminalKey::ArrowRight, modifiers) == Some(cursor_moves(row, col, row, (col + 1) as u16)),
        key_bytes(TerminalKey::ArrowLeft, modifiers) == Some(cursor_moves(row, (col + 1) as u16, row, col)),
{
    reveal_with_fuel(repeated, 2);
    let up = seq![0x1bu8, 0x5bu8, 0x41u8];
    let down = seq![0x1bu8, 0x5bu8, 0x42u8];
    let right = seq![0x1bu8, 0x5bu8, 0x43u8];
    let left = seq![0x1bu8, 0x5bu8, 0x44u8];
    assert(arrow(0x41) =~= up);
    assert(arrow(0x42) =~= down);
    assert(arrow(0x43) =~= right);
    assert(arrow(0x44) =~= left);
    assert(Seq::<u8>::empty() + up + Seq::<u8>::empty() =~= up);
    assert(Seq::<u8>::empty() + down + Seq::<u8>::empty() =~= down);
    assert(Seq::<u8>::empty() + (Seq::<u8>::empty() + right) =~= right);
    assert(Seq::<u8>::empty() + (Seq::<u8>::empty() + left) =~= left);
    assert(cursor_moves((row + 1) as u16, col, row, col) =~= up);
    assert(cursor_moves(row, col, (row + 1) as u16, col) =~= down);
    assert(cursor_moves(row, col, row, (col + 1) as u16) =~= right);
    assert(cursor_moves(row, (col + 1) as u16, row, col) =~= left);
}

/// Bytes a key sends: [`key_bytes`], with an ESC in front when Alt is
/// held.
pub open spec fn key_event_bytes(key: TerminalKey, modifiers: KeyModifiers) -> Option<Seq<u8>> {
    match key_bytes(key, modifiers) {
        Some(b) => if modifiers.alt {
            Some(seq![0x1bu8] + b)
        } else {
            Some(b)
        },
        None => None,
    }
}

/// Bytes a key sends to the terminal: see [`key_event_bytes`].
pub fn key_event_to_bytes(key: &TerminalKey, modifiers: KeyModifiers) -> (bytes: Option<Vec<u8>>)
    ensures
        match bytes {
            Some(b) => key_event_bytes(*key, modifiers) == Some(b@),
            None => key_event_bytes(*key, modifiers) is None,
        },
{
    let base: Vec<u8> = match key {
        TerminalKey::Enter => vec![0x0d],
        TerminalKey::Tab => if modifiers.shift {
            vec![0x1b, 0x5b, 0x5a]
        } else {
            vec![0x09]
        },
        TerminalKey::Backspace => vec![0x7f],
        TerminalKey::Escape => vec![0x1b],
        TerminalKey::ArrowUp => vec![0x1b, 0x5b, 0x41],
        TerminalKey::ArrowDown => vec![0x1b, 0x5b, 0x42],
        TerminalKey::ArrowRight => vec![0x1b, 0x5b, 0x43],
        TerminalKey::ArrowLeft => vec![0x1b, 0x5b, 0x44],
        TerminalKey::Home => vec![0x1b, 0x5b, 0x48],
        TerminalKey::End => vec![0x1b, 0x5b, 0x46],
        TerminalKey::Delete => vec![0x1b, 0x5b, 0x33, 0x7e],
        TerminalKey::Insert => vec![0x1b, 0x5b, 0x32, 0x7e],
        TerminalKey::PageUp => vec![0x1b, 0x5b, 0x35, 0x7e],
        TerminalKey::PageDown => vec![0x1b, 0x5b, 0x36, 0x7e],
        TerminalKey::Character(text) => {
            let chars = chars_of(text.as_str());
            if chars.len() == 0 {
                return None;
            }
            if modifiers.ctrl {
                match control_byte(chars[0]) {
                    Some(b) => vec![b],
                    None => return None,
                }
            } else {
                let bytes = text.as_str().as_bytes();
                vstd::slice::slice_to_vec(bytes)
            }
        },
        TerminalKey::Other => return None,
    };
    proof {
        assert(key_bytes(*key, modifiers) == Some(base@));
    }
    if modifiers.alt {
        let mut prefixed: Vec<u8> = Vec::new();
        prefixed.push(0x1b);
        let mut i: usize = 0;
        while i < base.len()
            invariant
                i <= base@.len(),
                prefixed@ == seq![0x1bu8] + base@.take(i as int),
            decreases base.len() - i,
        {
            prefixed.push(base[i]);
            proof {
                assert(base@.take(i + 1) == base@.take(i as int).push(base@[i as int]));
                assert(prefixed@ =~= seq![0x1bu8] + base@.take(i + 1));
            }
            i = i + 1;
        }
        proof {
            assert(base@.take(base@.len() as int) =~= base@);
        }
        Some(prefixed)
    } else {
        Some(base)
    }
}

} // verus!
