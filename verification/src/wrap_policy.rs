//! Width given to a terminal whose lines are not wrapped to the viewport.
use vstd::prelude::*;

verus! {

/// Unwrapped width per viewport column.
pub const DEFAULT_UNWRAPPED_COLS_MULTIPLIER: u16 = 8;

/// Narrowest unwrapped width.
pub const MIN_UNWRAPPED_TERMINAL_COLS: u16 = 512;

/// Widest unwrapped width.
pub const MAX_UNWRAPPED_TERMINAL_COLS: u16 = 4096;

/// Unwrapped width for a viewport of `viewport_cols` columns.
pub open spec fn unwrapped_cols(viewport_cols: u16) -> u16 {
    let scaled: int = if viewport_cols * DEFAULT_UNWRAPPED_COLS_MULTIPLIER > u16::MAX {
        u16::MAX as int
    } else {
        viewport_cols * DEFAULT_UNWRAPPED_COLS_MULTIPLIER
    };
    let at_least: int = if scaled < MIN_UNWRAPPED_TERMINAL_COLS {
        MIN_UNWRAPPED_TERMINAL_COLS as int
    } else {
        scaled
    };
    (if at_least > MAX_UNWRAPPED_TERMINAL_COLS {
        MAX_UNWRAPPED_TERMINAL_COLS as int
    } else {
        at_least
    }) as u16
}

/// Unwrapped width for a viewport: eight times its columns, kept between
/// the narrowest and widest unwrapped widths.
pub fn default_unwrapped_terminal_cols(viewport_cols: u16) -> (cols: u16)
    ensures
        cols == unwrapped_cols(viewport_cols),
        MIN_UNWRAPPED_TERMINAL_COLS <= cols <= MAX_UNWRAPPED_TERMINAL_COLS,
{
    let wide: u32 = (viewport_cols as u32) * 8;
    let scaled: u16 = if wide > 65535 { 65535 } else { wide as u16 };
    let at_least = if scaled < MIN_UNWRAPPED_TERMINAL_COLS {
        MIN_UNWRAPPED_TERMINAL_COLS
    } else {
        scaled
    };
    if at_least > MAX_UNWRAPPED_TERMINAL_COLS {
        MAX_UNWRAPPED_TERMINAL_COLS
    } else {
        at_least
    }
}

} // verus!
