//! Scrolling a native terminal view: the emulator's own scrollback offset
//! plus a local offset over rows hidden by the view.
use vstd::prelude::*;

verus! {

/// Effective offset after scrolling `delta_lines` from the current one
/// (the emulator's offset plus the local one), held between 0 and the
/// history plus the hidden rows.
pub open spec fn offset_after_delta(
    delta_lines: i32,
    hidden_rows: usize,
    history_size: usize,
    display_offset: usize,
    local_offset: usize,
) -> int {
    let current = display_offset + local_offset;
    let max_offset = history_size + hidden_rows;
    let moved = if delta_lines >= 0 {
        current + delta_lines
    } else {
        let back = current + delta_lines;
        if back < 0 {
            0
        } else {
            back
        }
    };
    let held = if moved > usize::MAX {
        usize::MAX as int
    } else {
        moved
    };
    if held < max_offset {
        held
    } else {
        max_offset
    }
}

/// Effective offset to scroll to after `delta_lines` (see
/// [`offset_after_delta`]).
pub fn scroll_target_after_delta(
    delta_lines: i32,
    hidden_rows: usize,
    history_size: usize,
    display_offset: usize,
    local_offset: usize,
) -> (target: usize)
    requires
        display_offset + local_offset <= usize::MAX,
        history_size + hidden_rows <= usize::MAX,
    ensures
        target == offset_after_delta(delta_lines, hidden_rows, history_size, display_offset, local_offset),
{
    let current = display_offset + local_offset;
    let max_offset = history_size + hidden_rows;
    let moved = if delta_lines >= 0 {
        current.saturating_add(delta_lines as usize)
    } else {
        let back = (0i64 - delta_lines as i64) as usize;
        current.saturating_sub(back)
    };
    if moved < max_offset {
        moved
    } else {
        max_offset
    }
}

/// How to reach an effective offset: the part scrolled locally over the
/// hidden rows, and how far the emulator's own offset moves.
#[derive(Debug, Clone, Copy, PartialEq, Eq, Structural)]
pub struct ScrollPlan {
    pub desired_local: usize,
    pub backend_delta: i32,
}

/// Plan for scrolling to `desired` (held at the history plus the hidden
/// rows): the local offset takes up to the hidden rows, the emulator the
/// rest, as a move from its current offset (both counted in 32 bits).
pub open spec fn scroll_plan(desired: usize, hidden_rows: usize, history_size: usize, display_offset: usize) -> (
    usize,
    int,
) {
    let max = history_size + hidden_rows;
    let target = if desired < max {
        desired as int
    } else {
        max
    };
    let local = if target < hidden_rows {
        target
    } else {
        hidden_rows as int
    };
    let backend = target - local;
    (local as usize, (backend as usize) as i32 - (display_offset as i32))
}

/// Plan for scrolling to an effective offset (see [`scroll_plan`]).
pub fn plan_scroll_to(desired: usize, hidden_rows: usize, history_size: usize, display_offset: usize) -> (plan:
    ScrollPlan)
    requires
        history_size + hidden_rows <= usize::MAX,
        i32::MIN <= scroll_plan(desired, hidden_rows, history_size, display_offset).1 <= i32::MAX,
    ensures
        plan.desired_local == scroll_plan(desired, hidden_rows, history_size, display_offset).0,
        plan.backend_delta == scroll_plan(desired, hidden_rows, history_size, display_offset).1,
{
    let max = history_size + hidden_rows;
    let target = if desired < max { desired } else { max };
    let local = if target < hidden_rows { target } else { hidden_rows };
    let backend = target - local;
    let delta: i32 = backend as i32 - display_offset as i32;
    ScrollPlan { desired_local: local, backend_delta: delta }
}

/// True when carrying out `plan` from the local offset `local_offset`
/// moves anything.
pub fn plan_moves(plan: ScrollPlan, local_offset: usize) -> (moves: bool)
    ensures
        moves == (plan.backend_delta != 0 || plan.desired_local != local_offset),
{
    plan.backend_delta != 0 || plan.desired_local != local_offset
}

} // verus!
