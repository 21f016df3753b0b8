//! Decisions of the terminal resize poll: which sessions keep their last
//! size, and when a measured size asks for a resize.
use vstd::prelude::*;
use crate::seqs::{
    first_index, lemma_filter_take_step, lemma_filter_take_zero, lemma_first_index_is, lemma_first_index_none,
    lemma_take_full,
};
use crate::state::SessionId;

verus! {

/// Fewest columns a terminal is resized to.
pub const TERMINAL_MIN_RESIZE_COLS: u16 = 24;

/// The size each watched session was last resized to.
pub struct ResizePoll {
    last_sizes: Vec<(SessionId, u16, u16)>,
}

impl View for ResizePoll {
    type V = Seq<(SessionId, u16, u16)>;

    closed spec fn view(&self) -> Seq<(SessionId, u16, u16)> {
        self.last_sizes@
    }
}

/// Test for the entry of session `id`.
pub open spec fn size_of_session(id: SessionId) -> spec_fn((SessionId, u16, u16)) -> bool {
    |e: (SessionId, u16, u16)| e.0 == id
}

/// Test for an entry of one of the sessions `ids`.
pub open spec fn size_among(ids: Seq<SessionId>) -> spec_fn((SessionId, u16, u16)) -> bool {
    |e: (SessionId, u16, u16)| ids.contains(e.0)
}

/// The size `id` was last resized to, if any.
pub open spec fn last_size(sizes: Seq<(SessionId, u16, u16)>, id: SessionId) -> Option<(u16, u16)> {
    let i = first_index(sizes, size_of_session(id));
    if i >= 0 {
        Some((sizes[i].1, sizes[i].2))
    } else {
        None
    }
}

/// Columns raised to the minimum.
pub open spec fn resize_cols(cols: u16) -> u16 {
    if cols < TERMINAL_MIN_RESIZE_COLS { TERMINAL_MIN_RESIZE_COLS } else { cols }
}

/// The sizes after `id` was resized to `rows` by `cols`: its entry replaced
/// in place, or a new one at the end.
pub open spec fn with_size(sizes: Seq<(SessionId, u16, u16)>, id: SessionId, rows: u16, cols: u16) -> Seq<
    (SessionId, u16, u16),
> {
    let i = first_index(sizes, size_of_session(id));
    if i >= 0 {
        sizes.update(i, (id, rows, cols))
    } else {
        sizes.push((id, rows, cols))
    }
}

impl ResizePoll {
    /// No size recorded.
    pub fn new() -> (poll: Self)
        ensures
            poll@ == Seq::<(SessionId, u16, u16)>::empty(),
    {
        ResizePoll { last_sizes: Vec::new() }
    }

    fn position(&self, id: SessionId) -> (found: Option<usize>)
        ensures
            match found {
                Some(i) => i == first_index(self@, size_of_session(id)) && i < self@.len(),
                None => first_index(self@, size_of_session(id)) == -1,
            },
    {
        let mut i: usize = 0;
        while i < self.last_sizes.len()
            invariant
                i <= self@.len(),
                self@ == self.last_sizes@,
                forall|j: int| 0 <= j < i ==> !size_of_session(id)(#[trigger] self@[j]),
            decreases self.last_sizes.len() - i,
        {
            if self.last_sizes[i].0 == id {
                proof {
                    lemma_first_index_is(self@, size_of_session(id), i as int);
                }
                return Some(i);
            }
            i = i + 1;
        }
        proof {
            lemma_first_index_none(self@, size_of_session(id));
        }
        None
    }

    /// Starts a poll round: only the sessions of the active group keep
    /// their last size; with no active group every size is forgotten.
    pub fn begin_round(&mut self, active_sessions: Option<&[SessionId]>)
        ensures
            final(self)@ == match active_sessions {
                Some(ids) => old(self)@.filter(size_among(ids@)),
                None => Seq::<(SessionId, u16, u16)>::empty(),
            },
    {
        match active_sessions {
            None => {
                self.last_sizes = Vec::new();
            },
            Some(ids) => {
                let ghost before = self@;
                let ghost keep = size_among(ids@);
                let mut kept: Vec<(SessionId, u16, u16)> = Vec::new();
                let mut i: usize = 0;
                proof {
                    lemma_filter_take_zero(before, keep);
                }
                while i < self.last_sizes.len()
                    invariant
                        i <= before.len(),
                        self@ == before,
                        self.last_sizes@ == before,
                        keep == size_among(ids@),
                        kept@ == before.take(i as int).filter(keep),
                    decreases self.last_sizes.len() - i,
                {
                    proof {
                        lemma_filter_take_step(before, keep, i as int);
                    }
                    let entry = self.last_sizes[i];
                    if session_listed(ids, entry.0) {
                        kept.push(entry);
                    }
                    i = i + 1;
                }
                proof {
                    lemma_take_full(before);
                }
                self.last_sizes = kept;
            },
        }
    }

    /// The size to resize `session_id` to after measuring `rows` by `cols`:
    /// the columns raised to [`TERMINAL_MIN_RESIZE_COLS`]; `None` when the
    /// session was last resized to that size.
    pub fn resize_target(&self, session_id: SessionId, rows: u16, cols: u16) -> (target: Option<(u16, u16)>)
        ensures
            target == if last_size(self@, session_id) == Some((rows, resize_cols(cols))) {
                None
            } else {
                Some((rows, resize_cols(cols)))
            },
    {
        let cols = if cols < TERMINAL_MIN_RESIZE_COLS { TERMINAL_MIN_RESIZE_COLS } else { cols };
        match self.position(session_id) {
            Some(i) => {
                let last = self.last_sizes[i];
                if last.1 == rows && last.2 == cols {
                    None
                } else {
                    Some((rows, cols))
                }
            },
            None => Some((rows, cols)),
        }
    }

    /// Records that `session_id` was resized to `rows` by `cols`.
    pub fn record(&mut self, session_id: SessionId, rows: u16, cols: u16)
        ensures
            final(self)@ == with_size(old(self)@, session_id, rows, cols),
    {
        match self.position(session_id) {
            Some(i) => {
                crate::seqs::vec_replace(&mut self.last_sizes, i, (session_id, rows, cols));
            },
            None => {
                self.last_sizes.push((session_id, rows, cols));
            },
        }
    }
}

/// True when `ids` holds `id`.
fn session_listed(ids: &[SessionId], id: SessionId) -> (found: bool)
    ensures
        found == ids@.contains(id),
{
    let mut i: usize = 0;
    while i < ids.len()
        invariant
            i <= ids@.len(),
            forall|j: int| 0 <= j < i ==> ids@[j] != id,
        decreases ids.len() - i,
    {
        if ids[i] == id {
            return true;
        }
        i = i + 1;
    }
    false
}

} // verus!
