//! Cadence of Git context refreshes across the active and the other
//! groups: the coordinator's decisions at each tick, which group path is
//! refreshed next, and how many ticks pass before a group is due again.
use vstd::prelude::*;
use crate::seqs::{
    first_index, lemma_filter_take_step, lemma_filter_take_zero, lemma_first_index_is, lemma_first_index_none,
    lemma_take_full,
};
use crate::text::text_equal;

verus! {

/// Milliseconds between two ticks of the refresh coordinator.
pub const GIT_REFRESH_COORDINATOR_TICK_MS: u64 = 500;

/// Base refresh interval of the active group.
pub const GIT_REFRESH_ACTIVE_INTERVAL_MS: u64 = 5_000;

/// Base refresh interval of the other groups.
pub const GIT_REFRESH_INACTIVE_INTERVAL_MS: u64 = 20_000;

/// Largest jitter added to or taken from the active group's interval.
pub const GIT_REFRESH_ACTIVE_JITTER_MS: u64 = 500;

/// Largest jitter added to or taken from the other groups' interval.
pub const GIT_REFRESH_INACTIVE_JITTER_MS: u64 = 4_000;

/// Delay before a file-system change triggers a refresh.
pub const GIT_REFRESH_WATCHER_DEBOUNCE_MS: u64 = 1_000;

/// Why a group path waits for a refresh.
#[derive(Clone, Copy, Debug, PartialEq, Eq, Structural)]
pub enum PendingRefresh {
    Scheduled,
    Immediate,
}

/// Group paths waiting for a refresh, each once, in the order they were
/// first marked.
pub struct PendingRefreshes {
    entries: Vec<(String, PendingRefresh)>,
}

/// The reason of each path, as a sequence of (path, reason).
pub open spec fn pending_view(entries: Seq<(String, PendingRefresh)>) -> Seq<(Seq<char>, PendingRefresh)> {
    entries.map_values(|e: (String, PendingRefresh)| (e.0@, e.1))
}

impl View for PendingRefreshes {
    type V = Seq<(Seq<char>, PendingRefresh)>;

    closed spec fn view(&self) -> Seq<(Seq<char>, PendingRefresh)> {
        pending_view(self.entries@)
    }
}

/// No path occurs twice.
pub open spec fn paths_unique(p: Seq<(Seq<char>, PendingRefresh)>) -> bool {
    forall|i: int, j: int| 0 <= i < j < p.len() ==> (#[trigger] p[i]).0 != (#[trigger] p[j]).0
}

/// Position of `path`, or -1.
pub open spec fn pending_index(p: Seq<(Seq<char>, PendingRefresh)>, path: Seq<char>) -> int {
    if exists|i: int| 0 <= i < p.len() && (#[trigger] p[i]).0 == path {
        choose|i: int| 0 <= i < p.len() && (#[trigger] p[i]).0 == path
    } else {
        -1
    }
}

/// The reason `path` waits for, if it does.
pub open spec fn pending_reason(p: Seq<(Seq<char>, PendingRefresh)>, path: Seq<char>) -> Option<PendingRefresh> {
    let i = pending_index(p, path);
    if i >= 0 {
        Some(p[i].1)
    } else {
        None
    }
}

/// The waiting paths after marking `path` for reason `next`: a new path
/// is added at the end; an immediate refresh replaces a scheduled one;
/// anything else is left as it is.
pub open spec fn marked(p: Seq<(Seq<char>, PendingRefresh)>, path: Seq<char>, next: PendingRefresh) -> Seq<
    (Seq<char>, PendingRefresh),
> {
    match pending_reason(p, path) {
        None => p.push((path, next)),
        Some(PendingRefresh::Scheduled) => if next == PendingRefresh::Immediate {
            p.update(pending_index(p, path), (path, PendingRefresh::Immediate))
        } else {
            p
        },
        Some(PendingRefresh::Immediate) => p,
    }
}

/// First position holding reason `reason`, or -1.
pub open spec fn first_with(p: Seq<(Seq<char>, PendingRefresh)>, reason: PendingRefresh) -> int {
    if exists|i: int| 0 <= i < p.len() && (#[trigger] p[i]).1 == reason {
        choose|i: int|
            0 <= i < p.len() && (#[trigger] p[i]).1 == reason && forall|j: int| 0 <= j < i ==> p[j].1 != reason
    } else {
        -1
    }
}

/// The path to refresh next: the active path when it waits for an
/// immediate refresh, else the first path waiting for one, else the active
/// path when it is scheduled, else the first scheduled path.
pub open spec fn next_refresh(p: Seq<(Seq<char>, PendingRefresh)>, active: Option<Seq<char>>) -> Option<Seq<char>> {
    if active is Some && pending_reason(p, active->0) == Some(PendingRefresh::Immediate) {
        active
    } else if first_with(p, PendingRefresh::Immediate) >= 0 {
        Some(p[first_with(p, PendingRefresh::Immediate)].0)
    } else if active is Some && pending_reason(p, active->0) == Some(PendingRefresh::Scheduled) {
        active
    } else if first_with(p, PendingRefresh::Scheduled) >= 0 {
        Some(p[first_with(p, PendingRefresh::Scheduled)].0)
    } else {
        None
    }
}

proof fn lemma_first_with(p: Seq<(Seq<char>, PendingRefresh)>, reason: PendingRefresh, k: int)
    requires
        0 <= k < p.len(),
        p[k].1 == reason,
        forall|j: int| 0 <= j < k ==> p[j].1 != reason,
    ensures
        first_with(p, reason) == k,
{
    let i = first_with(p, reason);
    assert(0 <= i < p.len() && p[i].1 == reason && forall|j: int| 0 <= j < i ==> p[j].1 != reason);
    if i < k {
        assert(p[i].1 != reason);
    }
    if k < i {
        assert(p[k].1 != reason);
    }
}

proof fn lemma_pending_index(p: Seq<(Seq<char>, PendingRefresh)>, path: Seq<char>, k: int)
    requires
        paths_unique(p),
        0 <= k < p.len(),
        p[k].0 == path,
    ensures
        pending_index(p, path) == k,
{
    let i = pending_index(p, path);
    assert(0 <= i < p.len() && p[i].0 == path);
    if i < k {
        assert(p[i].0 != p[k].0);
    }
    if k < i {
        assert(p[k].0 != p[i].0);
    }
}

impl PendingRefreshes {
    /// No path is waiting.
    pub fn new() -> (pending: Self)
        ensures
            pending@ == Seq::<(Seq<char>, PendingRefresh)>::empty(),
    {
        let pending = PendingRefreshes { entries: Vec::new() };
        proof {
            assert(pending@ =~= Seq::<(Seq<char>, PendingRefresh)>::empty());
        }
        pending
    }

    /// No path is waiting twice.
    pub open spec fn wf(&self) -> bool {
        paths_unique(self@)
    }

    /// Position of `path`, if it waits.
    fn find(&self, path: &str) -> (found: Option<usize>)
        requires
            self.wf(),
        ensures
            match found {
                Some(i) => i == pending_index(self@, path@) && i < self@.len(),
                None => pending_index(self@, path@) == -1,
            },
    {
        let mut i: usize = 0;
        while i < self.entries.len()
            invariant
                i <= self@.len(),
                self@.len() == self.entries@.len(),
                paths_unique(self@),
                forall|j: int| 0 <= j < i ==> (#[trigger] self@[j]).0 != path@,
            decreases self.entries.len() - i,
        {
            proof {
                assert(self@[i as int].0 == self.entries@[i as int].0@);
            }
            if text_equal(&self.entries[i].0, &path.to_string()) {
                proof {
                    lemma_pending_index(self@, path@, i as int);
                }
                return Some(i);
            }
            i = i + 1;
        }
        None
    }

    /// The reason `path` waits for, if it does.
    pub fn get(&self, path: &str) -> (reason: Option<PendingRefresh>)
        requires
            self.wf(),
        ensures
            reason == pending_reason(self@, path@),
    {
        match self.find(path) {
            Some(i) => {
                proof {
                    assert(self@[i as int].1 == self.entries@[i as int].1);
                }
                Some(self.entries[i].1)
            },
            None => None,
        }
    }

    /// Drops `path` from the waiting paths.
    pub fn remove(&mut self, path: &str)
        requires
            old(self).wf(),
        ensures
            final(self).wf(),
            final(self)@ == if pending_index(old(self)@, path@) >= 0 {
                old(self)@.remove(pending_index(old(self)@, path@))
            } else {
                old(self)@
            },
    {
        if let Some(i) = self.find(path) {
            let ghost before = self@;
            self.entries.remove(i);
            proof {
                assert(self@ =~= before.remove(i as int));
            }
        }
    }
}

/// Marks `group_path` as waiting for a refresh for reason `next`; an
/// immediate refresh wins over a scheduled one.
pub fn mark_pending(pending: &mut PendingRefreshes, group_path: &str, next: PendingRefresh)
    requires
        old(pending).wf(),
    ensures
        final(pending).wf(),
        final(pending)@ == marked(old(pending)@, group_path@, next),
{
    let ghost before = pending@;
    match pending.find(group_path) {
        Some(i) => {
            proof {
                assert(pending@[i as int].1 == pending.entries@[i as int].1);
            }
            let current = pending.entries[i].1;
            let upgrade = match (current, next) {
                (PendingRefresh::Scheduled, PendingRefresh::Immediate) => true,
                _ => false,
            };
            if upgrade {
                let key = group_path.to_string();
                crate::seqs::vec_replace(&mut pending.entries, i, (key, PendingRefresh::Immediate));
                proof {
                    assert(pending@ =~= before.update(i as int, (group_path@, PendingRefresh::Immediate)));
                    assert forall|a: int, b: int| 0 <= a < b < pending@.len() implies (#[trigger] pending@[a]).0 != (
                    #[trigger] pending@[b]).0 by {
                        assert(before[a].0 != before[b].0);
                    }
                }
            }
        },
        None => {
            pending.entries.push((group_path.to_string(), next));
            proof {
                assert(pending@ =~= before.push((group_path@, next)));
                assert forall|a: int, b: int| 0 <= a < b < pending@.len() implies (#[trigger] pending@[a]).0 != (
                #[trigger] pending@[b]).0 by {
                    if b == before.len() {
                        assert(before[a].0 != group_path@);
                    } else {
                        assert(before[a].0 != before[b].0);
                    }
                }
            }
        },
    }
}

/// Position of the first path waiting for `reason`, if any.
fn first_waiting(pending: &PendingRefreshes, reason: PendingRefresh) -> (found: Option<usize>)
    ensures
        match found {
            Some(i) => i == first_with(pending@, reason) && i < pending@.len(),
            None => first_with(pending@, reason) == -1,
        },
{
    let mut i: usize = 0;
    while i < pending.entries.len()
        invariant
            i <= pending@.len(),
            pending@.len() == pending.entries@.len(),
            forall|j: int| 0 <= j < i ==> (#[trigger] pending@[j]).1 != reason,
        decreases pending.entries.len() - i,
    {
        proof {
            assert(pending@[i as int].1 == pending.entries@[i as int].1);
        }
        if pending.entries[i].1 == reason {
            proof {
                lemma_first_with(pending@, reason, i as int);
            }
            return Some(i);
        }
        i = i + 1;
    }
    None
}

/// Characters of an optional path.
pub open spec fn path_view(path: Option<&str>) -> Option<Seq<char>> {
    match path {
        Some(p) => Some(p@),
        None => None,
    }
}

/// The path to refresh next: see [`next_refresh`].
pub fn select_next_refresh_path(pending: &PendingRefreshes, active_path: Option<&str>) -> (path: Option<String>)
    requires
        pending.wf(),
    ensures
        match path {
            Some(p) => next_refresh(pending@, path_view(active_path)) == Some(p@),
            None => next_refresh(pending@, path_view(active_path)) is None,
        },
{
    if let Some(active) = active_path {
        if let Some(PendingRefresh::Immediate) = pending.get(active) {
            return Some(active.to_string());
        }
    }
    if let Some(i) = first_waiting(pending, PendingRefresh::Immediate) {
        proof {
            assert(pending@[i as int].0 == pending.entries@[i as int].0@);
        }
        return Some(pending.entries[i].0.clone());
    }
    if let Some(active) = active_path {
        if let Some(PendingRefresh::Scheduled) = pending.get(active) {
            return Some(active.to_string());
        }
    }
    if let Some(i) = first_waiting(pending, PendingRefresh::Scheduled) {
        proof {
            assert(pending@[i as int].0 == pending.entries@[i as int].0@);
        }
        return Some(pending.entries[i].0.clone());
    }
    None
}

/// True when `path` is the active group's path.
pub fn is_active_group(active_path: &Option<String>, path: &str) -> (active: bool)
    ensures
        active == (active_path is Some && active_path->0@ == path@),
{
    match active_path {
        Some(a) => text_equal(a, &path.to_string()),
        None => false,
    }
}

/// `ms` rounded up to whole coordinator ticks.
pub open spec fn ticks_of(ms: u64) -> u64 {
    ((ms + 499) / 500) as u64
}

/// Coordinator ticks in `duration_ms` milliseconds, rounded up.
pub fn ticks_for_ms(duration_ms: u64) -> (ticks: u64)
    ensures
        ticks == ticks_of(duration_ms),
{
    let tick = GIT_REFRESH_COORDINATOR_TICK_MS;
    let q = duration_ms / tick;
    if duration_ms % tick == 0 {
        q
    } else {
        q + 1
    }
}

/// Hash of a group path and a tick count.
#[verifier::external_body]
fn path_tick_hash(group_path: &str, tick_counter: u64) -> (value: u64) {
    std::hash::BuildHasher::hash_one(
        &std::hash::BuildHasherDefault::<std::collections::hash_map::DefaultHasher>::default(),
        (group_path, tick_counter),
    )
}

/// Offset of `value` into `-jitter_ms..=jitter_ms`.
pub open spec fn jitter_of(value: u64, jitter_ms: u64) -> int {
    if jitter_ms == 0 {
        0
    } else {
        (value % (2 * jitter_ms + 1) as u64) as int - jitter_ms as int
    }
}

/// Spreads a hash value over `-jitter_ms..=jitter_ms`.
pub fn jitter_from_hash(value: u64, jitter_ms: u64) -> (offset: i64)
    requires
        jitter_ms <= i64::MAX / 2,
    ensures
        offset == jitter_of(value, jitter_ms),
        -(jitter_ms as int) <= offset <= jitter_ms,
{
    if jitter_ms == 0 {
        return 0;
    }
    let span = jitter_ms * 2 + 1;
    ((value % span) as i64) - (jitter_ms as i64)
}

/// Pseudo-random offset in `-jitter_ms..=jitter_ms` derived from the group
/// path and the tick count: the hash of the two spread over that range
/// (see [`jitter_of`]); zero without jitter. The hash value itself is not
/// stated.
pub fn jitter_offset_ms(group_path: &str, tick_counter: u64, jitter_ms: u64) -> (offset: i64)
    requires
        jitter_ms <= i64::MAX / 2,
    ensures
        -(jitter_ms as int) <= offset <= jitter_ms,
        jitter_ms == 0 ==> offset == 0,
        exists|hash: u64| offset == #[trigger] jitter_of(hash, jitter_ms),
{
    if jitter_ms == 0 {
        assert(jitter_of(0, jitter_ms) == 0);
        return 0;
    }
    let value = path_tick_hash(group_path, tick_counter);
    jitter_from_hash(value, jitter_ms)
}

/// Ticks until a group is due again for a given jitter: the base interval
/// (shorter for the active group) moved by the jitter, at least one
/// millisecond, in whole ticks.
pub open spec fn interval_ticks(active: bool, jitter: int) -> u64 {
    let base: int = if active { GIT_REFRESH_ACTIVE_INTERVAL_MS as int } else { GIT_REFRESH_INACTIVE_INTERVAL_MS as int };
    let ms = if base + jitter < 1 { 1 } else { base + jitter };
    ticks_of(ms as u64)
}

/// Ticks until a group is due again: see [`interval_ticks`], with a jitter
/// of up to half a second for the active group and four seconds for the
/// others.
pub fn ticks_for_jittered_interval(group_path: &str, active: bool, tick_counter: u64) -> (ticks: u64)
    ensures
        ticks >= 1,
        exists|jitter: int|
            -(if active { GIT_REFRESH_ACTIVE_JITTER_MS } else { GIT_REFRESH_INACTIVE_JITTER_MS }) <= jitter
                <= (if active { GIT_REFRESH_ACTIVE_JITTER_MS } else { GIT_REFRESH_INACTIVE_JITTER_MS })
                && ticks == #[trigger] interval_ticks(active, jitter),
{
    let (base_ms, jitter_ms) = if active {
        (GIT_REFRESH_ACTIVE_INTERVAL_MS, GIT_REFRESH_ACTIVE_JITTER_MS)
    } else {
        (GIT_REFRESH_INACTIVE_INTERVAL_MS, GIT_REFRESH_INACTIVE_JITTER_MS)
    };
    let jitter = jitter_offset_ms(group_path, tick_counter, jitter_ms);
    let sum = base_ms as i64 + jitter;
    let interval_ms: u64 = if sum < 1 { 1 } else { sum as u64 };
    let ticks = ticks_for_ms(interval_ms);
    proof {
        assert(ticks == interval_ticks(active, jitter as int));
    }
    ticks
}

/// Characters of each string.
pub open spec fn strings_view(s: Seq<String>) -> Seq<Seq<char>> {
    s.map_values(|x: String| x@)
}

/// Test for a waiting path that is still known.
pub open spec fn pending_known(known: Seq<Seq<char>>) -> spec_fn((Seq<char>, PendingRefresh)) -> bool {
    |e: (Seq<char>, PendingRefresh)| known.contains(e.0)
}

/// True when `known` holds `path`.
pub fn contains_path(known: &[String], path: &str) -> (found: bool)
    ensures
        found == strings_view(known@).contains(path@),
{
    let target = path.to_string();
    let mut i: usize = 0;
    while i < known.len()
        invariant
            i <= known@.len(),
            target@ == path@,
            forall|j: int| 0 <= j < i ==> (#[trigger] known@[j])@ != path@,
        decreases known.len() - i,
    {
        if text_equal(&known[i], &target) {
            proof {
                assert(strings_view(known@)[i as int] == path@);
            }
            return true;
        }
        i = i + 1;
    }
    proof {
        if strings_view(known@).contains(path@) {
            let k = choose|k: int| 0 <= k < strings_view(known@).len() && strings_view(known@)[k] == path@;
            assert(known@[k]@ == path@);
        }
    }
    false
}

impl PendingRefreshes {
    /// Forgets the paths that `known` does not hold.
    pub fn retain_known(&mut self, known: &[String])
        requires
            old(self).wf(),
        ensures
            final(self).wf(),
            final(self)@ == old(self)@.filter(pending_known(strings_view(known@))),
    {
        let ghost before = self@;
        let ghost keep = pending_known(strings_view(known@));
        let mut kept: Vec<(String, PendingRefresh)> = Vec::new();
        let mut i: usize = 0;
        proof {
            lemma_filter_take_zero(before, keep);
        }
        while i < self.entries.len()
            invariant
                i <= before.len(),
                self@ == before,
                self.entries@.len() == before.len(),
                paths_unique(before),
                keep == pending_known(strings_view(known@)),
                pending_view(kept@) == before.take(i as int).filter(keep),
                paths_unique(pending_view(kept@)),
                forall|a: int|
                    0 <= a < kept@.len() ==> exists|b: int| 0 <= b < i && #[trigger] before[b] == (
                    #[trigger] pending_view(kept@)[a]),
            decreases self.entries.len() - i,
        {
            proof {
                lemma_filter_take_step(before, keep, i as int);
                assert(before[i as int] == (self.entries@[i as int].0@, self.entries@[i as int].1));
            }
            if contains_path(known, self.entries[i].0.as_str()) {
                let ghost old_kept = pending_view(kept@);
                kept.push((self.entries[i].0.clone(), self.entries[i].1));
                proof {
                    assert(pending_view(kept@) =~= old_kept.push(before[i as int]));
                    assert forall|a: int| 0 <= a < kept@.len() implies exists|b: int|
                        0 <= b < i + 1 && #[trigger] before[b] == (#[trigger] pending_view(kept@)[a]) by {
                        if a == kept@.len() - 1 {
                            assert(before[i as int] == pending_view(kept@)[a]);
                        } else {
                            assert(pending_view(kept@)[a] == old_kept[a]);
                        }
                    }
                    assert forall|a: int, c: int| 0 <= a < c < kept@.len() implies (#[trigger] pending_view(
                        kept@,
                    )[a]).0 != (#[trigger] pending_view(kept@)[c]).0 by {
                        if c == kept@.len() - 1 {
                            assert(pending_view(kept@)[a] == old_kept[a]);
                            let b = choose|b: int| 0 <= b < i && #[trigger] before[b] == old_kept[a];
                            assert(before[b].0 != before[i as int].0);
                        } else {
                            assert(pending_view(kept@)[a] == old_kept[a]);
                            assert(pending_view(kept@)[c] == old_kept[c]);
                        }
                    }
                }
            }
            i = i + 1;
        }
        proof {
            lemma_take_full(before);
        }
        self.entries = kept;
    }
}

/// Characters and tick of each entry.
pub open spec fn ticks_view(e: Seq<(String, u64)>) -> Seq<(Seq<char>, u64)> {
    e.map_values(|x: (String, u64)| (x.0@, x.1))
}

/// Test for the entry of path `k`.
pub open spec fn key_is(k: Seq<char>) -> spec_fn((Seq<char>, u64)) -> bool {
    |x: (Seq<char>, u64)| x.0 == k
}

/// The tick recorded for path `k`, if any.
pub open spec fn tick_of(e: Seq<(Seq<char>, u64)>, k: Seq<char>) -> Option<u64> {
    let i = first_index(e, key_is(k));
    if i >= 0 {
        Some(e[i].1)
    } else {
        None
    }
}

/// The entries with path `k` recorded at tick `v`: its entry replaced in
/// place, or a new one at the end.
pub open spec fn with_tick(e: Seq<(Seq<char>, u64)>, k: Seq<char>, v: u64) -> Seq<(Seq<char>, u64)> {
    let i = first_index(e, key_is(k));
    if i >= 0 {
        e.update(i, (k, v))
    } else {
        e.push((k, v))
    }
}

/// Test for an entry whose path is still known.
pub open spec fn tick_known(known: Seq<Seq<char>>) -> spec_fn((Seq<char>, u64)) -> bool {
    |x: (Seq<char>, u64)| known.contains(x.0)
}

/// Test for a known path.
pub open spec fn path_known(known: Seq<Seq<char>>) -> spec_fn(Seq<char>) -> bool {
    |x: Seq<char>| known.contains(x)
}

/// Position of the entry of path `k`, if any.
fn tick_index(e: &Vec<(String, u64)>, k: &str) -> (found: Option<usize>)
    ensures
        match found {
            Some(i) => i == first_index(ticks_view(e@), key_is(k@)) && i < e@.len(),
            None => first_index(ticks_view(e@), key_is(k@)) == -1,
        },
{
    let target = k.to_string();
    let ghost v = ticks_view(e@);
    let mut i: usize = 0;
    while i < e.len()
        invariant
            i <= e@.len(),
            v == ticks_view(e@),
            target@ == k@,
            forall|j: int| 0 <= j < i ==> !key_is(k@)(#[trigger] v[j]),
        decreases e.len() - i,
    {
        if text_equal(&e[i].0, &target) {
            proof {
                lemma_first_index_is(v, key_is(k@), i as int);
            }
            return Some(i);
        }
        i = i + 1;
    }
    proof {
        lemma_first_index_none(v, key_is(k@));
    }
    None
}

/// Records tick `v` for path `k`.
fn set_tick(e: &mut Vec<(String, u64)>, k: &str, v: u64)
    ensures
        ticks_view(final(e)@) == with_tick(ticks_view(old(e)@), k@, v),
{
    let ghost before = ticks_view(e@);
    match tick_index(e, k) {
        Some(i) => {
            crate::seqs::vec_replace(e, i, (k.to_string(), v));
            proof {
                assert(ticks_view(e@) =~= before.update(i as int, (k@, v)));
            }
        },
        None => {
            e.push((k.to_string(), v));
            proof {
                assert(ticks_view(e@) =~= before.push((k@, v)));
            }
        },
    }
}

/// The entries whose paths `known` holds, in order.
fn retain_known_ticks(e: &Vec<(String, u64)>, known: &[String]) -> (kept: Vec<(String, u64)>)
    ensures
        ticks_view(kept@) == ticks_view(e@).filter(tick_known(strings_view(known@))),
{
    let ghost before = ticks_view(e@);
    let ghost keep = tick_known(strings_view(known@));
    let mut kept: Vec<(String, u64)> = Vec::new();
    let mut i: usize = 0;
    proof {
        lemma_filter_take_zero(before, keep);
    }
    while i < e.len()
        invariant
            i <= e@.len(),
            before == ticks_view(e@),
            keep == tick_known(strings_view(known@)),
            ticks_view(kept@) == before.take(i as int).filter(keep),
        decreases e.len() - i,
    {
        proof {
            lemma_filter_take_step(before, keep, i as int);
        }
        if contains_path(known, e[i].0.as_str()) {
            let ghost old_kept = ticks_view(kept@);
            kept.push((e[i].0.clone(), e[i].1));
            proof {
                assert(ticks_view(kept@) =~= old_kept.push(before[i as int]));
            }
        }
        i = i + 1;
    }
    proof {
        lemma_take_full(before);
    }
    kept
}

/// The paths that `known` holds, in order.
fn retain_known_paths(e: &Vec<String>, known: &[String]) -> (kept: Vec<String>)
    ensures
        strings_view(kept@) == strings_view(e@).filter(path_known(strings_view(known@))),
{
    let ghost before = strings_view(e@);
    let ghost keep = path_known(strings_view(known@));
    let mut kept: Vec<String> = Vec::new();
    let mut i: usize = 0;
    proof {
        lemma_filter_take_zero(before, keep);
    }
    while i < e.len()
        invariant
            i <= e@.len(),
            before == strings_view(e@),
            keep == path_known(strings_view(known@)),
            strings_view(kept@) == before.take(i as int).filter(keep),
        decreases e.len() - i,
    {
        proof {
            lemma_filter_take_step(before, keep, i as int);
        }
        if contains_path(known, e[i].as_str()) {
            let ghost old_kept = strings_view(kept@);
            kept.push(e[i].clone());
            proof {
                assert(strings_view(kept@) =~= old_kept.push(before[i as int]));
            }
        }
        i = i + 1;
    }
    proof {
        lemma_take_full(before);
    }
    kept
}

/// Something the coordinator learns of between two ticks.
pub enum GitRefreshEvent {
    /// A Git command ran in the group at this path.
    GitCommandExecuted(String),
    /// Files changed under the watched repository of the group at this path.
    RepoFsChanged(String),
}

/// What the shown Git context does after a switch of the active group.
#[derive(Clone, Copy, Debug, PartialEq, Eq, Structural)]
pub enum GitContextChange {
    /// The active group did not change.
    Unchanged,
    /// The cached context of the new active path is shown.
    ShowCached,
    /// Nothing is shown while the new active path loads.
    Loading,
    /// No group is active: nothing is shown.
    Cleared,
}

/// What the coordinator asks for after a tick: restart the repository
/// watcher on the new active path when it changed, update the shown
/// context, and refresh a path, marking the panel as loading when it is
/// the active one.
pub struct GitRefreshAction {
    pub active_changed: bool,
    pub context: GitContextChange,
    pub refresh: Option<String>,
    pub refresh_is_active: bool,
}

impl View for GitRefreshAction {
    type V = (bool, GitContextChange, Option<Seq<char>>, bool);

    open spec fn view(&self) -> (bool, GitContextChange, Option<Seq<char>>, bool) {
        (
            self.active_changed,
            self.context,
            match self.refresh {
                Some(p) => Some(p@),
                None => None,
            },
            self.refresh_is_active,
        )
    }
}

/// What the coordinator remembers from tick to tick: the tick at which
/// each group path is next due, the paths waiting for a refresh, the paths
/// with a cached context, the tick at which each watched change is acted
/// on, the active path, the path whose context is shown, and the last
/// refresh nonce seen.
pub struct GitRefreshState {
    due: Vec<(String, u64)>,
    pending: PendingRefreshes,
    cached: Vec<String>,
    debounce: Vec<(String, u64)>,
    active: Option<String>,
    active_context: Option<String>,
    nonce_seen: u64,
}

/// Abstract contents of a [`GitRefreshState`].
pub struct GitRefreshView {
    pub due: Seq<(Seq<char>, u64)>,
    pub pending: Seq<(Seq<char>, PendingRefresh)>,
    pub cached: Seq<Seq<char>>,
    pub debounce: Seq<(Seq<char>, u64)>,
    pub active: Option<Seq<char>>,
    pub active_context: Option<Seq<char>>,
    pub nonce_seen: u64,
}

/// Characters of an optional string.
pub open spec fn opt_view(s: Option<String>) -> Option<Seq<char>> {
    match s {
        Some(p) => Some(p@),
        None => None,
    }
}

impl View for GitRefreshState {
    type V = GitRefreshView;

    closed spec fn view(&self) -> GitRefreshView {
        GitRefreshView {
            due: ticks_view(self.due@),
            pending: self.pending@,
            cached: strings_view(self.cached@),
            debounce: ticks_view(self.debounce@),
            active: opt_view(self.active),
            active_context: opt_view(self.active_context),
            nonce_seen: self.nonce_seen,
        }
    }
}

/// Ticks a watched change waits before it is acted on.
pub open spec fn debounce_ticks() -> u64 {
    ticks_of(GIT_REFRESH_WATCHER_DEBOUNCE_MS)
}

/// First stage of a tick: the paths of groups that are gone are forgotten.
pub open spec fn forget_unknown(s: GitRefreshView, known: Seq<Seq<char>>) -> GitRefreshView {
    GitRefreshView {
        due: s.due.filter(tick_known(known)),
        pending: s.pending.filter(pending_known(known)),
        cached: s.cached.filter(path_known(known)),
        debounce: s.debounce.filter(tick_known(known)),
        ..s
    }
}

/// Second stage: a new active path shows its cached context, or waits for
/// an immediate refresh; no active path clears the panel.
pub open spec fn switch_active(s: GitRefreshView, active: Option<Seq<char>>) -> (bool, GitContextChange, GitRefreshView) {
    if s.active == active {
        (false, GitContextChange::Unchanged, s)
    } else {
        match active {
            Some(p) => if s.cached.contains(p) {
                (true, GitContextChange::ShowCached, GitRefreshView { active, active_context: active, ..s })
            } else {
                (
                    true,
                    GitContextChange::Loading,
                    GitRefreshView { active, pending: marked(s.pending, p, PendingRefresh::Immediate), ..s },
                )
            },
            None => (true, GitContextChange::Cleared, GitRefreshView { active, active_context: None, ..s }),
        }
    }
}

/// Third stage: a Git command asks for an immediate refresh of its path;
/// a watched change is acted on after the debounce delay.
pub open spec fn apply_events(s: GitRefreshView, events: Seq<GitRefreshEvent>, tick: u64) -> GitRefreshView
    decreases events.len(),
{
    if events.len() == 0 {
        s
    } else {
        let r = apply_events(s, events.drop_last(), tick);
        match events.last() {
            GitRefreshEvent::GitCommandExecuted(p) => GitRefreshView {
                pending: marked(r.pending, p@, PendingRefresh::Immediate),
                ..r
            },
            GitRefreshEvent::RepoFsChanged(p) => GitRefreshView {
                debounce: with_tick(r.debounce, p@, (tick + debounce_ticks()) as u64),
                ..r
            },
        }
    }
}

/// The waiting paths after marking each path of `entries`, in order, for
/// reason `reason`.
pub open spec fn mark_each(
    pending: Seq<(Seq<char>, PendingRefresh)>,
    entries: Seq<(Seq<char>, u64)>,
    reason: PendingRefresh,
) -> Seq<(Seq<char>, PendingRefresh)>
    decreases entries.len(),
{
    if entries.len() == 0 {
        pending
    } else {
        marked(mark_each(pending, entries.drop_last(), reason), entries.last().0, reason)
    }
}

/// Test for a watched change whose delay is over at `tick`.
pub open spec fn settled_by(tick: u64) -> spec_fn((Seq<char>, u64)) -> bool {
    |x: (Seq<char>, u64)| x.1 <= tick
}

/// Test for a watched change still waiting at `tick`.
pub open spec fn waiting_at(tick: u64) -> spec_fn((Seq<char>, u64)) -> bool {
    |x: (Seq<char>, u64)| x.1 > tick
}

/// Fourth stage: watched changes whose delay is over ask for an immediate
/// refresh.
pub open spec fn flush_debounce(s: GitRefreshView, tick: u64) -> GitRefreshView {
    GitRefreshView {
        pending: mark_each(s.pending, s.debounce.filter(settled_by(tick)), PendingRefresh::Immediate),
        debounce: s.debounce.filter(waiting_at(tick)),
        ..s
    }
}

/// Fifth stage: a new refresh nonce asks for an immediate refresh of the
/// active path.
pub open spec fn see_nonce(s: GitRefreshView, nonce: u64) -> GitRefreshView {
    if s.nonce_seen != nonce {
        GitRefreshView {
            nonce_seen: nonce,
            pending: match s.active {
                Some(p) => marked(s.pending, p, PendingRefresh::Immediate),
                None => s.pending,
            },
            ..s
        }
    } else {
        s
    }
}

/// Sixth stage: each known path without a due tick gets one,
/// `intervals[i]` ticks from now for the path `known[i]`.
pub open spec fn schedule_new(
    due: Seq<(Seq<char>, u64)>,
    known: Seq<Seq<char>>,
    tick: u64,
    intervals: Seq<u64>,
) -> Seq<(Seq<char>, u64)>
    decreases known.len(),
{
    if known.len() == 0 {
        due
    } else {
        let d = schedule_new(due, known.drop_last(), tick, intervals.drop_last());
        let p = known.last();
        if tick_of(d, p) is Some {
            d
        } else {
            d.push((p, (tick + intervals.last()) as u64))
        }
    }
}

/// Seventh stage: each known path whose due tick has come waits for a
/// scheduled refresh.
pub open spec fn mark_due(
    pending: Seq<(Seq<char>, PendingRefresh)>,
    due: Seq<(Seq<char>, u64)>,
    known: Seq<Seq<char>>,
    tick: u64,
) -> Seq<(Seq<char>, PendingRefresh)>
    decreases known.len(),
{
    if known.len() == 0 {
        pending
    } else {
        let q = mark_due(pending, due, known.drop_last(), tick);
        let p = known.last();
        match tick_of(due, p) {
            Some(t) => if tick >= t {
                marked(q, p, PendingRefresh::Scheduled)
            } else {
                q
            },
            None => q,
        }
    }
}

/// One tick of the coordinator: the stages above in turn, then the path to
/// refresh (see [`next_refresh`]). `intervals[i]` is the interval drawn
/// for `known[i]` when it gets its first due tick.
pub open spec fn refresh_step(
    s: GitRefreshView,
    known: Seq<Seq<char>>,
    active: Option<Seq<char>>,
    events: Seq<GitRefreshEvent>,
    tick: u64,
    nonce: u64,
    intervals: Seq<u64>,
) -> ((bool, GitContextChange, Option<Seq<char>>, bool), GitRefreshView) {
    let s1 = forget_unknown(s, known);
    let (changed, context, s2) = switch_active(s1, active);
    let s3 = see_nonce(flush_debounce(apply_events(s2, events, tick), tick), nonce);
    let due = schedule_new(s3.due, known, tick, intervals);
    let pending = mark_due(s3.pending, due, known, tick);
    let refresh = next_refresh(pending, s3.active);
    (
        (changed, context, refresh, refresh is Some && refresh == s3.active),
        GitRefreshView { due, pending, ..s3 },
    )
}

/// An interval that [`ticks_for_jittered_interval`] can draw: the base
/// interval moved by a jitter within bounds.
pub open spec fn drawn_interval(ticks: u64, active: bool) -> bool {
    exists|jitter: int|
        -(if active { GIT_REFRESH_ACTIVE_JITTER_MS } else { GIT_REFRESH_INACTIVE_JITTER_MS }) <= jitter
            <= (if active { GIT_REFRESH_ACTIVE_JITTER_MS } else { GIT_REFRESH_INACTIVE_JITTER_MS })
            && ticks == #[trigger] interval_ticks(active, jitter)
}

/// After the refresh of `path` at `tick`: its context is cached, it no
/// longer waits, and its next due tick is `interval` ticks away. The first
/// element tells whether the new context is shown: when `path` is the
/// active path or the one whose context is shown.
pub open spec fn after_refresh(s: GitRefreshView, path: Seq<char>, tick: u64, interval: u64) -> (bool, GitRefreshView) {
    let is_active = s.active == Some(path);
    (
        is_active || s.active_context == Some(path),
        GitRefreshView {
            cached: if s.cached.contains(path) {
                s.cached
            } else {
                s.cached.push(path)
            },
            pending: if pending_index(s.pending, path) >= 0 {
                s.pending.remove(pending_index(s.pending, path))
            } else {
                s.pending
            },
            due: if tick_of(s.due, path) is Some {
                with_tick(s.due, path, (tick + interval) as u64)
            } else {
                s.due
            },
            active_context: if is_active {
                Some(path)
            } else {
                s.active_context
            },
            ..s
        },
    )
}

/// The longest interval that can be drawn, in ticks.
pub open spec fn longest_interval_ticks() -> u64 {
    ticks_of((GIT_REFRESH_INACTIVE_INTERVAL_MS + GIT_REFRESH_INACTIVE_JITTER_MS) as u64)
}

/// A drawn interval is at most the longest one.
proof fn lemma_drawn_interval_bound(ticks: u64, active: bool)
    requires
        drawn_interval(ticks, active),
    ensures
        1 <= ticks <= longest_interval_ticks(),
{
    let jitter = choose|jitter: int|
        -(if active { GIT_REFRESH_ACTIVE_JITTER_MS } else { GIT_REFRESH_INACTIVE_JITTER_MS }) <= jitter
            <= (if active { GIT_REFRESH_ACTIVE_JITTER_MS } else { GIT_REFRESH_INACTIVE_JITTER_MS })
            && ticks == #[trigger] interval_ticks(active, jitter);
    assert(ticks == interval_ticks(active, jitter));
}

/// Equal optional texts.
fn opt_text_equal(a: &Option<String>, b: &Option<String>) -> (eq: bool)
    ensures
        eq == (opt_view(*a) == opt_view(*b)),
{
    match (a, b) {
        (Some(x), Some(y)) => text_equal(x, y),
        (None, None) => true,
        _ => false,
    }
}

impl GitRefreshState {
    /// Nothing known yet; no nonce seen.
    pub fn new() -> (state: Self)
        ensures
            state.wf(),
            state@ == (GitRefreshView {
                due: Seq::empty(),
                pending: Seq::empty(),
                cached: Seq::empty(),
                debounce: Seq::empty(),
                active: None,
                active_context: None,
                nonce_seen: u64::MAX,
            }),
    {
        let state = GitRefreshState {
            due: Vec::new(),
            pending: PendingRefreshes::new(),
            cached: Vec::new(),
            debounce: Vec::new(),
            active: None,
            active_context: None,
            nonce_seen: u64::MAX,
        };
        proof {
            assert(ticks_view(state.due@) =~= Seq::empty());
            assert(strings_view(state.cached@) =~= Seq::empty());
        }
        state
    }

    /// No path waits twice.
    pub open spec fn wf(&self) -> bool {
        paths_unique(self@.pending)
    }

    /// The state is well formed exactly when its waiting paths are.
    proof fn lemma_wf(&self)
        ensures
            self.wf() == self.pending.wf(),
    {
    }

    fn forget_unknown(&mut self, known: &[String])
        requires
            old(self).wf(),
        ensures
            final(self).wf(),
            final(self)@ == forget_unknown(old(self)@, strings_view(known@)),
    {
        proof {
            self.lemma_wf();
        }
        self.due = retain_known_ticks(&self.due, known);
        self.pending.retain_known(known);
        self.cached = retain_known_paths(&self.cached, known);
        self.debounce = retain_known_ticks(&self.debounce, known);
    }

    fn switch_active(&mut self, active: Option<String>) -> (r: (bool, GitContextChange))
        requires
            old(self).wf(),
        ensures
            final(self).wf(),
            (r.0, r.1, final(self)@) == switch_active(old(self)@, opt_view(active)),
    {
        proof {
            self.lemma_wf();
        }
        if opt_text_equal(&self.active, &active) {
            return (false, GitContextChange::Unchanged);
        }
        match active {
            Some(p) => {
                if contains_path(self.cached.as_slice(), p.as_str()) {
                    self.active = Some(p.clone());
                    self.active_context = Some(p);
                    (true, GitContextChange::ShowCached)
                } else {
                    mark_pending(&mut self.pending, p.as_str(), PendingRefresh::Immediate);
                    self.active = Some(p);
                    (true, GitContextChange::Loading)
                }
            },
            None => {
                self.active = None;
                self.active_context = None;
                (true, GitContextChange::Cleared)
            },
        }
    }

    fn apply_events(&mut self, events: &[GitRefreshEvent], tick: u64)
        requires
            old(self).wf(),
            tick + debounce_ticks() <= u64::MAX,
        ensures
            final(self).wf(),
            final(self)@ == apply_events(old(self)@, events@, tick),
    {
        let ghost start = self@;
        let mut i: usize = 0;
        proof {
            assert(events@.take(0) =~= Seq::<GitRefreshEvent>::empty());
        }
        while i < events.len()
            invariant
                i <= events@.len(),
                self.wf(),
                tick + debounce_ticks() <= u64::MAX,
                self@ == apply_events(start, events@.take(i as int), tick),
            decreases events.len() - i,
        {
            proof {
                self.lemma_wf();
                assert(events@.take(i + 1).drop_last() =~= events@.take(i as int));
                assert(events@.take(i + 1).last() == events@[i as int]);
            }
            match &events[i] {
                GitRefreshEvent::GitCommandExecuted(p) => {
                    mark_pending(&mut self.pending, p.as_str(), PendingRefresh::Immediate);
                },
                GitRefreshEvent::RepoFsChanged(p) => {
                    let due = tick + ticks_for_ms(GIT_REFRESH_WATCHER_DEBOUNCE_MS);
                    set_tick(&mut self.debounce, p.as_str(), due);
                },
            }
            i = i + 1;
        }
        proof {
            assert(events@.take(i as int) =~= events@);
        }
    }

    fn flush_debounce(&mut self, tick: u64)
        requires
            old(self).wf(),
        ensures
            final(self).wf(),
            final(self)@ == flush_debounce(old(self)@, tick),
    {
        let ghost start = self@;
        let ghost d0 = self@.debounce;
        let mut waiting: Vec<(String, u64)> = Vec::new();
        let mut i: usize = 0;
        proof {
            lemma_filter_take_zero(d0, settled_by(tick));
            lemma_filter_take_zero(d0, waiting_at(tick));
        }
        while i < self.debounce.len()
            invariant
                i <= d0.len(),
                self.wf(),
                ticks_view(self.debounce@) == d0,
                self@.pending == mark_each(start.pending, d0.take(i as int).filter(settled_by(tick)), PendingRefresh::Immediate),
                ticks_view(waiting@) == d0.take(i as int).filter(waiting_at(tick)),
                self@ == (GitRefreshView { pending: self@.pending, ..start }),
            decreases self.debounce.len() - i,
        {
            proof {
                self.lemma_wf();
                lemma_filter_take_step(d0, settled_by(tick), i as int);
                lemma_filter_take_step(d0, waiting_at(tick), i as int);
            }
            if self.debounce[i].1 <= tick {
                let ghost f = d0.take(i as int).filter(settled_by(tick));
                mark_pending(&mut self.pending, self.debounce[i].0.as_str(), PendingRefresh::Immediate);
                proof {
                    assert(f.push(d0[i as int]).drop_last() =~= f);
                }
            } else {
                let ghost old_waiting = ticks_view(waiting@);
                waiting.push((self.debounce[i].0.clone(), self.debounce[i].1));
                proof {
                    assert(ticks_view(waiting@) =~= old_waiting.push(d0[i as int]));
                }
            }
            i = i + 1;
        }
        proof {
            lemma_take_full(d0);
        }
        self.debounce = waiting;
    }

    fn see_nonce(&mut self, nonce: u64)
        requires
            old(self).wf(),
        ensures
            final(self).wf(),
            final(self)@ == see_nonce(old(self)@, nonce),
    {
        proof {
            self.lemma_wf();
        }
        if self.nonce_seen != nonce {
            self.nonce_seen = nonce;
            match &self.active {
                Some(p) => {
                    let path = p.clone();
                    mark_pending(&mut self.pending, path.as_str(), PendingRefresh::Immediate);
                },
                None => {},
            }
        }
    }
}

impl GitRefreshState {
    fn schedule_new(&mut self, known: &[String], tick: u64) -> (intervals: Ghost<Seq<u64>>)
        requires
            old(self).wf(),
            tick + longest_interval_ticks() <= u64::MAX,
        ensures
            final(self).wf(),
            intervals@.len() == known@.len(),
            forall|i: int|
                0 <= i < known@.len() ==> drawn_interval(
                    #[trigger] intervals@[i],
                    old(self)@.active == Some(known@[i]@),
                ),
            final(self)@ == (GitRefreshView {
                due: schedule_new(old(self)@.due, strings_view(known@), tick, intervals@),
                ..old(self)@
            }),
    {
        let ghost start = self@;
        let ghost kv = strings_view(known@);
        let ghost mut ints: Seq<u64> = Seq::empty();
        let mut i: usize = 0;
        proof {
            assert(kv.take(0) =~= Seq::<Seq<char>>::empty());
        }
        while i < known.len()
            invariant
                i <= known@.len(),
                kv == strings_view(known@),
                tick + longest_interval_ticks() <= u64::MAX,
                self.wf(),
                ints.len() == i,
                forall|j: int| 0 <= j < i ==> drawn_interval(#[trigger] ints[j], start.active == Some(known@[j]@)),
                self@ == (GitRefreshView { due: schedule_new(start.due, kv.take(i as int), tick, ints), ..start }),
            decreases known.len() - i,
        {
            proof {
                assert(kv.take(i + 1).drop_last() =~= kv.take(i as int));
                assert(kv.take(i + 1).last() == known@[i as int]@);
            }
            let is_active = is_active_group(&self.active, known[i].as_str());
            let ghost drawn: u64;
            match tick_index(&self.due, known[i].as_str()) {
                Some(_) => {
                    proof {
                        drawn = interval_ticks(is_active, 0);
                        assert(drawn_interval(drawn, is_active)) by {
                            assert(drawn == interval_ticks(is_active, 0));
                        }
                    }
                },
                None => {
                    let interval = ticks_for_jittered_interval(known[i].as_str(), is_active, tick);
                    proof {
                        drawn = interval;
                        lemma_drawn_interval_bound(interval, is_active);
                    }
                    let ghost before = ticks_view(self.due@);
                    self.due.push((known[i].clone(), tick + interval));
                    proof {
                        assert(ticks_view(self.due@) =~= before.push((known@[i as int]@, (tick + interval) as u64)));
                    }
                },
            }
            proof {
                assert(ints.push(drawn).drop_last() =~= ints);
                ints = ints.push(drawn);
            }
            i = i + 1;
        }
        proof {
            assert(kv.take(i as int) =~= kv);
        }
        Ghost(ints)
    }

    fn mark_due(&mut self, known: &[String], tick: u64)
        requires
            old(self).wf(),
        ensures
            final(self).wf(),
            final(self)@ == (GitRefreshView {
                pending: mark_due(old(self)@.pending, old(self)@.due, strings_view(known@), tick),
                ..old(self)@
            }),
    {
        let ghost start = self@;
        let ghost kv = strings_view(known@);
        let mut i: usize = 0;
        proof {
            assert(kv.take(0) =~= Seq::<Seq<char>>::empty());
        }
        while i < known.len()
            invariant
                i <= known@.len(),
                kv == strings_view(known@),
                self.wf(),
                self@ == (GitRefreshView {
                    pending: mark_due(start.pending, start.due, kv.take(i as int), tick),
                    ..start
                }),
            decreases known.len() - i,
        {
            proof {
                self.lemma_wf();
                assert(kv.take(i + 1).drop_last() =~= kv.take(i as int));
                assert(kv.take(i + 1).last() == known@[i as int]@);
            }
            match tick_index(&self.due, known[i].as_str()) {
                Some(j) => {
                    proof {
                        assert(ticks_view(self.due@)[j as int].1 == self.due@[j as int].1);
                    }
                    if tick >= self.due[j].1 {
                        mark_pending(&mut self.pending, known[i].as_str(), PendingRefresh::Scheduled);
                    }
                },
                None => {},
            }
            i = i + 1;
        }
        proof {
            assert(kv.take(i as int) =~= kv);
        }
    }
}

/// One tick of the Git refresh coordinator: forgets the paths of groups
/// that are gone, follows a switch of the active group (showing its cached
/// context or asking for an immediate refresh), takes in the events since
/// the last tick (a Git command asks for an immediate refresh, a watched
/// change one after the debounce delay), asks for an immediate refresh of
/// the active path when the refresh nonce moved, gives each new path a due
/// tick a drawn interval away, marks the paths that are due, and picks the
/// path to refresh (see [`refresh_step`]). The intervals are drawn by
/// [`ticks_for_jittered_interval`], each within its bounds.
pub fn git_refresh_tick(
    state: &mut GitRefreshState,
    known_paths: &[String],
    active_path: Option<String>,
    events: &[GitRefreshEvent],
    refresh_nonce: u64,
    tick: u64,
) -> (action: GitRefreshAction)
    requires
        old(state).wf(),
        tick + longest_interval_ticks() <= u64::MAX,
    ensures
        final(state).wf(),
        exists|intervals: Seq<u64>|
            intervals.len() == known_paths@.len() && (forall|i: int|
                0 <= i < intervals.len() ==> drawn_interval(
                    #[trigger] intervals[i],
                    opt_view(active_path) == Some(known_paths@[i]@),
                )) && (action@, final(state)@) == #[trigger] refresh_step(
                old(state)@,
                strings_view(known_paths@),
                opt_view(active_path),
                events@,
                tick,
                refresh_nonce,
                intervals,
            ),
{
    let ghost start = state@;
    let ghost kv = strings_view(known_paths@);
    let ghost av = opt_view(active_path);
    state.forget_unknown(known_paths);
    let ghost s1 = state@;
    let (active_changed, context) = state.switch_active(active_path);
    let ghost s2 = state@;
    state.apply_events(events, tick);
    state.flush_debounce(tick);
    state.see_nonce(refresh_nonce);
    let ghost s3 = state@;
    let intervals = state.schedule_new(known_paths, tick);
    state.mark_due(known_paths, tick);
    proof {
        state.lemma_wf();
    }
    let active_ref: Option<&str> = match &state.active {
        Some(a) => Some(a.as_str()),
        None => None,
    };
    let refresh = select_next_refresh_path(&state.pending, active_ref);
    let refresh_is_active = match &refresh {
        Some(p) => is_active_group(&state.active, p.as_str()),
        None => false,
    };
    let action = GitRefreshAction { active_changed, context, refresh, refresh_is_active };
    proof {
        lemma_step_parts(start, kv, av, events@, tick, refresh_nonce, intervals@, s1, s2, active_changed, context, s3);
        assert(s3.active == av);
        assert(state@.active == av);
        assert(action@.2 == next_refresh(state@.pending, av));
    }
    action
}

/// Unfolds [`refresh_step`] over the states between its stages.
proof fn lemma_step_parts(
    start: GitRefreshView,
    known: Seq<Seq<char>>,
    active: Option<Seq<char>>,
    events: Seq<GitRefreshEvent>,
    tick: u64,
    nonce: u64,
    intervals: Seq<u64>,
    s1: GitRefreshView,
    s2: GitRefreshView,
    changed: bool,
    context: GitContextChange,
    s3: GitRefreshView,
)
    requires
        s1 == forget_unknown(start, known),
        (changed, context, s2) == switch_active(s1, active),
        s3 == see_nonce(flush_debounce(apply_events(s2, events, tick), tick), nonce),
    ensures
        s3.active == active,
        ({
            let due = schedule_new(s3.due, known, tick, intervals);
            let pending = mark_due(s3.pending, due, known, tick);
            let refresh = next_refresh(pending, active);
            refresh_step(start, known, active, events, tick, nonce, intervals) == (
                (changed, context, refresh, refresh is Some && refresh == active),
                GitRefreshView { due, pending, ..s3 },
            )
        }),
{
    lemma_events_keep_active(s2, events, tick);
}

/// Events leave the active path as it is.
proof fn lemma_events_keep_active(s: GitRefreshView, events: Seq<GitRefreshEvent>, tick: u64)
    ensures
        apply_events(s, events, tick).active == s.active,
        apply_events(s, events, tick).active_context == s.active_context,
    decreases events.len(),
{
    if events.len() > 0 {
        lemma_events_keep_active(s, events.drop_last(), tick);
    }
}

/// Records the refresh of `path` at `tick` (see [`after_refresh`]): its
/// context is cached, it stops waiting, and when it has a due tick the
/// next one is an interval drawn by [`ticks_for_jittered_interval`] away.
/// Returns whether the new context is to be shown.
pub fn git_refresh_done(state: &mut GitRefreshState, path: &str, tick: u64) -> (show: bool)
    requires
        old(state).wf(),
        tick + longest_interval_ticks() <= u64::MAX,
    ensures
        final(state).wf(),
        exists|interval: u64|
            drawn_interval(interval, old(state)@.active == Some(path@)) && (show, final(state)@)
                == #[trigger] after_refresh(old(state)@, path@, tick, interval),
{
    let ghost start = state@;
    proof {
        state.lemma_wf();
    }
    let is_active = is_active_group(&state.active, path);
    let shown = match &state.active_context {
        Some(c) => text_equal(c, &path.to_string()),
        None => false,
    };
    if !contains_path(state.cached.as_slice(), path) {
        let ghost before = strings_view(state.cached@);
        state.cached.push(path.to_string());
        proof {
            assert(strings_view(state.cached@) =~= before.push(path@));
        }
    }
    state.pending.remove(path);
    let ghost mut interval: u64 = interval_ticks(is_active, 0);
    proof {
        assert(drawn_interval(interval, is_active)) by {
            assert(interval == interval_ticks(is_active, 0));
        }
    }
    if tick_index(&state.due, path).is_some() {
        let t = ticks_for_jittered_interval(path, is_active, tick);
        proof {
            lemma_drawn_interval_bound(t, is_active);
            interval = t;
        }
        set_tick(&mut state.due, path, tick + t);
    }
    if is_active {
        state.active_context = Some(path.to_string());
    }
    proof {
        assert((is_active || shown, state@) == after_refresh(start, path@, tick, interval));
    }
    is_active || shown
}

} // verus!
