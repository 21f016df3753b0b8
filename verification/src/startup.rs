//! Order in which terminal sessions are started when the app opens: the
//! visible panes of the active group first, then the rest of the active
//! group, then the other groups.
use vstd::prelude::*;
use crate::app_state::{AppState, AppStateView};
use crate::seqs::{lemma_filter_take_step, lemma_filter_take_zero, lemma_take_full};
use crate::state::{GroupId, Session, SessionId};
use crate::terminal_text::{TerminalEvent, TerminalEventKind};
use crate::workspace::{active_group, center_agents, group_index, group_runner, session_ids};

verus! {

/// History lines restored for the visible sessions of the active group.
pub const ACTIVE_GROUP_STARTUP_HISTORY_LINES: usize = 400;

/// History lines restored for sessions started in the background.
pub const DEFERRED_SESSION_STARTUP_HISTORY_LINES: usize = 80;

/// Deferred sessions started per background tick.
pub const DEFERRED_SESSION_START_BATCH_SIZE: usize = 1;

/// Milliseconds between background startup ticks.
pub const STARTUP_BACKGROUND_TICK_MS: u64 = 120;

/// When a session is started.
#[derive(Debug, Clone, Copy, PartialEq, Eq, Structural)]
pub enum SessionStartupPriority {
    ActiveGroupVisible,
    ActiveGroupDeferred,
    BackgroundDeferred,
}

/// One session to start, with its directory and how much history to load.
#[derive(Debug, Clone)]
pub struct SessionStartupTarget {
    pub session_id: SessionId,
    pub group_id: GroupId,
    pub path: String,
    pub history_line_limit: usize,
    pub priority: SessionStartupPriority,
}

/// Value of a [`SessionStartupTarget`].
pub struct StartupTargetView {
    pub session_id: SessionId,
    pub group_id: GroupId,
    pub path: Seq<char>,
    pub history_line_limit: usize,
    pub priority: SessionStartupPriority,
}

impl View for SessionStartupTarget {
    type V = StartupTargetView;

    open spec fn view(&self) -> StartupTargetView {
        StartupTargetView {
            session_id: self.session_id,
            group_id: self.group_id,
            path: self.path@,
            history_line_limit: self.history_line_limit,
            priority: self.priority,
        }
    }
}

/// Values of a sequence of targets.
pub open spec fn targets_view(targets: Seq<SessionStartupTarget>) -> Seq<StartupTargetView> {
    targets.map_values(|t: SessionStartupTarget| t@)
}

/// Sessions shown in the panes of the active group: its center agents and
/// runner; none without an active group.
pub open spec fn visible_ids(state: AppStateView) -> Seq<SessionId> {
    match active_group(state.workspace) {
        Some(g) => session_ids(center_agents(state.workspace.sessions, g)) + match group_runner(
            state.workspace.sessions,
            g,
        ) {
            Some(r) => seq![r.id],
            None => Seq::<SessionId>::empty(),
        },
        None => Seq::empty(),
    }
}

/// When `s` is started.
pub open spec fn priority_of(state: AppStateView, s: Session) -> SessionStartupPriority {
    if visible_ids(state).contains(s.id) {
        SessionStartupPriority::ActiveGroupVisible
    } else if active_group(state.workspace) == Some(s.group_id) {
        SessionStartupPriority::ActiveGroupDeferred
    } else {
        SessionStartupPriority::BackgroundDeferred
    }
}

/// The target for `s`, whose group has a path.
pub open spec fn target_of(state: AppStateView, s: Session) -> StartupTargetView {
    let p = priority_of(state, s);
    StartupTargetView {
        session_id: s.id,
        group_id: s.group_id,
        path: state.workspace.groups[group_index(state.workspace.groups, s.group_id)].path@,
        history_line_limit: if p == SessionStartupPriority::ActiveGroupVisible {
            ACTIVE_GROUP_STARTUP_HISTORY_LINES
        } else {
            DEFERRED_SESSION_STARTUP_HISTORY_LINES
        },
        priority: p,
    }
}

/// Sessions of a known group started with priority `p`.
pub open spec fn ranked(state: AppStateView, p: SessionStartupPriority) -> spec_fn(Session) -> bool {
    |s: Session| group_index(state.workspace.groups, s.group_id) >= 0 && priority_of(state, s) == p
}

/// Targets of priority `p`, in session order.
pub open spec fn targets_ranked(state: AppStateView, p: SessionStartupPriority) -> Seq<StartupTargetView> {
    state.workspace.sessions.filter(ranked(state, p)).map_values(|s: Session| target_of(state, s))
}

/// Every session of a known group, the visible ones of the active group
/// first, then the rest of the active group, then the other groups, each
/// part in session order.
pub open spec fn startup_order(state: AppStateView) -> Seq<StartupTargetView> {
    targets_ranked(state, SessionStartupPriority::ActiveGroupVisible) + targets_ranked(
        state,
        SessionStartupPriority::ActiveGroupDeferred,
    ) + targets_ranked(state, SessionStartupPriority::BackgroundDeferred)
}

/// Identifiers of the sessions shown in the active group's panes.
pub fn visible_active_group_session_ids(state: &AppState) -> (ids: Vec<SessionId>)
    ensures
        ids@ == visible_ids(state@),
{
    match state.active_group_id() {
        Some(group_id) => state.workspace_session_ids_for_group(group_id),
        None => Vec::new(),
    }
}

fn contains_id(ids: &Vec<SessionId>, id: SessionId) -> (found: bool)
    ensures
        found == ids@.contains(id),
{
    let mut i: usize = 0;
    while i < ids.len()
        invariant
            i <= ids@.len(),
            forall|j: int| 0 <= j < i ==> ids@[j] != id,
        decreases ids.len() - i,
    {
        if ids[i] == id {
            return true;
        }
        i = i + 1;
    }
    false
}

/// Sessions to start, in the order they are started: see [`startup_order`].
pub fn startup_targets(state: &AppState) -> (targets: Vec<SessionStartupTarget>)
    ensures
        targets_view(targets@) == startup_order(state@),
{
    let visible = visible_active_group_session_ids(state);
    let active_group_id = state.active_group_id();
    let sessions = state.sessions();
    let ghost st = state@;
    let ghost f = |s: Session| target_of(st, s);
    let ghost p1 = ranked(st, SessionStartupPriority::ActiveGroupVisible);
    let ghost p2 = ranked(st, SessionStartupPriority::ActiveGroupDeferred);
    let ghost p3 = ranked(st, SessionStartupPriority::BackgroundDeferred);
    let mut immediate: Vec<SessionStartupTarget> = Vec::new();
    let mut active_deferred: Vec<SessionStartupTarget> = Vec::new();
    let mut background: Vec<SessionStartupTarget> = Vec::new();
    proof {
        lemma_filter_take_zero(st.workspace.sessions, p1);
        lemma_filter_take_zero(st.workspace.sessions, p2);
        lemma_filter_take_zero(st.workspace.sessions, p3);
        assert(targets_view(immediate@) =~= Seq::<StartupTargetView>::empty());
        assert(targets_view(active_deferred@) =~= Seq::<StartupTargetView>::empty());
        assert(targets_view(background@) =~= Seq::<StartupTargetView>::empty());
    }
    let mut i: usize = 0;
    while i < sessions.len()
        invariant
            i <= sessions@.len(),
            st == state@,
            sessions@ == st.workspace.sessions,
            visible@ == visible_ids(st),
            active_group_id == active_group(st.workspace),
            f == (|s: Session| target_of(st, s)),
            p1 == ranked(st, SessionStartupPriority::ActiveGroupVisible),
            p2 == ranked(st, SessionStartupPriority::ActiveGroupDeferred),
            p3 == ranked(st, SessionStartupPriority::BackgroundDeferred),
            targets_view(immediate@) == st.workspace.sessions.take(i as int).filter(p1).map_values(f),
            targets_view(active_deferred@) == st.workspace.sessions.take(i as int).filter(p2).map_values(f),
            targets_view(background@) == st.workspace.sessions.take(i as int).filter(p3).map_values(f),
        decreases sessions.len() - i,
    {
        proof {
            lemma_filter_take_step(st.workspace.sessions, p1, i as int);
            lemma_filter_take_step(st.workspace.sessions, p2, i as int);
            lemma_filter_take_step(st.workspace.sessions, p3, i as int);
        }
        let session = &sessions[i];
        let path = match state.group_path(session.group_id) {
            Some(p) => p,
            None => {
                i = i + 1;
                continue;
            },
        };
        let in_view = contains_id(&visible, session.id);
        let priority = if in_view {
            SessionStartupPriority::ActiveGroupVisible
        } else if active_group_id == Some(session.group_id) {
            SessionStartupPriority::ActiveGroupDeferred
        } else {
            SessionStartupPriority::BackgroundDeferred
        };
        let history_line_limit = if in_view {
            ACTIVE_GROUP_STARTUP_HISTORY_LINES
        } else {
            DEFERRED_SESSION_STARTUP_HISTORY_LINES
        };
        let target = SessionStartupTarget {
            session_id: session.id,
            group_id: session.group_id,
            path: path.to_string(),
            history_line_limit,
            priority,
        };
        proof {
            assert(target@ == f(st.workspace.sessions[i as int]));
        }
        match priority {
            SessionStartupPriority::ActiveGroupVisible => {
                proof {
                    assert(targets_view(immediate@.push(target)) =~= targets_view(immediate@).push(target@));
                }
                immediate.push(target);
            },
            SessionStartupPriority::ActiveGroupDeferred => {
                proof {
                    assert(targets_view(active_deferred@.push(target)) =~= targets_view(active_deferred@).push(target@));
                }
                active_deferred.push(target);
            },
            SessionStartupPriority::BackgroundDeferred => {
                proof {
                    assert(targets_view(background@.push(target)) =~= targets_view(background@).push(target@));
                }
                background.push(target);
            },
        }
        i = i + 1;
    }
    proof {
        lemma_take_full(st.workspace.sessions);
    }
    let ghost a = immediate@;
    let ghost b = active_deferred@;
    let ghost c = background@;
    immediate.append(&mut active_deferred);
    immediate.append(&mut background);
    proof {
        assert(targets_view(a + b + c) =~= targets_view(a) + targets_view(b) + targets_view(c));
    }
    immediate
}

/// True when some session not yet started is waiting to be started in the
/// background.
pub fn has_deferred_startup_targets(state: &AppState, started_session_ids: &[SessionId]) -> (pending: bool)
    ensures
        pending == exists|i: int|
            0 <= i < startup_order(state@).len() && !started_session_ids@.contains(
                (#[trigger] startup_order(state@)[i]).session_id,
            ) && startup_order(state@)[i].priority != SessionStartupPriority::ActiveGroupVisible,
{
    let targets = startup_targets(state);
    let ghost order = startup_order(state@);
    let mut i: usize = 0;
    while i < targets.len()
        invariant
            i <= targets@.len(),
            order == startup_order(state@),
            targets_view(targets@) == order,
            forall|j: int|
                0 <= j < i ==> started_session_ids@.contains((#[trigger] order[j]).session_id)
                    || order[j].priority == SessionStartupPriority::ActiveGroupVisible,
        decreases targets.len() - i,
    {
        let target = &targets[i];
        proof {
            assert(order[i as int] == target@);
        }
        let visible = match target.priority {
            SessionStartupPriority::ActiveGroupVisible => true,
            _ => false,
        };
        if !visible && !slice_contains(started_session_ids, target.session_id) {
            return true;
        }
        i = i + 1;
    }
    false
}

fn slice_contains(ids: &[SessionId], id: SessionId) -> (found: bool)
    ensures
        found == ids@.contains(id),
{
    let mut i: usize = 0;
    while i < ids.len()
        invariant
            i <= ids@.len(),
            forall|j: int| 0 <= j < i ==> ids@[j] != id,
        decreases ids.len() - i,
    {
        if ids[i] == id {
            return true;
        }
        i = i + 1;
    }
    false
}

/// Whether a terminal event asks for the visible terminals to be redrawn:
/// a changed snapshot of a session shown in the active group's panes.
pub fn event_needs_refresh(state: &AppState, event: &TerminalEvent) -> (refresh: bool)
    ensures
        refresh == (event.kind == TerminalEventKind::SnapshotChanged && visible_ids(state@).contains(
            event.session_id,
        )),
{
    if event.kind != TerminalEventKind::SnapshotChanged {
        return false;
    }
    let visible = visible_active_group_session_ids(state);
    contains_id(&visible, event.session_id)
}

} // verus!
