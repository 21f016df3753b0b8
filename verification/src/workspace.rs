//! Durable workspace topology: path groups, their terminal sessions, the
//! selected session and the auxiliary panel layout.
use vstd::prelude::*;
use vstd::multiset::Multiset;
use vstd::string::StringExecFns;
use std::path::Path;
use crate::panel_dock::{
    normalized_view, panel_moved_before, panel_moved_to_end, AuxiliaryPanelHost, AuxiliaryPanelKind,
    AuxiliaryPanelLayout, PanelLayoutView,
};
use crate::seqs::{
    first_index, is_first_index, is_last_index, last_index, lemma_filter_all, lemma_filter_take_step, lemma_filter_take_zero,
    lemma_first_index_cases, lemma_first_index_is, lemma_first_index_none, lemma_first_index_push,
    lemma_last_index_is, lemma_last_index_none, lemma_take_full, vec_replace,
};
use crate::state::{
    clamp_group_runner_width_px, spec_clamp_runner_width, GroupId, Session, SessionId, SessionRole,
    SessionStatus, VisibleAgentSlot, GROUP_RUNNER_WIDTH_DEFAULT_PX,
};
use crate::text::{decimal_digits, is_blank, push_decimal, text_equal, trim_seq, trim_string};

verus! {

/// Integer layout controls of one path group: the runner sidebar width.
#[derive(Debug, Clone, Copy, PartialEq, Eq, Structural)]
pub struct GroupLayout {
    pub runner_width_px: i32,
}

impl Default for GroupLayout {
    fn default() -> (layout: Self)
        ensures
            layout.runner_width_px == GROUP_RUNNER_WIDTH_DEFAULT_PX,
    {
        GroupLayout { runner_width_px: GROUP_RUNNER_WIDTH_DEFAULT_PX }
    }
}

impl GroupLayout {
    /// The layout with its width kept in the runner sidebar range.
    pub fn normalized(self) -> (layout: Self)
        ensures
            layout.runner_width_px == spec_clamp_runner_width(self.runner_width_px as int),
    {
        GroupLayout { runner_width_px: clamp_group_runner_width_px(self.runner_width_px) }
    }
}

/// Path-scoped tab group metadata.
#[derive(Debug, Clone)]
pub struct TabGroup {
    pub id: GroupId,
    pub path: String,
    pub color: String,
    pub layout: GroupLayout,
}

/// Text of `Path::file_name` for `path`, when it has a final component.
pub uninterp spec fn path_file_name(path: Seq<char>) -> Option<Seq<char>>;

/// `Path::new(path).file_name()`, as text. The contract names the result.
#[verifier::external_body]
pub(crate) fn file_name_text(path: &str) -> (name: Option<String>)
    ensures
        match name {
            Some(n) => path_file_name(path@) == Some(n@),
            None => path_file_name(path@) is None,
        },
{
    Path::new(path).file_name().and_then(|n| n.to_str()).map(|n| n.to_string())
}

/// Label of a group path: its final component, or the whole path.
pub open spec fn path_label(path: Seq<char>) -> Seq<char> {
    match path_file_name(path) {
        Some(name) => name,
        None => path,
    }
}

impl TabGroup {
    /// Human-friendly label derived from the final path segment.
    pub fn label(&self) -> (label: String)
        ensures
            label@ == path_label(self.path@),
    {
        match file_name_text(self.path.as_str()) {
            Some(name) => name,
            None => self.path.clone(),
        }
    }

    /// A field-for-field copy.
    pub fn duplicate(&self) -> (g: TabGroup)
        ensures
            g == *self,
    {
        TabGroup { id: self.id, path: self.path.clone(), color: self.color.clone(), layout: self.layout }
    }
}

/// Durable workspace topology and selection state.
#[derive(Debug, Clone)]
pub struct WorkspaceState {
    sessions: Vec<Session>,
    groups: Vec<TabGroup>,
    auxiliary_panels: AuxiliaryPanelLayout,
    selected_session: Option<SessionId>,
    next_session_id: SessionId,
    next_group_id: GroupId,
}

/// Abstract contents of a [`WorkspaceState`].
pub struct WorkspaceView {
    pub sessions: Seq<Session>,
    pub groups: Seq<TabGroup>,
    pub panels: PanelLayoutView,
    pub selected: Option<SessionId>,
    pub next_session_id: SessionId,
    pub next_group_id: GroupId,
}

impl View for WorkspaceState {
    type V = WorkspaceView;

    closed spec fn view(&self) -> WorkspaceView {
        WorkspaceView {
            sessions: self.sessions@,
            groups: self.groups@,
            panels: self.auxiliary_panels@,
            selected: self.selected_session,
            next_session_id: self.next_session_id,
            next_group_id: self.next_group_id,
        }
    }
}

/// Test for a session with identifier `id`.
pub open spec fn session_id_is(id: SessionId) -> spec_fn(Session) -> bool {
    |s: Session| s.id == id
}

/// Test for a group with identifier `id`.
pub open spec fn group_id_is(id: GroupId) -> spec_fn(TabGroup) -> bool {
    |g: TabGroup| g.id == id
}

/// Test for a session of group `group_id`.
pub open spec fn in_group(group_id: GroupId) -> spec_fn(Session) -> bool {
    |s: Session| s.group_id == group_id
}

/// Test for a runner session.
pub open spec fn is_runner_session() -> spec_fn(Session) -> bool {
    |s: Session| s.role is Runner
}

/// Test for a session in `status`.
pub open spec fn has_status(status: SessionStatus) -> spec_fn(Session) -> bool {
    |s: Session| s.status == status
}

/// Position of the first session with identifier `id`, or -1.
pub open spec fn session_index(sessions: Seq<Session>, id: SessionId) -> int {
    first_index(sessions, session_id_is(id))
}

/// Position of the first group with identifier `id`, or -1.
pub open spec fn group_index(groups: Seq<TabGroup>, id: GroupId) -> int {
    first_index(groups, group_id_is(id))
}

/// Sessions of group `group_id`, in order.
pub open spec fn group_sessions(sessions: Seq<Session>, group_id: GroupId) -> Seq<Session> {
    sessions.filter(in_group(group_id))
}

/// Identifiers of `sessions`, in order.
pub open spec fn session_ids(sessions: Seq<Session>) -> Seq<SessionId> {
    sessions.map_values(|s: Session| s.id)
}

/// Identifiers of `groups`, in order.
pub open spec fn group_ids(groups: Seq<TabGroup>) -> Seq<GroupId> {
    groups.map_values(|g: TabGroup| g.id)
}

/// `n + 1`, held at `u32::MAX`.
pub open spec fn sat_inc32(n: u32) -> u32 {
    if n == u32::MAX { n } else { (n + 1) as u32 }
}

/// Colors given to groups in turn.
pub open spec fn palette_color(index: int) -> Seq<char> {
    if index == 0 {
        "#f4a261"@
    } else if index == 1 {
        "#2a9d8f"@
    } else if index == 2 {
        "#457b9d"@
    } else if index == 3 {
        "#e76f51"@
    } else if index == 4 {
        "#8ab17d"@
    } else if index == 5 {
        "#e9c46a"@
    } else if index == 6 {
        "#264653"@
    } else {
        "#219ebc"@
    }
}

/// Path stored for a new group: the trimmed path, or `.` when blank.
pub open spec fn normalized_group_path(path: Seq<char>) -> Seq<char> {
    if trim_seq(path).len() == 0 {
        "."@
    } else {
        trim_seq(path)
    }
}

/// Title of an auto-named agent session: `Agent ` and its number with at
/// least two digits.
pub open spec fn agent_title(n: nat) -> Seq<char> {
    "Agent "@ + if n < 10 {
        seq!['0'] + decimal_digits(n)
    } else {
        decimal_digits(n)
    }
}

/// Color string of palette entry `index` (taken modulo the palette size).
fn palette_entry(index: usize) -> (color: String)
    ensures
        color@ == palette_color((index % 8) as int),
{
    let i = index % 8;
    let c = if i == 0 {
        "#f4a261"
    } else if i == 1 {
        "#2a9d8f"
    } else if i == 2 {
        "#457b9d"
    } else if i == 3 {
        "#e76f51"
    } else if i == 4 {
        "#8ab17d"
    } else if i == 5 {
        "#e9c46a"
    } else if i == 6 {
        "#264653"
    } else {
        "#219ebc"
    };
    String::from_str(c)
}

fn first_session_id(sessions: &Vec<Session>) -> (id: Option<SessionId>)
    ensures
        id == if sessions@.len() == 0 {
            None::<SessionId>
        } else {
            Some(sessions@[0].id)
        },
{
    if sessions.len() == 0 {
        None
    } else {
        Some(sessions[0].id)
    }
}

/// Position of the first session with identifier `id`.
fn find_session(sessions: &Vec<Session>, id: SessionId) -> (index: Option<usize>)
    ensures
        match index {
            Some(i) => i == session_index(sessions@, id) && 0 <= i < sessions@.len(),
            None => session_index(sessions@, id) == -1,
        },
{
    let mut i: usize = 0;
    while i < sessions.len()
        invariant
            i <= sessions@.len(),
            forall|j: int| 0 <= j < i ==> !session_id_is(id)(#[trigger] sessions@[j]),
        decreases sessions.len() - i,
    {
        if sessions[i].id == id {
            proof {
                assert(is_first_index(sessions@, session_id_is(id), i as int));
                lemma_first_index_is(sessions@, session_id_is(id), i as int);
            }
            return Some(i);
        }
        i = i + 1;
    }
    proof {
        lemma_first_index_none(sessions@, session_id_is(id));
    }
    None
}

/// Position of the first group with identifier `id`.
fn find_group(groups: &Vec<TabGroup>, id: GroupId) -> (index: Option<usize>)
    ensures
        match index {
            Some(i) => i == group_index(groups@, id) && 0 <= i < groups@.len(),
            None => group_index(groups@, id) == -1,
        },
{
    let mut i: usize = 0;
    while i < groups.len()
        invariant
            i <= groups@.len(),
            forall|j: int| 0 <= j < i ==> !group_id_is(id)(#[trigger] groups@[j]),
        decreases groups.len() - i,
    {
        if groups[i].id == id {
            proof {
                assert(is_first_index(groups@, group_id_is(id), i as int));
                lemma_first_index_is(groups@, group_id_is(id), i as int);
            }
            return Some(i);
        }
        i = i + 1;
    }
    proof {
        lemma_first_index_none(groups@, group_id_is(id));
    }
    None
}

impl Default for WorkspaceState {
    fn default() -> (state: Self)
        ensures
            state@.sessions.len() == 0,
            state@.groups.len() == 0,
            state@.selected is None,
            state@.next_session_id == 1,
            state@.next_group_id == 1,
            state@.panels.wf(),
    {
        WorkspaceState {
            sessions: Vec::new(),
            groups: Vec::new(),
            auxiliary_panels: AuxiliaryPanelLayout::default(),
            selected_session: None,
            next_session_id: 1,
            next_group_id: 1,
        }
    }
}

impl WorkspaceState {
    /// All sessions in insertion order.
    pub fn sessions(&self) -> (sessions: &[Session])
        ensures
            sessions@ == self@.sessions,
    {
        self.sessions.as_slice()
    }

    /// All groups in insertion order.
    pub fn groups(&self) -> (groups: &[TabGroup])
        ensures
            groups@ == self@.groups,
    {
        self.groups.as_slice()
    }

    /// The selected session identifier.
    pub fn selected_session(&self) -> (selected: Option<SessionId>)
        ensures
            selected == self@.selected,
    {
        self.selected_session
    }

    /// Identifiers of all groups, in order.
    pub fn valid_group_ids(&self) -> (ids: Vec<GroupId>)
        ensures
            ids@ == group_ids(self@.groups),
    {
        let mut ids: Vec<GroupId> = Vec::new();
        let mut i: usize = 0;
        while i < self.groups.len()
            invariant
                i <= self.groups@.len(),
                ids@ == group_ids(self.groups@.take(i as int)),
            decreases self.groups.len() - i,
        {
            ids.push(self.groups[i].id);
            proof {
                assert(group_ids(self.groups@.take(i + 1)) =~= group_ids(self.groups@.take(i as int)).push(
                    self.groups@[i as int].id,
                ));
            }
            i = i + 1;
        }
        proof {
            assert(self.groups@.take(i as int) =~= self.groups@);
        }
        ids
    }

    /// Adds a group for `path` (trimmed, `.` when blank) with the next
    /// group identifier and the palette color for that identifier, and
    /// returns the identifier.
    pub fn add_group_with_path(&mut self, path: String) -> (group_id: GroupId)
        ensures
            after_add_group(old(self)@, final(self)@, path, group_id),
    {
        let id = self.next_group_id;
        self.next_group_id = self.next_group_id.saturating_add(1);
        let normalized = if is_blank(path.as_str()) {
            String::from_str(".")
        } else {
            trim_string(path.as_str())
        };
        // Identifier 0 wraps round to the last palette entry.
        let color = if id == 0 {
            palette_entry(7)
        } else {
            palette_entry((id - 1) as usize)
        };
        self.groups.push(TabGroup { id, path: normalized, color, layout: GroupLayout::default() });
        id
    }

    /// Adds a session with `title` and `role` to `group_id`, idle, with the
    /// next session identifier; it becomes the selection when there is
    /// none. Returns its identifier.
    pub fn add_session_with_title_and_role(&mut self, group_id: GroupId, title: String, role: SessionRole) -> (id:
        SessionId)
        ensures
            after_add_session_with_title_and_role(old(self)@, final(self)@, group_id, title, role, id),
    {
        let id = self.next_session_id;
        self.next_session_id = self.next_session_id.saturating_add(1);
        self.sessions.push(Session { id, title, group_id, role, status: SessionStatus::Idle });
        if self.selected_session.is_none() {
            self.selected_session = Some(id);
        }
        id
    }

    /// Adds an agent session named `Agent NN` after its identifier.
    pub fn add_session(&mut self, group_id: GroupId) -> (id: SessionId)
        ensures
            after_add_session(old(self)@, final(self)@, group_id, id),
    {
        let mut title = String::from_str("Agent ");
        if self.next_session_id < 10 {
            title.push('0');
        }
        push_decimal(&mut title, self.next_session_id as u64);
        proof {
            reveal_strlit("Agent ");
            if self.next_session_id < 10 {
                assert(title@ =~= agent_title(self.next_session_id as nat));
            } else {
                assert(title@ =~= agent_title(self.next_session_id as nat));
            }
        }
        let id = self.add_session_with_title_and_role(group_id, title, SessionRole::Agent);
        proof {
            assert(self@.sessions.drop_last() =~= old(self)@.sessions);
        }
        id
    }

    /// Creates a group for `path` with its default sessions: two agents and
    /// a runner. Returns the group and the session identifiers.
    pub fn create_group_with_defaults(&mut self, path: String) -> (created: (GroupId, Vec<SessionId>))
        ensures
            after_create_group_with_defaults(old(self)@, final(self)@, path, created),
    {
        let group_id = self.add_group_with_path(path);
        let ghost mid = self@.sessions;
        let a = self.add_session_with_title_and_role(group_id, String::from_str("Agent A"), SessionRole::Agent);
        let b = self.add_session_with_title_and_role(group_id, String::from_str("Agent B"), SessionRole::Agent);
        let r = self.add_session_with_title_and_role(
            group_id,
            String::from_str("Run / Compile"),
            SessionRole::Runner,
        );
        let ids = vec![a, b, r];
        proof {
            assert(ids@ =~= seq![a, b, r]);
            assert(self@.sessions.take(old(self)@.sessions.len() as int) =~= old(self)@.sessions);
            assert(self@.groups.drop_last() =~= old(self)@.groups);
        }
        (group_id, ids)
    }

    /// Selects `session_id`; false when it already was selected.
    pub fn select_session(&mut self, session_id: SessionId) -> (changed: bool)
        ensures
            after_select_session(old(self)@, final(self)@, session_id, changed),
    {
        if self.selected_session == Some(session_id) {
            return false;
        }
        self.selected_session = Some(session_id);
        true
    }

    /// Moves the first session with `session_id` to the next status;
    /// false when there is none.
    pub fn cycle_session_status(&mut self, session_id: SessionId) -> (changed: bool)
        ensures
            after_cycle_session_status(old(self)@, final(self)@, session_id, changed),
    {
        let i = match find_session(&self.sessions, session_id) {
            Some(i) => i,
            None => return false,
        };
        let mut session = self.sessions[i].duplicate();
        session.status = session.status.next();
        vec_replace(&mut self.sessions, i, session);
        true
    }

    /// Sets the status of the first session with `session_id`; false when
    /// there is none or it already has that status.
    pub fn set_session_status(&mut self, session_id: SessionId, status: SessionStatus) -> (changed: bool)
        ensures
            after_set_session_status(old(self)@, final(self)@, session_id, status, changed),
    {
        let i = match find_session(&self.sessions, session_id) {
            Some(i) => i,
            None => return false,
        };
        if self.sessions[i].status == status {
            return false;
        }
        let mut session = self.sessions[i].duplicate();
        session.status = status;
        vec_replace(&mut self.sessions, i, session);
        true
    }

    /// Renames the first session with `session_id` to `title` trimmed;
    /// false when the trimmed title is empty, the session is missing or
    /// already has that title.
    pub fn rename_session(&mut self, session_id: SessionId, title: String) -> (changed: bool)
        ensures
            after_rename_session(old(self)@, final(self)@, session_id, title, changed),
    {
        let trimmed = trim_string(title.as_str());
        if trimmed.as_str().is_empty() {
            return false;
        }
        let i = match find_session(&self.sessions, session_id) {
            Some(i) => i,
            None => return false,
        };
        if text_equal(&self.sessions[i].title, &trimmed) {
            return false;
        }
        let mut session = self.sessions[i].duplicate();
        session.title = trimmed;
        vec_replace(&mut self.sessions, i, session);
        true
    }

    /// Number of sessions in `status`.
    pub fn session_count_by_status(&self, status: SessionStatus) -> (count: usize)
        ensures
            count == self@.sessions.filter(has_status(status)).len(),
    {
        let ghost s = self.sessions@;
        let mut count: usize = 0;
        let mut i: usize = 0;
        proof {
            lemma_filter_take_zero(s, has_status(status));
        }
        while i < self.sessions.len()
            invariant
                i <= s.len(),
                s == self.sessions@,
                count == s.take(i as int).filter(has_status(status)).len(),
                count <= i,
            decreases self.sessions.len() - i,
        {
            proof {
                lemma_filter_take_step(s, has_status(status), i as int);
            }
            if self.sessions[i].status == status {
                count = count + 1;
            }
            i = i + 1;
        }
        proof {
            lemma_take_full(s);
        }
        count
    }

    /// Path of the first group with `group_id`.
    pub fn group_path(&self, group_id: GroupId) -> (path: Option<&str>)
        ensures
            ({
                let i = group_index(self@.groups, group_id);
                match path {
                    Some(p) => i >= 0 && p@ == self@.groups[i].path@,
                    None => i == -1,
                }
            }),
    {
        match find_group(&self.groups, group_id) {
            Some(i) => Some(self.groups[i].path.as_str()),
            None => None,
        }
    }

    /// Layout of the first group with `group_id`, its width kept in range;
    /// the default layout when there is no such group.
    pub fn group_layout(&self, group_id: GroupId) -> (layout: GroupLayout)
        ensures
            ({
                let i = group_index(self@.groups, group_id);
                layout.runner_width_px == if i >= 0 {
                    spec_clamp_runner_width(self@.groups[i].layout.runner_width_px as int)
                } else {
                    GROUP_RUNNER_WIDTH_DEFAULT_PX as int
                }
            }),
    {
        match find_group(&self.groups, group_id) {
            Some(i) => self.groups[i].layout.normalized(),
            None => GroupLayout::default(),
        }
    }

    /// Sets the runner sidebar width of the first group with `group_id`,
    /// kept in range; false when there is no such group or the kept width
    /// equals the group's current (kept) width.
    pub fn set_group_runner_width_px(&mut self, group_id: GroupId, width: i32) -> (changed: bool)
        ensures
            after_set_group_runner_width(old(self)@, final(self)@, group_id, width, changed),
    {
        let next = clamp_group_runner_width_px(width);
        let i = match find_group(&self.groups, group_id) {
            Some(i) => i,
            None => return false,
        };
        let before = self.groups[i].layout.normalized();
        if before.runner_width_px == next {
            return false;
        }
        let mut group = self.groups[i].duplicate();
        group.layout = GroupLayout { runner_width_px: next };
        vec_replace(&mut self.groups, i, group);
        true
    }

    /// Label of the first group with `group_id`, or `Unknown`.
    pub fn group_label(&self, group_id: GroupId) -> (label: String)
        ensures
            ({
                let i = group_index(self@.groups, group_id);
                label@ == if i >= 0 {
                    path_label(self@.groups[i].path@)
                } else {
                    "Unknown"@
                }
            }),
    {
        match find_group(&self.groups, group_id) {
            Some(i) => self.groups[i].label(),
            None => String::from_str("Unknown"),
        }
    }

    /// Group of the selected session when it exists, else the first group.
    pub fn active_group_id(&self) -> (group_id: Option<GroupId>)
        ensures
            group_id == active_group(self@),
    {
        if let Some(selected) = self.selected_session {
            if let Some(i) = find_session(&self.sessions, selected) {
                return Some(self.sessions[i].group_id);
            }
        }
        if self.groups.len() == 0 {
            None
        } else {
            Some(self.groups[0].id)
        }
    }

    /// Sessions of `group_id`, in order.
    pub fn sessions_in_group(&self, group_id: GroupId) -> (sessions: Vec<Session>)
        ensures
            sessions@ == group_sessions(self@.sessions, group_id),
    {
        let ghost s = self.sessions@;
        let mut out: Vec<Session> = Vec::new();
        let mut i: usize = 0;
        proof {
            lemma_filter_take_zero(s, in_group(group_id));
        }
        while i < self.sessions.len()
            invariant
                i <= s.len(),
                s == self.sessions@,
                out@ == s.take(i as int).filter(in_group(group_id)),
            decreases self.sessions.len() - i,
        {
            proof {
                lemma_filter_take_step(s, in_group(group_id), i as int);
            }
            if self.sessions[i].group_id == group_id {
                out.push(self.sessions[i].duplicate());
            }
            i = i + 1;
        }
        proof {
            lemma_take_full(s);
        }
        out
    }

    /// Identifiers of the sessions of `group_id`, in order.
    pub fn session_ids_in_group(&self, group_id: GroupId) -> (ids: Vec<SessionId>)
        ensures
            ids@ == session_ids(group_sessions(self@.sessions, group_id)),
    {
        let ghost s = self.sessions@;
        let mut out: Vec<SessionId> = Vec::new();
        let mut i: usize = 0;
        proof {
            lemma_filter_take_zero(s, in_group(group_id));
        }
        while i < self.sessions.len()
            invariant
                i <= s.len(),
                s == self.sessions@,
                out@ == session_ids(s.take(i as int).filter(in_group(group_id))),
            decreases self.sessions.len() - i,
        {
            proof {
                lemma_filter_take_step(s, in_group(group_id), i as int);
            }
            if self.sessions[i].group_id == group_id {
                let ghost before = s.take(i as int).filter(in_group(group_id));
                out.push(self.sessions[i].id);
                proof {
                    assert(session_ids(before.push(s[i as int])) =~= session_ids(before).push(s[i as int].id));
                }
            }
            i = i + 1;
        }
        proof {
            lemma_take_full(s);
        }
        out
    }
}

/// Selection after the selected session was removed from group `group_id`:
/// the first remaining session of that group, else the first session.
pub open spec fn fallback_selection(sessions: Seq<Session>, group_id: GroupId) -> Option<SessionId> {
    let j = first_index(sessions, in_group(group_id));
    if j >= 0 {
        Some(sessions[j].id)
    } else if sessions.len() > 0 {
        Some(sessions[0].id)
    } else {
        None
    }
}

/// Sessions after moving `source` before `target`: taken out, then put
/// before the first `target` in its group, or at the end without one.
pub open spec fn moved_before(sessions: Seq<Session>, source: SessionId, target: SessionId) -> Seq<Session> {
    let si = session_index(sessions, source);
    let rest = sessions.remove(si);
    let ti = session_index(rest, target);
    if ti >= 0 {
        rest.insert(ti, Session { group_id: rest[ti].group_id, ..sessions[si] })
    } else {
        rest.push(sessions[si])
    }
}

/// Sessions after moving `source` to the end of group `group_id`: taken
/// out, moved to the group, and put after the group's last session (at the
/// end when the group has none).
pub open spec fn moved_to_group_end(sessions: Seq<Session>, source: SessionId, group_id: GroupId) -> Seq<Session> {
    let si = session_index(sessions, source);
    let rest = sessions.remove(si);
    let last = last_index(rest, in_group(group_id));
    let at = if last >= 0 { last + 1 } else { rest.len() as int };
    rest.insert(at, Session { group_id, ..sessions[si] })
}

/// Position of the last session of `group_id`.
fn find_last_in_group(sessions: &Vec<Session>, group_id: GroupId) -> (index: Option<usize>)
    ensures
        match index {
            Some(i) => i == last_index(sessions@, in_group(group_id)) && 0 <= i < sessions@.len(),
            None => last_index(sessions@, in_group(group_id)) == -1,
        },
{
    let mut i: usize = sessions.len();
    while i > 0
        invariant
            i <= sessions@.len(),
            forall|j: int| i <= j < sessions@.len() ==> !in_group(group_id)(#[trigger] sessions@[j]),
        decreases i,
    {
        if sessions[i - 1].group_id == group_id {
            proof {
                assert(is_last_index(sessions@, in_group(group_id), i - 1));
                lemma_last_index_is(sessions@, in_group(group_id), i - 1);
            }
            return Some(i - 1);
        }
        i = i - 1;
    }
    proof {
        lemma_last_index_none(sessions@, in_group(group_id));
    }
    None
}

impl WorkspaceState {
    /// Removes the first session with `session_id`; false when there is
    /// none. When it was selected, the selection falls back to the first
    /// remaining session of its group, else the first session.
    pub fn remove_session(&mut self, session_id: SessionId) -> (removed: bool)
        ensures
            after_remove_session(old(self)@, final(self)@, session_id, removed),
    {
        let i = match find_session(&self.sessions, session_id) {
            Some(i) => i,
            None => return false,
        };
        let removed = self.sessions.remove(i);
        if self.selected_session == Some(session_id) {
            self.selected_session = match first_in_group(&self.sessions, removed.group_id) {
                Some(j) => Some(self.sessions[j].id),
                None => first_session_id(&self.sessions),
            };
        }
        true
    }

    /// Moves `source_id` before `target_id`, into the target's group; with
    /// no target it goes to the end. False when the two are the same or the
    /// source is missing.
    pub fn move_session_before(&mut self, source_id: SessionId, target_id: SessionId) -> (moved: bool)
        ensures
            after_move_session_before(old(self)@, final(self)@, source_id, target_id, moved),
    {
        if source_id == target_id {
            return false;
        }
        let source_idx = match find_session(&self.sessions, source_id) {
            Some(i) => i,
            None => return false,
        };
        let mut source = self.sessions.remove(source_idx);
        match find_session(&self.sessions, target_id) {
            Some(target_idx) => {
                source.group_id = self.sessions[target_idx].group_id;
                self.sessions.insert(target_idx, source);
            },
            None => {
                self.sessions.push(source);
            },
        }
        true
    }

    /// Moves `source_id` to the end of group `group_id`; false when the
    /// source is missing.
    pub fn move_session_to_group_end(&mut self, source_id: SessionId, group_id: GroupId) -> (moved: bool)
        ensures
            after_move_session_to_group_end(old(self)@, final(self)@, source_id, group_id, moved),
    {
        let source_idx = match find_session(&self.sessions, source_id) {
            Some(i) => i,
            None => return false,
        };
        let mut source = self.sessions.remove(source_idx);
        source.group_id = group_id;
        let n = self.sessions.len();
        let insert_idx = match find_last_in_group(&self.sessions, group_id) {
            Some(i) => i + 1,
            None => n,
        };
        self.sessions.insert(insert_idx, source);
        true
    }
}

/// Position of the first session of `group_id`.
fn first_in_group(sessions: &Vec<Session>, group_id: GroupId) -> (index: Option<usize>)
    ensures
        match index {
            Some(i) => i == first_index(sessions@, in_group(group_id)) && 0 <= i < sessions@.len(),
            None => first_index(sessions@, in_group(group_id)) == -1,
        },
{
    let mut i: usize = 0;
    while i < sessions.len()
        invariant
            i <= sessions@.len(),
            forall|j: int| 0 <= j < i ==> !in_group(group_id)(#[trigger] sessions@[j]),
        decreases sessions.len() - i,
    {
        if sessions[i].group_id == group_id {
            proof {
                assert(is_first_index(sessions@, in_group(group_id), i as int));
                lemma_first_index_is(sessions@, in_group(group_id), i as int);
            }
            return Some(i);
        }
        i = i + 1;
    }
    proof {
        lemma_first_index_none(sessions@, in_group(group_id));
    }
    None
}

/// The first runner among `sessions`, if any.
pub open spec fn first_runner(sessions: Seq<Session>) -> Option<Session> {
    let r = first_index(sessions, is_runner_session());
    if r >= 0 {
        Some(sessions[r])
    } else {
        None
    }
}

/// `sessions` without their first runner.
pub open spec fn without_first_runner(sessions: Seq<Session>) -> Seq<Session> {
    let r = first_index(sessions, is_runner_session());
    if r >= 0 {
        sessions.remove(r)
    } else {
        sessions
    }
}

/// At most the first two of `s`.
pub open spec fn first_two<T>(s: Seq<T>) -> Seq<T> {
    if s.len() <= 2 {
        s
    } else {
        s.take(2)
    }
}

/// Agent panes of a group's center stack: its sessions other than its
/// first runner, at most two.
pub open spec fn center_agents(sessions: Seq<Session>, group_id: GroupId) -> Seq<Session> {
    first_two(without_first_runner(group_sessions(sessions, group_id)))
}

/// The runner pane of a group: its first runner session.
pub open spec fn group_runner(sessions: Seq<Session>, group_id: GroupId) -> Option<Session> {
    first_runner(group_sessions(sessions, group_id))
}

/// Session shown in a center-stack slot of a group: the first agent pane
/// for the top slot, the second (else the first) for the bottom slot.
pub open spec fn slot_session(sessions: Seq<Session>, group_id: GroupId, slot: VisibleAgentSlot) -> Option<
    SessionId,
> {
    let agents = center_agents(sessions, group_id);
    match slot {
        VisibleAgentSlot::Top => if agents.len() > 0 {
            Some(agents[0].id)
        } else {
            None
        },
        VisibleAgentSlot::Bottom => if agents.len() > 1 {
            Some(agents[1].id)
        } else if agents.len() > 0 {
            Some(agents[0].id)
        } else {
            None
        },
    }
}

/// How the runner and agent panes grow when one more group session comes.
proof fn lemma_panes_push(gs: Seq<Session>, x: Session)
    ensures
        first_runner(gs.push(x)) == if first_runner(gs) is Some {
            first_runner(gs)
        } else if x.role is Runner {
            Some(x)
        } else {
            None
        },
        without_first_runner(gs.push(x)) == if first_runner(gs) is None && x.role is Runner {
            without_first_runner(gs)
        } else {
            without_first_runner(gs).push(x)
        },
{
    lemma_first_index_push(gs, is_runner_session(), x);
    lemma_first_index_cases(gs, is_runner_session());
    let r = first_index(gs, is_runner_session());
    if r >= 0 {
        assert(gs.push(x).remove(r) =~= gs.remove(r).push(x));
    } else if x.role is Runner {
        assert(gs.push(x).remove(gs.len() as int) =~= gs);
    }
}

/// Agent panes (at most two) and the runner pane of group `group_id`.
fn group_panes(sessions: &Vec<Session>, group_id: GroupId) -> (panes: (Vec<Session>, Option<Session>))
    ensures
        panes.0@ == center_agents(sessions@, group_id),
        panes.1 == group_runner(sessions@, group_id),
{
    let ghost s = sessions@;
    let mut agents: Vec<Session> = Vec::new();
    let mut runner: Option<Session> = None;
    let mut i: usize = 0;
    proof {
        lemma_filter_take_zero(s, in_group(group_id));
        lemma_first_index_none(Seq::<Session>::empty(), is_runner_session());
        assert(first_two(Seq::<Session>::empty()) =~= Seq::<Session>::empty());
    }
    while i < sessions.len()
        invariant
            i <= s.len(),
            s == sessions@,
            runner == first_runner(s.take(i as int).filter(in_group(group_id))),
            agents@ == first_two(without_first_runner(s.take(i as int).filter(in_group(group_id)))),
        decreases sessions.len() - i,
    {
        let ghost gs = s.take(i as int).filter(in_group(group_id));
        proof {
            lemma_filter_take_step(s, in_group(group_id), i as int);
        }
        if sessions[i].group_id == group_id {
            proof {
                lemma_panes_push(gs, s[i as int]);
            }
            if sessions[i].role.is_runner() && runner.is_none() {
                runner = Some(sessions[i].duplicate());
            } else if agents.len() < 2 {
                agents.push(sessions[i].duplicate());
                proof {
                    assert(first_two(without_first_runner(gs).push(s[i as int])) =~= agents@);
                }
            } else {
                proof {
                    assert(first_two(without_first_runner(gs).push(s[i as int])) =~= first_two(
                        without_first_runner(gs),
                    ));
                }
            }
        }
        i = i + 1;
    }
    proof {
        lemma_take_full(s);
    }
    (agents, runner)
}

impl WorkspaceState {
    /// Session shown in `slot` of the center stack of `group_id`.
    pub fn visible_agent_slot_session_id(&self, group_id: GroupId, slot: VisibleAgentSlot) -> (id: Option<
        SessionId,
    >)
        ensures
            id == slot_session(self@.sessions, group_id, slot),
    {
        let (agents, _) = group_panes(&self.sessions, group_id);
        match slot {
            VisibleAgentSlot::Top => if agents.len() > 0 {
                Some(agents[0].id)
            } else {
                None
            },
            VisibleAgentSlot::Bottom => if agents.len() > 1 {
                Some(agents[1].id)
            } else if agents.len() > 0 {
                Some(agents[0].id)
            } else {
                None
            },
        }
    }

    /// Swaps `source_id` with the session shown in `slot` of its group's
    /// center stack and selects it. False when the source or the slot's
    /// session is missing, or nothing changed.
    pub fn swap_session_with_visible_agent_slot(&mut self, source_id: SessionId, slot: VisibleAgentSlot) -> (changed:
        bool)
        ensures
            after_swap_with_visible_agent_slot(old(self)@, final(self)@, source_id, slot, changed),
    {
        let source_idx = match find_session(&self.sessions, source_id) {
            Some(i) => i,
            None => return false,
        };
        let source_group_id = self.sessions[source_idx].group_id;
        let target_id = match self.visible_agent_slot_session_id(source_group_id, slot) {
            Some(t) => t,
            None => return false,
        };
        let target_idx = match find_session(&self.sessions, target_id) {
            Some(i) => i,
            None => return false,
        };
        let mut changed = false;
        if source_idx != target_idx {
            let a = self.sessions[source_idx].duplicate();
            let b = self.sessions[target_idx].duplicate();
            vec_replace(&mut self.sessions, source_idx, b);
            vec_replace(&mut self.sessions, target_idx, a);
            changed = true;
        }
        if self.selected_session != Some(source_id) {
            self.selected_session = Some(source_id);
            changed = true;
        }
        changed
    }

    /// Center-stack agent sessions of `group_id` and its runner; with no
    /// runner, the last agent pane takes the runner's place.
    pub fn workspace_sessions_for_group(&self, group_id: GroupId) -> (panes: (Vec<Session>, Option<Session>))
        ensures
            ({
                let agents = center_agents(self@.sessions, group_id);
                let runner = group_runner(self@.sessions, group_id);
                if runner is None && agents.len() > 0 {
                    &&& panes.0@ == agents.drop_last()
                    &&& panes.1 == Some(agents.last())
                } else {
                    &&& panes.0@ == agents
                    &&& panes.1 == runner
                }
            }),
    {
        let (mut agents, runner) = group_panes(&self.sessions, group_id);
        if runner.is_none() {
            let popped = agents.pop();
            return (agents, popped);
        }
        (agents, runner)
    }

    /// Identifiers of the center-stack agent sessions of `group_id`,
    /// followed by its runner's when it has one.
    pub fn workspace_session_ids_for_group(&self, group_id: GroupId) -> (ids: Vec<SessionId>)
        ensures
            ids@ == session_ids(center_agents(self@.sessions, group_id)) + match group_runner(
                self@.sessions,
                group_id,
            ) {
                Some(r) => seq![r.id],
                None => Seq::<SessionId>::empty(),
            },
    {
        let (agents, runner) = group_panes(&self.sessions, group_id);
        let mut ids: Vec<SessionId> = Vec::new();
        let mut i: usize = 0;
        while i < agents.len()
            invariant
                i <= agents@.len(),
                ids@ == session_ids(agents@.take(i as int)),
            decreases agents.len() - i,
        {
            ids.push(agents[i].id);
            proof {
                assert(session_ids(agents@.take(i + 1)) =~= session_ids(agents@.take(i as int)).push(
                    agents@[i as int].id,
                ));
            }
            i = i + 1;
        }
        proof {
            assert(agents@.take(i as int) =~= agents@);
        }
        if let Some(r) = runner {
            let ghost before = ids@;
            ids.push(r.id);
            proof {
                assert(ids@ =~= before + seq![r.id]);
            }
        } else {
            proof {
                assert(ids@ =~= ids@ + Seq::<SessionId>::empty());
            }
        }
        ids
    }
}

/// Test for a group other than `group_id`.
pub open spec fn group_id_is_not(group_id: GroupId) -> spec_fn(TabGroup) -> bool {
    |g: TabGroup| g.id != group_id
}

/// Test for a session whose identifier is not among `ids`.
pub open spec fn session_not_among(ids: Seq<SessionId>) -> spec_fn(Session) -> bool {
    |s: Session| !ids.contains(s.id)
}

/// True when `id` is among the group identifiers `ids`.
fn group_ids_contain(ids: &Vec<GroupId>, id: GroupId) -> (found: bool)
    ensures
        found == ids@.contains(id),
{
    let mut i: usize = 0;
    while i < ids.len()
        invariant
            i <= ids@.len(),
            forall|j: int| 0 <= j < i ==> ids@[j] != id,
        decreases ids.len() - i,
    {
        if ids[i] == id {
            return true;
        }
        i = i + 1;
    }
    false
}

/// True when `id` is among `ids`.
fn ids_contain(ids: &Vec<SessionId>, id: SessionId) -> (found: bool)
    ensures
        found == ids@.contains(id),
{
    let mut i: usize = 0;
    while i < ids.len()
        invariant
            i <= ids@.len(),
            forall|j: int| 0 <= j < i ==> ids@[j] != id,
        decreases ids.len() - i,
    {
        if ids[i] == id {
            return true;
        }
        i = i + 1;
    }
    false
}

impl WorkspaceState {
    /// Removes group `group_id` and every session sharing an identifier with
    /// one of its sessions; returns the identifiers of the group's sessions.
    /// When the selection was removed it falls back to the first session.
    /// Nothing changes for a missing group.
    pub fn remove_group(&mut self, group_id: GroupId) -> (removed: Vec<SessionId>)
        ensures
            after_remove_group(old(self)@, final(self)@, group_id, removed),
    {
        if find_group(&self.groups, group_id).is_none() {
            return Vec::new();
        }
        let ghost old_groups = self.groups@;
        let mut kept_groups: Vec<TabGroup> = Vec::new();
        let mut i: usize = 0;
        proof {
            lemma_filter_take_zero(old_groups, group_id_is_not(group_id));
        }
        while i < self.groups.len()
            invariant
                i <= old_groups.len(),
                self.groups@ == old_groups,
                kept_groups@ == old_groups.take(i as int).filter(group_id_is_not(group_id)),
            decreases self.groups.len() - i,
        {
            proof {
                lemma_filter_take_step(old_groups, group_id_is_not(group_id), i as int);
            }
            if self.groups[i].id != group_id {
                kept_groups.push(self.groups[i].duplicate());
            }
            i = i + 1;
        }
        proof {
            lemma_take_full(old_groups);
        }
        self.groups = kept_groups;
        let removed_ids = self.session_ids_in_group(group_id);
        if removed_ids.len() == 0 {
            proof {
                let ids = removed_ids@;
                assert(self.sessions@.filter(session_not_among(ids)) =~= self.sessions@) by {
                    lemma_filter_all(self.sessions@, session_not_among(ids));
                }
            }
            return removed_ids;
        }
        let ghost old_sessions = self.sessions@;
        let ghost keep = session_not_among(removed_ids@);
        let mut kept: Vec<Session> = Vec::new();
        let mut k: usize = 0;
        proof {
            lemma_filter_take_zero(old_sessions, keep);
        }
        while k < self.sessions.len()
            invariant
                k <= old_sessions.len(),
                self.sessions@ == old_sessions,
                keep == session_not_among(removed_ids@),
                kept@ == old_sessions.take(k as int).filter(keep),
            decreases self.sessions.len() - k,
        {
            proof {
                lemma_filter_take_step(old_sessions, keep, k as int);
            }
            if !ids_contain(&removed_ids, self.sessions[k].id) {
                kept.push(self.sessions[k].duplicate());
            }
            k = k + 1;
        }
        proof {
            lemma_take_full(old_sessions);
        }
        self.sessions = kept;
        if let Some(selected) = self.selected_session {
            if ids_contain(&removed_ids, selected) {
                self.selected_session = first_session_id(&self.sessions);
            }
        }
        removed_ids
    }

    /// A copy of the auxiliary panel layout.
    pub fn auxiliary_panel_layout(&self) -> (layout: AuxiliaryPanelLayout)
        ensures
            layout@ == self@.panels,
    {
        self.auxiliary_panels.duplicate()
    }

    /// Active panel of `host`.
    pub fn active_auxiliary_panel(&self, host: AuxiliaryPanelHost) -> (panel: Option<AuxiliaryPanelKind>)
        ensures
            panel == self@.panels.active(host),
    {
        self.auxiliary_panels.active_tab(host)
    }

    /// Ordered tabs of `host`.
    pub fn auxiliary_panel_tabs(&self, host: AuxiliaryPanelHost) -> (tabs: Vec<AuxiliaryPanelKind>)
        ensures
            tabs@ == self@.panels.tabs(host),
    {
        let source = self.auxiliary_panels.tabs(host);
        let mut tabs: Vec<AuxiliaryPanelKind> = Vec::new();
        let mut i: usize = 0;
        while i < source.len()
            invariant
                i <= source@.len(),
                tabs@ == source@.take(i as int),
            decreases source.len() - i,
        {
            tabs.push(source[i]);
            proof {
                assert(tabs@ =~= source@.take(i + 1));
            }
            i = i + 1;
        }
        proof {
            assert(tabs@ =~= source@);
        }
        tabs
    }

    /// Activates `panel` in `host`; false when it is not a tab there or
    /// already active.
    pub fn set_active_auxiliary_panel(&mut self, host: AuxiliaryPanelHost, panel: AuxiliaryPanelKind) -> (changed: bool)
        ensures
            after_set_active_auxiliary_panel(old(self)@, final(self)@, host, panel, changed),
    {
        self.auxiliary_panels.set_active_tab(host, panel)
    }

    /// Moves panel `source` before panel `target`.
    pub fn move_auxiliary_panel_before(&mut self, source: AuxiliaryPanelKind, target: AuxiliaryPanelKind) -> (moved:
        bool)
        ensures
            after_move_auxiliary_panel_before(old(self)@, final(self)@, source, target, moved),
    {
        self.auxiliary_panels.move_panel_before(source, target)
    }

    /// Moves `panel` to the end of `host`.
    pub fn move_auxiliary_panel_to_host_end(&mut self, panel: AuxiliaryPanelKind, host: AuxiliaryPanelHost) -> (moved:
        bool)
        ensures
            after_move_auxiliary_panel_to_host_end(old(self)@, final(self)@, panel, host, moved),
    {
        self.auxiliary_panels.move_panel_to_host_end(panel, host)
    }
}

/// Test for a group whose path is not blank.
pub open spec fn group_has_path() -> spec_fn(TabGroup) -> bool {
    |g: TabGroup| trim_seq(g.path@).len() > 0
}

/// `g` with its runner width kept in range.
pub open spec fn normalized_group(g: TabGroup) -> TabGroup {
    TabGroup { layout: GroupLayout { runner_width_px: spec_clamp_runner_width(g.layout.runner_width_px as int) as i32 }, ..g }
}

/// Groups kept by restore repair: those with a path, their layouts kept in
/// range.
pub open spec fn kept_groups(groups: Seq<TabGroup>) -> Seq<TabGroup> {
    groups.filter(group_has_path()).map_values(|g: TabGroup| normalized_group(g))
}

/// Test for a session of one of the groups `ids`.
pub open spec fn session_in_groups(ids: Seq<GroupId>) -> spec_fn(Session) -> bool {
    |s: Session| ids.contains(s.group_id)
}

/// `n` advanced `k` times, held at `u32::MAX`.
pub open spec fn sat_inc_n(n: u32, k: nat) -> u32
    decreases k,
{
    if k == 0 {
        n
    } else {
        sat_inc32(sat_inc_n(n, (k - 1) as nat))
    }
}

/// The three default sessions of `group_id` (two agents and a runner)
/// stand at `start`, numbered from `first_id`.
pub open spec fn default_sessions_at(sessions: Seq<Session>, start: int, first_id: SessionId, group_id: GroupId) -> bool {
    &&& sessions.len() == start + 3
    &&& forall|k: int| 0 <= k < 3 ==> {
        let s = #[trigger] sessions[start + k];
        &&& s.id == sat_inc_n(first_id, k as nat)
        &&& s.group_id == group_id
        &&& s.status == SessionStatus::Idle
        &&& s.role == if k == 2 { SessionRole::Runner } else { SessionRole::Agent }
        &&& s.title@ == if k == 0 {
            "Agent A"@
        } else if k == 1 {
            "Agent B"@
        } else {
            "Run / Compile"@
        }
    }
}

/// True when some session has identifier `id`.
pub open spec fn has_session(sessions: Seq<Session>, id: SessionId) -> bool {
    exists|i: int| 0 <= i < sessions.len() && (#[trigger] sessions[i]).id == id
}

/// The selection kept when it names a session, else the first session.
pub open spec fn repaired_selection(selected: Option<SessionId>, sessions: Seq<Session>) -> Option<SessionId> {
    match selected {
        Some(sel) => if has_session(sessions, sel) {
            Some(sel)
        } else if sessions.len() > 0 {
            Some(sessions[0].id)
        } else {
            None
        },
        None => if sessions.len() > 0 {
            Some(sessions[0].id)
        } else {
            None
        },
    }
}

/// Largest group identifier, or 0.
pub open spec fn max_group_id(groups: Seq<TabGroup>) -> GroupId
    decreases groups.len(),
{
    if groups.len() == 0 {
        0
    } else {
        let rest = max_group_id(groups.drop_last());
        if groups.last().id > rest {
            groups.last().id
        } else {
            rest
        }
    }
}

/// Largest session identifier, or 0.
pub open spec fn max_session_id(sessions: Seq<Session>) -> SessionId
    decreases sessions.len(),
{
    if sessions.len() == 0 {
        0
    } else {
        let rest = max_session_id(sessions.drop_last());
        if sessions.last().id > rest {
            sessions.last().id
        } else {
            rest
        }
    }
}

/// A next identifier raised past `max_id` (held at `u32::MAX`).
pub open spec fn raised_next_id(next: u32, max_id: u32) -> u32 {
    if next > sat_inc32(max_id) { next } else { sat_inc32(max_id) }
}

impl WorkspaceState {
    /// Repairs a restored workspace. The panel layout is normalized, groups
    /// with a blank path are dropped and layouts kept in range. With no
    /// group left a default `.` group is created and its first session
    /// selected, and the old sessions, whose groups are all gone, are dropped.
    /// Otherwise sessions of unknown groups are dropped (the
    /// first group gets the default sessions when none is left), the
    /// selection falls back to the first session when it names none, and
    /// the next identifiers are raised past every identifier in use.
    pub fn repair_after_restore(&mut self)
        ensures
            after_workspace_repair(old(self)@, final(self)@),
            links_are_valid(final(self)@),
    {
        let panels = self.auxiliary_panels.duplicate();
        self.auxiliary_panels = panels.normalized();
        let ghost old_groups = self.groups@;
        let ghost f = |g: TabGroup| normalized_group(g);
        let mut kept: Vec<TabGroup> = Vec::new();
        let mut i: usize = 0;
        proof {
            lemma_filter_take_zero(old_groups, group_has_path());
        }
        while i < self.groups.len()
            invariant
                i <= old_groups.len(),
                self.groups@ == old_groups,
                f == (|g: TabGroup| normalized_group(g)),
                kept@ == old_groups.take(i as int).filter(group_has_path()).map_values(f),
            decreases self.groups.len() - i,
        {
            proof {
                lemma_filter_take_step(old_groups, group_has_path(), i as int);
            }
            if !is_blank(self.groups[i].path.as_str()) {
                let ghost before = old_groups.take(i as int).filter(group_has_path());
                let mut group = self.groups[i].duplicate();
                group.layout = group.layout.normalized();
                kept.push(group);
                proof {
                    assert(before.push(old_groups[i as int]).map_values(f) =~= before.map_values(f).push(
                        f(old_groups[i as int]),
                    ));
                }
            }
            i = i + 1;
        }
        proof {
            lemma_take_full(old_groups);
        }
        self.groups = kept;
        if self.groups.len() == 0 {
            // With no group left every session is orphaned.
            self.sessions = Vec::new();
            let ghost first = self.next_session_id;
            let (_, ids) = self.create_group_with_defaults(String::from_str("."));
            self.selected_session = Some(ids[0]);
            proof {
                reveal_strlit(".");
                reveal_with_fuel(sat_inc_n, 4);
                assert(!crate::text::is_white_space('.'));
                assert(trim_seq("."@) =~= "."@);
                let g = self@.groups[0].id;
                assert(group_ids(self@.groups)[0] == g);
                assert forall|j: int| 0 <= j < self@.sessions.len() implies group_ids(self@.groups).contains(
                    #[trigger] self@.sessions[j].group_id,
                ) by {
                    assert(self@.sessions[0 + j] == self@.sessions[j]);
                }
                assert(self@.sessions[0 + 0int].id == ids@[0]);
                assert(has_session(self@.sessions, ids@[0]));
            }
            return;
        }
        let valid = self.valid_group_ids();
        let ghost old_sessions = self.sessions@;
        let ghost keep = session_in_groups(valid@);
        let mut kept_sessions: Vec<Session> = Vec::new();
        let mut k: usize = 0;
        proof {
            lemma_filter_take_zero(old_sessions, keep);
        }
        while k < self.sessions.len()
            invariant
                k <= old_sessions.len(),
                self.sessions@ == old_sessions,
                keep == session_in_groups(valid@),
                kept_sessions@ == old_sessions.take(k as int).filter(keep),
            decreases self.sessions.len() - k,
        {
            proof {
                lemma_filter_take_step(old_sessions, keep, k as int);
            }
            if group_ids_contain(&valid, self.sessions[k].group_id) {
                kept_sessions.push(self.sessions[k].duplicate());
            }
            k = k + 1;
        }
        proof {
            lemma_take_full(old_sessions);
        }
        self.sessions = kept_sessions;
        if self.sessions.len() == 0 {
            let fallback_group = self.groups[0].id;
            let first = self.add_session_with_title_and_role(
                fallback_group,
                String::from_str("Agent A"),
                SessionRole::Agent,
            );
            self.add_session_with_title_and_role(fallback_group, String::from_str("Agent B"), SessionRole::Agent);
            self.add_session_with_title_and_role(
                fallback_group,
                String::from_str("Run / Compile"),
                SessionRole::Runner,
            );
            self.selected_session = Some(first);
            proof {
                reveal_with_fuel(sat_inc_n, 4);
            }
        }
        proof {
            assert forall|j: int| 0 <= j < self@.sessions.len() implies group_ids(self@.groups).contains(
                #[trigger] self@.sessions[j].group_id,
            ) by {
                if old_sessions.filter(keep).len() == 0 {
                    assert(group_ids(self@.groups)[0] == self@.groups[0].id);
                } else {
                    old_sessions.lemma_filter_pred(keep, j);
                }
            }
        }
        self.selected_session = self.repaired_selection();
        proof {
            let sessions = self@.sessions;
            let sel = self@.selected->0;
            if !has_session(sessions, sel) {
                assert(sessions[0].id == sessions[0].id);
                assert(has_session(sessions, sessions[0].id));
            }
        }
        let max_group = self.max_group_id();
        let max_session = self.max_session_id();
        let group_floor = max_group.saturating_add(1);
        if self.next_group_id < group_floor {
            self.next_group_id = group_floor;
        }
        let session_floor = max_session.saturating_add(1);
        if self.next_session_id < session_floor {
            self.next_session_id = session_floor;
        }
    }

    fn repaired_selection(&self) -> (selected: Option<SessionId>)
        ensures
            selected == repaired_selection(self@.selected, self@.sessions),
    {
        if let Some(selected) = self.selected_session {
            if let Some(i) = find_session(&self.sessions, selected) {
                return Some(selected);
            }
            proof {
                lemma_first_index_cases(self.sessions@, session_id_is(selected));
                if has_session(self.sessions@, selected) {
                    let w = choose|i: int| 0 <= i < self.sessions@.len() && (#[trigger] self.sessions@[i]).id == selected;
                    assert(session_id_is(selected)(self.sessions@[w]));
                }
            }
        }
        first_session_id(&self.sessions)
    }

    fn max_group_id(&self) -> (m: GroupId)
        ensures
            m == max_group_id(self@.groups),
    {
        let mut m: GroupId = 0;
        let mut i: usize = 0;
        while i < self.groups.len()
            invariant
                i <= self.groups@.len(),
                m == max_group_id(self.groups@.take(i as int)),
            decreases self.groups.len() - i,
        {
            proof {
                assert(self.groups@.take(i + 1).drop_last() =~= self.groups@.take(i as int));
            }
            if self.groups[i].id > m {
                m = self.groups[i].id;
            }
            i = i + 1;
        }
        proof {
            assert(self.groups@.take(i as int) =~= self.groups@);
        }
        m
    }

    fn max_session_id(&self) -> (m: SessionId)
        ensures
            m == max_session_id(self@.sessions),
    {
        let mut m: SessionId = 0;
        let mut i: usize = 0;
        while i < self.sessions.len()
            invariant
                i <= self.sessions@.len(),
                m == max_session_id(self.sessions@.take(i as int)),
            decreases self.sessions.len() - i,
        {
            proof {
                assert(self.sessions@.take(i + 1).drop_last() =~= self.sessions@.take(i as int));
            }
            if self.sessions[i].id > m {
                m = self.sessions[i].id;
            }
            i = i + 1;
        }
        proof {
            assert(self.sessions@.take(i as int) =~= self.sessions@);
        }
        m
    }
}

/// Every group a repair leaves behind has a path and a layout in range.
proof fn lemma_repaired_groups_settled(first: WorkspaceView, once: WorkspaceView)
    requires
        after_workspace_repair(first, once),
    ensures
        forall|i: int|
            0 <= i < once.groups.len() ==> group_has_path()(#[trigger] once.groups[i]) && normalized_group(
                once.groups[i],
            ) == once.groups[i],
{
    let kept = kept_groups(first.groups);
    if kept.len() == 0 {
        reveal_strlit(".");
        assert(!crate::text::is_white_space('.'));
        assert(trim_seq("."@) =~= "."@);
        assert forall|i: int| 0 <= i < once.groups.len() implies group_has_path()(#[trigger] once.groups[i])
            && normalized_group(once.groups[i]) == once.groups[i] by {
            assert(i == 0);
            assert(once.groups[0].path@ == "."@);
        }
    } else {
        let filtered = first.groups.filter(group_has_path());
        assert forall|i: int| 0 <= i < once.groups.len() implies group_has_path()(#[trigger] once.groups[i])
            && normalized_group(once.groups[i]) == once.groups[i] by {
            first.groups.lemma_filter_pred(group_has_path(), i);
            assert(once.groups[i] == normalized_group(filtered[i]));
        }
    }
}

/// A second restore repair changes nothing: what a repair leaves behind is
/// already repaired.
pub proof fn lemma_workspace_repair_idempotent(first: WorkspaceView, once: WorkspaceView, twice: WorkspaceView)
    requires
        after_workspace_repair(first, once),
        links_are_valid(once),
        after_workspace_repair(once, twice),
    ensures
        twice == once,
{
    crate::panel_dock::lemma_normalized_fixes_wf(once.panels);
    lemma_repaired_groups_settled(first, once);
    lemma_filter_all(once.groups, group_has_path());
    assert(once.groups.map_values(|g: TabGroup| normalized_group(g)) =~= once.groups);
    assert(kept_groups(once.groups) == once.groups);
    lemma_filter_all(once.sessions, session_in_groups(group_ids(once.groups)));
    assert(twice.groups == once.groups);
    assert(twice.sessions == once.sessions);
    let kept = kept_groups(first.groups);
    if kept.len() == 0 {
        reveal_with_fuel(max_group_id, 2);
        reveal_with_fuel(max_session_id, 4);
        reveal_with_fuel(sat_inc_n, 4);
        assert(once.groups.drop_last() =~= Seq::<TabGroup>::empty());
        let s0 = once.sessions[0 + 0int];
        let s1 = once.sessions[0 + 1int];
        let s2 = once.sessions[0 + 2int];
        assert(once.sessions.drop_last().drop_last().drop_last() =~= Seq::<Session>::empty());
        assert(once.sessions.drop_last().drop_last().last() == s0);
        assert(once.sessions.drop_last().last() == s1);
        assert(once.sessions.last() == s2);
    }
}

/// Group of the selected session when it exists, else the first group.
pub open spec fn active_group(w: WorkspaceView) -> Option<GroupId> {
    match w.selected {
        Some(sel) => if session_index(w.sessions, sel) >= 0 {
            Some(w.sessions[session_index(w.sessions, sel)].group_id)
        } else if w.groups.len() > 0 {
            Some(w.groups[0].id)
        } else {
            None
        },
        None => if w.groups.len() > 0 {
            Some(w.groups[0].id)
        } else {
            None
        },
    }
}


/// What `add_group_with_path` leaves behind: the clauses of its contract, over the
/// state `before` and `after` the call, its arguments and its result.
pub open spec fn after_add_group(before: WorkspaceView, after: WorkspaceView, path: String, group_id: GroupId) -> bool {
    &&& group_id == before.next_group_id
    &&& after.next_group_id == sat_inc32(before.next_group_id)
    &&& after.groups == before.groups.push(
            TabGroup {
                id: group_id,
                path: after.groups.last().path,
                color: after.groups.last().color,
                layout: GroupLayout { runner_width_px: GROUP_RUNNER_WIDTH_DEFAULT_PX },
            },
        )
    &&& after.groups.last().path@ == normalized_group_path(path@)
    &&& after.groups.last().color@ == palette_color(((group_id - 1) % 8) as int)
    &&& after.sessions == before.sessions
    &&& after.selected == before.selected
    &&& after.next_session_id == before.next_session_id
    &&& after.panels == before.panels
}

/// What `add_session_with_title_and_role` leaves behind: the clauses of its contract, over the
/// state `before` and `after` the call, its arguments and its result.
pub open spec fn after_add_session_with_title_and_role(before: WorkspaceView, after: WorkspaceView, group_id: GroupId, title: String, role: SessionRole, id: SessionId) -> bool {
    &&& id == before.next_session_id
    &&& after.next_session_id == sat_inc32(before.next_session_id)
    &&& after.sessions == before.sessions.push(
            Session { id, title, group_id, role, status: SessionStatus::Idle },
        )
    &&& after.selected == if before.selected is None {
            Some(id)
        } else {
            before.selected
        }
    &&& after.groups == before.groups
    &&& after.next_group_id == before.next_group_id
    &&& after.panels == before.panels
}

/// What `add_session` leaves behind: the clauses of its contract, over the
/// state `before` and `after` the call, its arguments and its result.
pub open spec fn after_add_session(before: WorkspaceView, after: WorkspaceView, group_id: GroupId, id: SessionId) -> bool {
    &&& id == before.next_session_id
    &&& after.next_session_id == sat_inc32(before.next_session_id)
    &&& after.sessions.len() == before.sessions.len() + 1
    &&& after.sessions.drop_last() == before.sessions
    &&& after.sessions.last().id == id
    &&& after.sessions.last().title@ == agent_title(id as nat)
    &&& after.sessions.last().group_id == group_id
    &&& after.sessions.last().role == SessionRole::Agent
    &&& after.sessions.last().status == SessionStatus::Idle
    &&& after.selected == if before.selected is None {
            Some(id)
        } else {
            before.selected
        }
    &&& after.groups == before.groups
    &&& after.next_group_id == before.next_group_id
    &&& after.panels == before.panels
}

/// What `create_group_with_defaults` leaves behind: the clauses of its contract, over the
/// state `before` and `after` the call, its arguments and its result.
pub open spec fn after_create_group_with_defaults(before: WorkspaceView, after: WorkspaceView, path: String, created: (GroupId, Vec<SessionId>)) -> bool {
    &&& created.0 == before.next_group_id
    &&& after.next_group_id == sat_inc32(before.next_group_id)
    &&& after.groups.len() == before.groups.len() + 1
    &&& after.groups.drop_last() == before.groups
    &&& after.groups.last().id == created.0
    &&& after.groups.last().path@ == normalized_group_path(path@)
    &&& after.groups.last().color@ == palette_color(((created.0 - 1) % 8) as int)
    &&& after.groups.last().layout.runner_width_px == GROUP_RUNNER_WIDTH_DEFAULT_PX
    &&& created.1@.len() == 3
    &&& after.sessions.len() == before.sessions.len() + 3
    &&& after.sessions.take(before.sessions.len() as int) == before.sessions
    &&& forall|k: int| 0 <= k < 3 ==> {
            let s = #[trigger] after.sessions[before.sessions.len() + k];
            &&& s.id == created.1@[k]
            &&& s.group_id == created.0
            &&& s.status == SessionStatus::Idle
            &&& s.role == if k == 2 { SessionRole::Runner } else { SessionRole::Agent }
            &&& s.title@ == if k == 0 {
                "Agent A"@
            } else if k == 1 {
                "Agent B"@
            } else {
                "Run / Compile"@
            }
        }
    &&& created.1@[0] == before.next_session_id
    &&& created.1@[1] == sat_inc32(created.1@[0])
    &&& created.1@[2] == sat_inc32(created.1@[1])
    &&& after.next_session_id == sat_inc32(created.1@[2])
    &&& after.selected == if before.selected is None {
            Some(created.1@[0])
        } else {
            before.selected
        }
    &&& after.panels == before.panels
}

/// What `select_session` leaves behind: the clauses of its contract, over the
/// state `before` and `after` the call, its arguments and its result.
pub open spec fn after_select_session(before: WorkspaceView, after: WorkspaceView, session_id: SessionId, changed: bool) -> bool {
    &&& changed == (before.selected != Some(session_id))
    &&& after.selected == Some(session_id)
    &&& after.sessions == before.sessions
    &&& after.groups == before.groups
    &&& after.next_session_id == before.next_session_id
    &&& after.next_group_id == before.next_group_id
    &&& after.panels == before.panels
}

/// What `cycle_session_status` leaves behind: the clauses of its contract, over the
/// state `before` and `after` the call, its arguments and its result.
pub open spec fn after_cycle_session_status(before: WorkspaceView, after: WorkspaceView, session_id: SessionId, changed: bool) -> bool {
    &&& ({
            let i = session_index(before.sessions, session_id);
            &&& changed == (i >= 0)
            &&& after.sessions == if i >= 0 {
                before.sessions.update(
                    i,
                    Session { status: before.sessions[i].status.spec_next(), ..before.sessions[i] },
                )
            } else {
                before.sessions
            }
        })
    &&& after.groups == before.groups
    &&& after.selected == before.selected
    &&& after.next_session_id == before.next_session_id
    &&& after.next_group_id == before.next_group_id
    &&& after.panels == before.panels
}

/// What `set_session_status` leaves behind: the clauses of its contract, over the
/// state `before` and `after` the call, its arguments and its result.
pub open spec fn after_set_session_status(before: WorkspaceView, after: WorkspaceView, session_id: SessionId, status: SessionStatus, changed: bool) -> bool {
    &&& ({
            let i = session_index(before.sessions, session_id);
            &&& changed == (i >= 0 && before.sessions[i].status != status)
            &&& after.sessions == if changed {
                before.sessions.update(i, Session { status, ..before.sessions[i] })
            } else {
                before.sessions
            }
        })
    &&& after.groups == before.groups
    &&& after.selected == before.selected
    &&& after.next_session_id == before.next_session_id
    &&& after.next_group_id == before.next_group_id
    &&& after.panels == before.panels
}

/// What `rename_session` leaves behind: the clauses of its contract, over the
/// state `before` and `after` the call, its arguments and its result.
pub open spec fn after_rename_session(before: WorkspaceView, after: WorkspaceView, session_id: SessionId, title: String, changed: bool) -> bool {
    &&& ({
            let i = session_index(before.sessions, session_id);
            let trimmed = trim_seq(title@);
            &&& changed == (trimmed.len() > 0 && i >= 0 && before.sessions[i].title@ != trimmed)
            &&& if changed {
                &&& after.sessions.len() == before.sessions.len()
                &&& after.sessions[i].title@ == trimmed
                &&& after.sessions == before.sessions.update(
                    i,
                    Session { title: after.sessions[i].title, ..before.sessions[i] },
                )
            } else {
                after.sessions == before.sessions
            }
        })
    &&& after.groups == before.groups
    &&& after.selected == before.selected
    &&& after.next_session_id == before.next_session_id
    &&& after.next_group_id == before.next_group_id
    &&& after.panels == before.panels
}

/// What `set_group_runner_width_px` leaves behind: the clauses of its contract, over the
/// state `before` and `after` the call, its arguments and its result.
pub open spec fn after_set_group_runner_width(before: WorkspaceView, after: WorkspaceView, group_id: GroupId, width: i32, changed: bool) -> bool {
    &&& ({
            let i = group_index(before.groups, group_id);
            let next = spec_clamp_runner_width(width as int);
            &&& changed == (i >= 0 && spec_clamp_runner_width(
                before.groups[i].layout.runner_width_px as int,
            ) != next)
            &&& after.groups == if changed {
                before.groups.update(
                    i,
                    TabGroup {
                        layout: GroupLayout { runner_width_px: next as i32 },
                        ..before.groups[i]
                    },
                )
            } else {
                before.groups
            }
        })
    &&& after.sessions == before.sessions
    &&& after.selected == before.selected
    &&& after.next_session_id == before.next_session_id
    &&& after.next_group_id == before.next_group_id
    &&& after.panels == before.panels
}

/// What `remove_session` leaves behind: the clauses of its contract, over the
/// state `before` and `after` the call, its arguments and its result.
pub open spec fn after_remove_session(before: WorkspaceView, after: WorkspaceView, session_id: SessionId, removed: bool) -> bool {
    &&& ({
            let i = session_index(before.sessions, session_id);
            &&& removed == (i >= 0)
            &&& after.sessions == if i >= 0 {
                before.sessions.remove(i)
            } else {
                before.sessions
            }
            &&& after.selected == if i >= 0 && before.selected == Some(session_id) {
                fallback_selection(before.sessions.remove(i), before.sessions[i].group_id)
            } else {
                before.selected
            }
        })
    &&& after.groups == before.groups
    &&& after.next_session_id == before.next_session_id
    &&& after.next_group_id == before.next_group_id
    &&& after.panels == before.panels
}

/// What `move_session_before` leaves behind: the clauses of its contract, over the
/// state `before` and `after` the call, its arguments and its result.
pub open spec fn after_move_session_before(before: WorkspaceView, after: WorkspaceView, source_id: SessionId, target_id: SessionId, moved: bool) -> bool {
    &&& moved == (source_id != target_id && session_index(before.sessions, source_id) >= 0)
    &&& after.sessions == if moved {
            moved_before(before.sessions, source_id, target_id)
        } else {
            before.sessions
        }
    &&& after.groups == before.groups
    &&& after.selected == before.selected
    &&& after.next_session_id == before.next_session_id
    &&& after.next_group_id == before.next_group_id
    &&& after.panels == before.panels
}

/// What `move_session_to_group_end` leaves behind: the clauses of its contract, over the
/// state `before` and `after` the call, its arguments and its result.
pub open spec fn after_move_session_to_group_end(before: WorkspaceView, after: WorkspaceView, source_id: SessionId, group_id: GroupId, moved: bool) -> bool {
    &&& moved == (session_index(before.sessions, source_id) >= 0)
    &&& after.sessions == if moved {
            moved_to_group_end(before.sessions, source_id, group_id)
        } else {
            before.sessions
        }
    &&& after.groups == before.groups
    &&& after.selected == before.selected
    &&& after.next_session_id == before.next_session_id
    &&& after.next_group_id == before.next_group_id
    &&& after.panels == before.panels
}

/// What `swap_session_with_visible_agent_slot` leaves behind: the clauses of its contract, over the
/// state `before` and `after` the call, its arguments and its result.
pub open spec fn after_swap_with_visible_agent_slot(before: WorkspaceView, after: WorkspaceView, source_id: SessionId, slot: VisibleAgentSlot, changed: bool) -> bool {
    &&& ({
            let s = before.sessions;
            let si = session_index(s, source_id);
            let target = if si >= 0 {
                slot_session(s, s[si].group_id, slot)
            } else {
                None
            };
            let ti = match target {
                Some(t) => session_index(s, t),
                None => -1,
            };
            if si >= 0 && ti >= 0 {
                &&& after.sessions == if si != ti {
                    s.update(si, s[ti]).update(ti, s[si])
                } else {
                    s
                }
                &&& after.selected == Some(source_id)
                &&& changed == (si != ti || before.selected != Some(source_id))
            } else {
                &&& after.sessions == s
                &&& after.selected == before.selected
                &&& !changed
            }
        })
    &&& after.groups == before.groups
    &&& after.next_session_id == before.next_session_id
    &&& after.next_group_id == before.next_group_id
    &&& after.panels == before.panels
}

/// What `remove_group` leaves behind: the clauses of its contract, over the
/// state `before` and `after` the call, its arguments and its result.
pub open spec fn after_remove_group(before: WorkspaceView, after: WorkspaceView, group_id: GroupId, removed: Vec<SessionId>) -> bool {
    &&& ({
            let exists = group_index(before.groups, group_id) >= 0;
            let ids = session_ids(group_sessions(before.sessions, group_id));
            if exists {
                &&& removed@ == ids
                &&& after.groups == before.groups.filter(group_id_is_not(group_id))
                &&& after.sessions == before.sessions.filter(session_not_among(ids))
                &&& after.selected == match before.selected {
                    Some(sel) => if ids.contains(sel) {
                        if after.sessions.len() > 0 {
                            Some(after.sessions[0].id)
                        } else {
                            None
                        }
                    } else {
                        before.selected
                    },
                    None => None,
                }
            } else {
                &&& removed@.len() == 0
                &&& after.groups == before.groups
                &&& after.sessions == before.sessions
                &&& after.selected == before.selected
            }
        })
    &&& after.next_session_id == before.next_session_id
    &&& after.next_group_id == before.next_group_id
    &&& after.panels == before.panels
}

/// What `set_active_auxiliary_panel` leaves behind: the clauses of its contract, over the
/// state `before` and `after` the call, its arguments and its result.
pub open spec fn after_set_active_auxiliary_panel(before: WorkspaceView, after: WorkspaceView, host: AuxiliaryPanelHost, panel: AuxiliaryPanelKind, changed: bool) -> bool {
    &&& changed == (before.panels.tabs(host).contains(panel) && before.panels.active(host) != Some(
            panel,
        ))
    &&& after.panels == if changed {
            before.panels.with_active(host, Some(panel))
        } else {
            before.panels
        }
    &&& before.panels.wf() ==> after.panels.wf()
    &&& after.sessions == before.sessions
    &&& after.groups == before.groups
    &&& after.selected == before.selected
    &&& after.next_session_id == before.next_session_id
    &&& after.next_group_id == before.next_group_id
}

/// What `move_auxiliary_panel_before` leaves behind: the clauses of its contract, over the
/// state `before` and `after` the call, its arguments and its result.
pub open spec fn after_move_auxiliary_panel_before(before: WorkspaceView, after: WorkspaceView, source: AuxiliaryPanelKind, target: AuxiliaryPanelKind, moved: bool) -> bool {
    &&& moved == (source != target && before.panels.host_of(source) is Some
            && before.panels.host_of(target) is Some)
    &&& after.panels == if moved {
            panel_moved_before(before.panels, source, target)
        } else {
            before.panels
        }
    &&& before.panels.wf() ==> after.panels.wf()
    &&& after.sessions == before.sessions
    &&& after.groups == before.groups
    &&& after.selected == before.selected
    &&& after.next_session_id == before.next_session_id
    &&& after.next_group_id == before.next_group_id
}

/// What `move_auxiliary_panel_to_host_end` leaves behind: the clauses of its contract, over the
/// state `before` and `after` the call, its arguments and its result.
pub open spec fn after_move_auxiliary_panel_to_host_end(before: WorkspaceView, after: WorkspaceView, panel: AuxiliaryPanelKind, host: AuxiliaryPanelHost, moved: bool) -> bool {
    &&& moved == (before.panels.host_of(panel) is Some && !(before.panels.host_of(panel) == Some(
            host,
        ) && before.panels.tabs(host).len() > 0 && before.panels.tabs(host).last() == panel))
    &&& after.panels == if moved {
            panel_moved_to_end(before.panels, panel, host)
        } else {
            before.panels
        }
    &&& before.panels.wf() ==> after.panels.wf()
    &&& after.sessions == before.sessions
    &&& after.groups == before.groups
    &&& after.selected == before.selected
    &&& after.next_session_id == before.next_session_id
    &&& after.next_group_id == before.next_group_id
}

/// Every session belongs to a group that exists, there is at least one
/// session, and the selection names one of them.
pub open spec fn links_are_valid(w: WorkspaceView) -> bool {
    &&& w.groups.len() > 0
    &&& w.sessions.len() > 0
    &&& forall|i: int| 0 <= i < w.sessions.len() ==> group_ids(w.groups).contains(#[trigger] w.sessions[i].group_id)
    &&& w.selected matches Some(sel) && has_session(w.sessions, sel)
}

/// What `repair_after_restore` leaves behind: the clauses of its contract, over the
/// state `before` and `after` the call and its arguments.
pub open spec fn after_workspace_repair(before: WorkspaceView, after: WorkspaceView) -> bool {
    &&& after.panels == normalized_view(before.panels)
    &&& after.panels.wf()
    &&& ({
            let kept = kept_groups(before.groups);
            if kept.len() == 0 {
                &&& after.groups.len() == 1
                &&& after.groups[0].id == before.next_group_id
                &&& after.groups[0].path@ == "."@
                &&& after.groups[0].color@ == palette_color(((before.next_group_id - 1) % 8) as int)
                &&& after.groups[0].layout.runner_width_px == GROUP_RUNNER_WIDTH_DEFAULT_PX
                &&& default_sessions_at(after.sessions, 0, before.next_session_id, before.next_group_id)
                &&& after.selected == Some(before.next_session_id)
                &&& after.next_group_id == sat_inc32(before.next_group_id)
                &&& after.next_session_id == sat_inc_n(before.next_session_id, 3)
            } else {
                let kept_sessions = before.sessions.filter(session_in_groups(group_ids(kept)));
                let seeded = kept_sessions.len() == 0;
                &&& after.groups == kept
                &&& if seeded {
                    default_sessions_at(after.sessions, 0, before.next_session_id, kept[0].id)
                } else {
                    after.sessions == kept_sessions
                }
                &&& after.selected == repaired_selection(
                    if seeded {
                        Some(before.next_session_id)
                    } else {
                        before.selected
                    },
                    after.sessions,
                )
                &&& after.next_group_id == raised_next_id(before.next_group_id, max_group_id(kept))
                &&& after.next_session_id == raised_next_id(
                    if seeded {
                        sat_inc_n(before.next_session_id, 3)
                    } else {
                        before.next_session_id
                    },
                    max_session_id(after.sessions),
                )
            }
        })
}

/// Filtering keeps nothing when no element passes.
proof fn lemma_filter_none(s: Seq<Session>, p: spec_fn(Session) -> bool)
    requires
        forall|i: int| 0 <= i < s.len() ==> !p(#[trigger] s[i]),
    ensures
        s.filter(p) == Seq::<Session>::empty(),
    decreases s.len(),
{
    reveal_with_fuel(Seq::filter, 1);
    if s.len() > 0 {
        assert forall|i: int| 0 <= i < s.drop_last().len() implies !p(#[trigger] s.drop_last()[i]) by {
            assert(s.drop_last()[i] == s[i]);
        }
        lemma_filter_none(s.drop_last(), p);
        assert(!p(s.last()));
    }
}

/// A new group, whose identifier no session held before, shows its two
/// default agents in the center stack and its default runner in the run
/// pane, in the order they were created.
pub proof fn lemma_default_group_panes(
    before: WorkspaceView,
    after: WorkspaceView,
    path: String,
    created: (GroupId, Vec<SessionId>),
)
    requires
        after_create_group_with_defaults(before, after, path, created),
        forall|i: int| 0 <= i < before.sessions.len() ==> (#[trigger] before.sessions[i]).group_id != created.0,
    ensures
        session_ids(center_agents(after.sessions, created.0)) == created.1@.take(2),
        group_runner(after.sessions, created.0) matches Some(r) && r.id == created.1@[2],
{
    let n = before.sessions.len() as int;
    let g = created.0;
    let tail = after.sessions.subrange(n, n + 3);
    assert(after.sessions =~= before.sessions + tail) by {
        assert(after.sessions.take(n) == before.sessions);
        assert forall|i: int| 0 <= i < n implies after.sessions[i] == before.sessions[i] by {
            assert(after.sessions.take(n)[i] == after.sessions[i]);
        }
    }
    let s0 = after.sessions[n + 0];
    let s1 = after.sessions[n + 1];
    let s2 = after.sessions[n + 2];
    assert(tail =~= seq![s0, s1, s2]);
    Seq::filter_distributes_over_add(before.sessions, tail, in_group(g));
    let pre = before.sessions.filter(in_group(g));
    lemma_filter_none(before.sessions, in_group(g));
    assert(pre =~= Seq::<Session>::empty());
    reveal_with_fuel(Seq::filter, 4);
    assert(seq![s0, s1, s2].filter(in_group(g)) =~= seq![s0, s1, s2]);
    let gs = group_sessions(after.sessions, g);
    assert(gs =~= seq![s0, s1, s2]);
    lemma_first_index_is(gs, is_runner_session(), 2);
    assert(without_first_runner(gs) =~= seq![s0, s1]);
    assert(center_agents(after.sessions, g) =~= seq![s0, s1]);
    assert(session_ids(seq![s0, s1]) =~= created.1@.take(2));
}

/// The selection names a session that exists, or nothing.
pub open spec fn selection_valid(w: WorkspaceView) -> bool {
    match w.selected {
        None => true,
        Some(id) => exists|i: int| 0 <= i < w.sessions.len() && (#[trigger] w.sessions[i]).id == id,
    }
}

/// Removing a session never leaves the selection on a session that is gone.
pub proof fn lemma_remove_session_keeps_selection_valid(
    before: WorkspaceView,
    after: WorkspaceView,
    session_id: SessionId,
    removed: bool,
)
    requires
        after_remove_session(before, after, session_id, removed),
        selection_valid(before),
    ensures
        selection_valid(after),
{
    let i = session_index(before.sessions, session_id);
    if i >= 0 {
        lemma_first_index_cases(before.sessions, session_id_is(session_id));
        let rest = before.sessions.remove(i);
        if before.selected == Some(session_id) {
            let g = before.sessions[i].group_id;
            let j = first_index(rest, in_group(g));
            lemma_first_index_cases(rest, in_group(g));
            if j >= 0 {
                assert(after.sessions[j].id == rest[j].id);
            } else if rest.len() > 0 {
                assert(after.sessions[0].id == rest[0].id);
            }
        } else if before.selected is Some {
            let x = before.selected->0;
            let k = choose|k: int| 0 <= k < before.sessions.len() && (#[trigger] before.sessions[k]).id == x;
            assert(k != i);
            if k < i {
                assert(after.sessions[k] == before.sessions[k]);
            } else {
                assert(after.sessions[k - 1] == before.sessions[k]);
            }
        }
    }
}

/// Identifiers of `sessions` as a multiset.
pub open spec fn session_id_bag(sessions: Seq<Session>) -> Multiset<SessionId> {
    session_ids(sessions).to_multiset()
}

proof fn lemma_take_out_and_put_back(s: Seq<Session>, si: int, at: int, x: Session)
    requires
        0 <= si < s.len(),
        0 <= at <= s.len() - 1,
        x.id == s[si].id,
    ensures
        session_id_bag(s.remove(si).insert(at, x)) == session_id_bag(s),
{
    broadcast use vstd::multiset::group_multiset_axioms;
    let ids = session_ids(s);
    let rest = s.remove(si);
    assert(session_ids(rest) =~= ids.remove(si));
    assert(session_ids(rest.insert(at, x)) =~= session_ids(rest).insert(at, x.id));
    vstd::seq_lib::to_multiset_remove(ids, si);
    vstd::seq_lib::to_multiset_insert(session_ids(rest), at, x.id);
    vstd::seq_lib::to_multiset_contains(ids, ids[si]);
    assert(ids.contains(ids[si]));
    assert(session_id_bag(rest.insert(at, x)) =~= session_id_bag(s));
}

/// Dragging a tab before another keeps the same tabs: the multiset of
/// session identifiers is unchanged.
pub proof fn lemma_move_before_keeps_sessions(
    before: WorkspaceView,
    after: WorkspaceView,
    source_id: SessionId,
    target_id: SessionId,
    moved: bool,
)
    requires
        after_move_session_before(before, after, source_id, target_id, moved),
    ensures
        session_id_bag(after.sessions) == session_id_bag(before.sessions),
{
    if moved {
        let s = before.sessions;
        let si = session_index(s, source_id);
        lemma_first_index_cases(s, session_id_is(source_id));
        let rest = s.remove(si);
        let ti = session_index(rest, target_id);
        lemma_first_index_cases(rest, session_id_is(target_id));
        if ti >= 0 {
            lemma_take_out_and_put_back(s, si, ti, Session { group_id: rest[ti].group_id, ..s[si] });
        } else {
            assert(rest.push(s[si]) =~= rest.insert(rest.len() as int, s[si]));
            lemma_take_out_and_put_back(s, si, rest.len() as int, s[si]);
        }
    }
}

/// Dropping a tab at the end of a group keeps the same tabs: the multiset
/// of session identifiers is unchanged.
pub proof fn lemma_move_to_group_end_keeps_sessions(
    before: WorkspaceView,
    after: WorkspaceView,
    source_id: SessionId,
    group_id: GroupId,
    moved: bool,
)
    requires
        after_move_session_to_group_end(before, after, source_id, group_id, moved),
    ensures
        session_id_bag(after.sessions) == session_id_bag(before.sessions),
{
    if moved {
        let s = before.sessions;
        let si = session_index(s, source_id);
        lemma_first_index_cases(s, session_id_is(source_id));
        let rest = s.remove(si);
        let last = last_index(rest, in_group(group_id));
        let at = if last >= 0 { last + 1 } else { rest.len() as int };
        lemma_take_out_and_put_back(s, si, at, Session { group_id, ..s[si] });
    }
}

/// Swapping a tab into a visible agent slot keeps the same tabs: the
/// multiset of session identifiers is unchanged.
pub proof fn lemma_swap_keeps_sessions(
    before: WorkspaceView,
    after: WorkspaceView,
    source_id: SessionId,
    slot: VisibleAgentSlot,
    changed: bool,
)
    requires
        after_swap_with_visible_agent_slot(before, after, source_id, slot, changed),
    ensures
        session_id_bag(after.sessions) == session_id_bag(before.sessions),
{
    broadcast use vstd::multiset::group_multiset_axioms;
    let s = before.sessions;
    let si = session_index(s, source_id);
    lemma_first_index_cases(s, session_id_is(source_id));
    let target = if si >= 0 { slot_session(s, s[si].group_id, slot) } else { None };
    let ti = match target {
        Some(t) => session_index(s, t),
        None => -1,
    };
    if let Some(t) = target {
        lemma_first_index_cases(s, session_id_is(t));
    }
    if si >= 0 && ti >= 0 && si != ti {
        let ids = session_ids(s);
        let once = s.update(si, s[ti]);
        assert(session_ids(once) =~= ids.update(si, s[ti].id));
        assert(session_ids(once.update(ti, s[si])) =~= session_ids(once).update(ti, s[si].id));
        vstd::seq_lib::to_multiset_update(ids, si, s[ti].id);
        vstd::seq_lib::to_multiset_update(session_ids(once), ti, s[si].id);
        vstd::seq_lib::to_multiset_contains(ids, ids[si]);
        assert(ids.contains(ids[si]));
        assert(session_ids(once)[ti] == s[ti].id);
        let m = ids.to_multiset();
        assert(m.insert(s[ti].id).remove(s[si].id).insert(s[si].id) =~= m.insert(s[ti].id));
        assert(m.insert(s[ti].id).remove(s[ti].id) =~= m);
        assert(session_id_bag(after.sessions) =~= session_id_bag(s));
    }
}

/// Every session's identifier is below the next one to be given out.
pub open spec fn ids_below_counter(v: WorkspaceView) -> bool {
    forall|i: int| 0 <= i < v.sessions.len() ==> (#[trigger] v.sessions[i]).id < v.next_session_id
}

/// A new session gets an identifier no other session has, and identifiers
/// stay below the counter, as long as the counter has not reached its
/// limit.
pub proof fn lemma_added_session_id_is_fresh(before: WorkspaceView, after: WorkspaceView, group_id: GroupId, id: SessionId)
    requires
        after_add_session(before, after, group_id, id),
        ids_below_counter(before),
        before.next_session_id < u32::MAX,
    ensures
        forall|i: int| 0 <= i < before.sessions.len() ==> (#[trigger] before.sessions[i]).id != id,
        ids_below_counter(after),
{
    assert forall|i: int| 0 <= i < after.sessions.len() implies (#[trigger] after.sessions[i]).id
        < after.next_session_id by {
        if i < before.sessions.len() {
            assert(after.sessions.drop_last()[i] == after.sessions[i]);
        }
    }
}

/// A session added with a title and role gets an identifier no other
/// session has, and identifiers stay below the counter, as long as the
/// counter has not reached its limit.
pub proof fn lemma_added_titled_session_id_is_fresh(
    before: WorkspaceView,
    after: WorkspaceView,
    group_id: GroupId,
    title: String,
    role: SessionRole,
    id: SessionId,
)
    requires
        after_add_session_with_title_and_role(before, after, group_id, title, role, id),
        ids_below_counter(before),
        before.next_session_id < u32::MAX,
    ensures
        forall|i: int| 0 <= i < before.sessions.len() ==> (#[trigger] before.sessions[i]).id != id,
        ids_below_counter(after),
{
    assert forall|i: int| 0 <= i < after.sessions.len() implies (#[trigger] after.sessions[i]).id
        < after.next_session_id by {
        if i < before.sessions.len() {
            assert(after.sessions[i] == before.sessions[i]);
        }
    }
}

} // verus!
