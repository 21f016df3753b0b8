//! The durable application state: workspace, knowledge and command domains,
//! with a revision counter that moves on every mutation so that autosave
//! knows when to write.
use vstd::prelude::*;
use crate::commands::{
    after_create_insert_command, after_delete_insert_command, after_update_insert_command,
    command_index, command_sat_inc, max_command_id, same_commands, CommandId, CommandLibraryView, CommandState,
    InsertCommand,
};
use crate::knowledge::{
    after_append_snippet_reference, after_create_note, after_create_snippet, after_delete_snippet,
    after_embedding_failed, after_embedding_processing, after_embedding_ready, after_knowledge_repair,
    after_promote_snippet, after_remove_notes_for_group, after_select_note, after_update_note_markdown,
    note_index, notes_in_group, selection_in_group, snippet_index, snippets_of_session,
    KnowledgeState, KnowledgeView,
};
use crate::panel_dock::{AuxiliaryPanelHost, AuxiliaryPanelKind, AuxiliaryPanelLayout};
use crate::state::{
    spec_clamp_runner_width, GroupId, NewSnippet, NoteDocument, NoteId, Session, SessionId,
    SessionRole, SessionStatus, Snippet, SnippetId, VisibleAgentSlot, GROUP_RUNNER_WIDTH_DEFAULT_PX,
};
use crate::workspace::{
    active_group, after_add_group, after_add_session, after_add_session_with_title_and_role,
    after_create_group_with_defaults, after_cycle_session_status, after_move_auxiliary_panel_before,
    after_move_auxiliary_panel_to_host_end, after_move_session_before, after_move_session_to_group_end,
    after_remove_group, after_remove_session, after_rename_session, after_select_session,
    after_set_active_auxiliary_panel, after_set_group_runner_width, after_set_session_status,
    after_swap_with_visible_agent_slot, after_workspace_repair, center_agents, group_ids,
    group_index, group_runner, links_are_valid, group_sessions, has_status, path_label, session_ids,
    GroupLayout, TabGroup, WorkspaceState, WorkspaceView,
};

verus! {

/// Aggregate durable app state.
pub struct AppState {
    workspace: WorkspaceState,
    knowledge: KnowledgeState,
    commands: CommandState,
    revision: u64,
}

/// Value of an [`AppState`]: its three domains and its revision.
pub struct AppStateView {
    pub workspace: WorkspaceView,
    pub knowledge: KnowledgeView,
    pub commands: CommandLibraryView,
    pub revision: u64,
}

impl View for AppState {
    type V = AppStateView;

    closed spec fn view(&self) -> AppStateView {
        AppStateView {
            workspace: self.workspace@,
            knowledge: self.knowledge@,
            commands: self.commands@,
            revision: self.revision,
        }
    }
}

/// The revision after a step: one more (saturating) when the step changed
/// the state, the same otherwise.
pub open spec fn bumped(revision: u64, changed: bool) -> u64 {
    if changed && revision < u64::MAX {
        (revision + 1) as u64
    } else {
        revision
    }
}

/// The revision never goes back: a step leaves it as it was or moves it
/// one up, and a step that changes something moves it unless it is
/// already at its largest value.
pub proof fn lemma_revision_never_decreases(revision: u64, changed: bool)
    ensures
        bumped(revision, changed) >= revision,
        bumped(revision, changed) <= revision + 1,
        changed && revision < u64::MAX ==> bumped(revision, changed) == revision + 1,
        !changed ==> bumped(revision, changed) == revision,
{
}

/// A workspace step: knowledge and commands are kept, and the revision
/// moves when `changed`.
pub open spec fn workspace_step(before: AppStateView, after: AppStateView, changed: bool) -> bool {
    &&& after.knowledge == before.knowledge
    &&& after.commands == before.commands
    &&& after.revision == bumped(before.revision, changed)
}

/// A knowledge step: workspace and commands are kept, and the revision
/// moves when `changed`.
pub open spec fn knowledge_step(before: AppStateView, after: AppStateView, changed: bool) -> bool {
    &&& after.workspace == before.workspace
    &&& after.commands == before.commands
    &&& after.revision == bumped(before.revision, changed)
}

/// A command step: workspace and knowledge are kept, and the revision
/// moves when `changed`.
pub open spec fn command_step(before: AppStateView, after: AppStateView, changed: bool) -> bool {
    &&& after.workspace == before.workspace
    &&& after.knowledge == before.knowledge
    &&& after.revision == bumped(before.revision, changed)
}

/// The state the app starts with when nothing was saved: one group for the
/// current directory with its two agents and its runner, the first agent
/// selected, no notes, snippets or commands, and revision one.
pub open spec fn fresh_state(v: AppStateView) -> bool {
    &&& v.workspace.groups.len() == 1
    &&& v.workspace.groups[0].id == 1
    &&& v.workspace.groups[0].path@ == "."@
    &&& v.workspace.sessions.len() == 3
    &&& v.workspace.sessions[0].id == 1
    &&& v.workspace.sessions[1].id == 2
    &&& v.workspace.sessions[2].id == 3
    &&& forall|k: int| 0 <= k < 3 ==> (#[trigger] v.workspace.sessions[k]).group_id == 1
    &&& v.workspace.sessions[2].role == SessionRole::Runner
    &&& v.workspace.selected == Some(1u32)
    &&& v.workspace.next_session_id == 4
    &&& v.workspace.next_group_id == 2
    &&& v.knowledge.notes.len() == 0
    &&& v.knowledge.snippets.len() == 0
    &&& v.knowledge.selected_note_id is None
    &&& v.knowledge.next_note_id == 1
    &&& v.knowledge.next_snippet_id == 1
    &&& v.commands.commands.len() == 0
    &&& v.commands.next_id == 1
    &&& v.revision == 1
}

impl Default for AppState {
    fn default() -> (state: Self)
        ensures
            fresh_state(state@),
    {
        let mut state = AppState::empty();
        let ghost e = state@;
        let (_, ids) = state.create_group_with_defaults(".".to_string());
        let ghost m = state@;
        proof {
            let n = e.workspace.sessions.len() as int;
            assert(m.workspace.sessions[n + 0].group_id == 1);
            assert(m.workspace.sessions[n + 1].group_id == 1);
            assert(m.workspace.sessions[n + 2].group_id == 1);
            assert(m.workspace.sessions[n + 2].role == SessionRole::Runner);
        }
        if ids.len() > 0 {
            let first = ids[0];
            state.select_session(first);
        }
        proof {
            reveal_strlit(".");
            let dot = "."@;
            assert(dot.len() == 1 && dot[0] == '.');
            assert(crate::text::ws_prefix_end(dot, 1) == 1);
            assert(crate::text::ws_prefix_end(dot, 0) == 0);
            assert(crate::text::ws_suffix_start(dot, 0, 0) == 0);
            assert(crate::text::ws_suffix_start(dot, 1, 0) == 1);
            assert(crate::text::trim_seq(dot) =~= dot);
        }
        state
    }
}

impl AppState {
    fn empty() -> (state: Self)
        ensures
            state@.workspace.sessions.len() == 0,
            state@.workspace.groups.len() == 0,
            state@.workspace.selected is None,
            state@.workspace.next_session_id == 1,
            state@.workspace.next_group_id == 1,
            state@.workspace.panels.wf(),
            state@.knowledge.notes.len() == 0,
            state@.knowledge.snippets.len() == 0,
            state@.knowledge.selected_note_id is None,
            state@.knowledge.next_note_id == 1,
            state@.knowledge.next_snippet_id == 1,
            state@.commands.commands.len() == 0,
            state@.commands.next_id == 1,
            state@.revision == 0,
    {
        AppState {
            workspace: WorkspaceState::default(),
            knowledge: KnowledgeState::default(),
            commands: CommandState::default(),
            revision: 0,
        }
    }

    /// A state made of the three domains, at revision zero.
    pub fn from_parts(workspace: WorkspaceState, knowledge: KnowledgeState, commands: CommandState) -> (state: Self)
        ensures
            state@ == (AppStateView { workspace: workspace@, knowledge: knowledge@, commands: commands@, revision: 0 }),
    {
        AppState { workspace, knowledge, commands, revision: 0 }
    }

    /// Records a mutation.
    pub fn mark_dirty(&mut self)
        ensures
            final(self)@ == (AppStateView { revision: bumped(old(self)@.revision, true), ..old(self)@ }),
    {
        self.revision = self.revision.saturating_add(1);
    }

    /// Returns the monotonic mutation counter for autosave signaling.
    pub fn revision(&self) -> (revision: u64)
        ensures
            revision == self@.revision,
    {
        self.revision
    }

    /// Returns all sessions in insertion order.
    pub fn sessions(&self) -> (sessions: &[Session])
        ensures
            sessions@ == self@.workspace.sessions,
    {
        self.workspace.sessions()
    }

    /// Returns all groups in insertion order.
    pub fn groups(&self) -> (groups: &[TabGroup])
        ensures
            groups@ == self@.workspace.groups,
    {
        self.workspace.groups()
    }

    /// Returns the active selected session identifier.
    pub fn selected_session(&self) -> (selected: Option<SessionId>)
        ensures
            selected == self@.workspace.selected,
    {
        self.workspace.selected_session()
    }

    /// Returns the durable workspace domain.
    pub fn workspace_state(&self) -> (workspace: &WorkspaceState)
        ensures
            workspace@ == self@.workspace,
    {
        &self.workspace
    }

    /// Returns the durable knowledge domain.
    pub fn knowledge_state(&self) -> (knowledge: &KnowledgeState)
        ensures
            knowledge@ == self@.knowledge,
    {
        &self.knowledge
    }

    /// Returns the durable command domain.
    pub fn command_state(&self) -> (commands: &CommandState)
        ensures
            commands@ == self@.commands,
    {
        &self.commands
    }

    /// Repairs persisted invariants and resets mutation tracking.
    pub fn into_restored(self) -> (state: Self)
        ensures
            restored(self@, state@),
            state@.revision == 0,
    {
        let mut state = self;
        state.repair_after_restore();
        state.revision = 0;
        state
    }

    /// Repairs invalid relationships after loading persisted state: the
    /// commands, then the workspace, then the notes and snippets against
    /// the groups left (notes of a missing group move to the active group,
    /// or group one when there is none).
    pub fn repair_after_restore(&mut self)
        ensures
            restored(old(self)@, final(self)@),
            final(self)@.revision == old(self)@.revision,
    {
        self.commands.repair_after_restore();
        self.workspace.repair_after_restore();
        let valid_group_ids = self.workspace.valid_group_ids();
        let fallback_group_id = match self.workspace.active_group_id() {
            Some(id) => id,
            None => 1,
        };
        self.knowledge.repair_after_restore(valid_group_ids.as_slice(), fallback_group_id);
    }

    /// Creates a group and seeds default Agent/Runner sessions.
    pub fn create_group_with_defaults(&mut self, path: String) -> (created: (GroupId, Vec<SessionId>))
        ensures
            after_create_group_with_defaults(old(self)@.workspace, final(self)@.workspace, path, created),
            workspace_step(old(self)@, final(self)@, true),
    {
        let created = self.workspace.create_group_with_defaults(path);
        self.mark_dirty();
        created
    }

    /// Adds a group for the provided path and returns its identifier.
    pub fn add_group_with_path(&mut self, path: String) -> (group_id: GroupId)
        ensures
            after_add_group(old(self)@.workspace, final(self)@.workspace, path, group_id),
            workspace_step(old(self)@, final(self)@, true),
    {
        let group_id = self.workspace.add_group_with_path(path);
        self.mark_dirty();
        group_id
    }

    /// Adds a new agent session with an auto-generated title.
    pub fn add_session(&mut self, group_id: GroupId) -> (id: SessionId)
        ensures
            after_add_session(old(self)@.workspace, final(self)@.workspace, group_id, id),
            workspace_step(old(self)@, final(self)@, true),
    {
        let id = self.workspace.add_session(group_id);
        self.mark_dirty();
        id
    }

    /// Adds a session with explicit title and role.
    pub fn add_session_with_title_and_role(&mut self, group_id: GroupId, title: String, role: SessionRole) -> (id: SessionId)
        ensures
            after_add_session_with_title_and_role(old(self)@.workspace, final(self)@.workspace, group_id, title, role, id),
            workspace_step(old(self)@, final(self)@, true),
    {
        let id = self.workspace.add_session_with_title_and_role(group_id, title, role);
        self.mark_dirty();
        id
    }

    /// Removes a session by identifier.
    pub fn remove_session(&mut self, session_id: SessionId) -> (removed: bool)
        ensures
            after_remove_session(old(self)@.workspace, final(self)@.workspace, session_id, removed),
            workspace_step(old(self)@, final(self)@, removed),
    {
        let removed = self.workspace.remove_session(session_id);
        if removed {
            self.mark_dirty();
        }
        removed
    }

    /// Renames a session when the provided title is non-empty.
    pub fn rename_session(&mut self, session_id: SessionId, title: String)
        ensures
            ({
                ||| after_rename_session(old(self)@.workspace, final(self)@.workspace, session_id, title, true) && workspace_step(old(self)@, final(self)@, true)
                ||| after_rename_session(old(self)@.workspace, final(self)@.workspace, session_id, title, false) && workspace_step(old(self)@, final(self)@, false)
            }),
    {
        if self.workspace.rename_session(session_id, title) {
            self.mark_dirty();
        }
    }

    /// Marks a session as selected.
    pub fn select_session(&mut self, session_id: SessionId)
        ensures
            ({
                ||| after_select_session(old(self)@.workspace, final(self)@.workspace, session_id, true) && workspace_step(old(self)@, final(self)@, true)
                ||| after_select_session(old(self)@.workspace, final(self)@.workspace, session_id, false) && workspace_step(old(self)@, final(self)@, false)
            }),
    {
        if self.workspace.select_session(session_id) {
            self.mark_dirty();
        }
    }

    /// Cycles the selected session status forward.
    pub fn cycle_session_status(&mut self, session_id: SessionId)
        ensures
            ({
                ||| after_cycle_session_status(old(self)@.workspace, final(self)@.workspace, session_id, true) && workspace_step(old(self)@, final(self)@, true)
                ||| after_cycle_session_status(old(self)@.workspace, final(self)@.workspace, session_id, false) && workspace_step(old(self)@, final(self)@, false)
            }),
    {
        if self.workspace.cycle_session_status(session_id) {
            self.mark_dirty();
        }
    }

    /// Sets a session status to an explicit value.
    pub fn set_session_status(&mut self, session_id: SessionId, status: SessionStatus)
        ensures
            ({
                ||| after_set_session_status(old(self)@.workspace, final(self)@.workspace, session_id, status, true) && workspace_step(old(self)@, final(self)@, true)
                ||| after_set_session_status(old(self)@.workspace, final(self)@.workspace, session_id, status, false) && workspace_step(old(self)@, final(self)@, false)
            }),
    {
        if self.workspace.set_session_status(session_id, status) {
            self.mark_dirty();
        }
    }

    /// Moves one session before another and aligns group membership.
    pub fn move_session_before(&mut self, source_id: SessionId, target_id: SessionId)
        ensures
            ({
                ||| after_move_session_before(old(self)@.workspace, final(self)@.workspace, source_id, target_id, true) && workspace_step(old(self)@, final(self)@, true)
                ||| after_move_session_before(old(self)@.workspace, final(self)@.workspace, source_id, target_id, false) && workspace_step(old(self)@, final(self)@, false)
            }),
    {
        if self.workspace.move_session_before(source_id, target_id) {
            self.mark_dirty();
        }
    }

    /// Moves a session to the end of a target group.
    pub fn move_session_to_group_end(&mut self, source_id: SessionId, group_id: GroupId)
        ensures
            ({
                ||| after_move_session_to_group_end(old(self)@.workspace, final(self)@.workspace, source_id, group_id, true) && workspace_step(old(self)@, final(self)@, true)
                ||| after_move_session_to_group_end(old(self)@.workspace, final(self)@.workspace, source_id, group_id, false) && workspace_step(old(self)@, final(self)@, false)
            }),
    {
        if self.workspace.move_session_to_group_end(source_id, group_id) {
            self.mark_dirty();
        }
    }

    /// Swaps a session with one of the currently visible center-stack agent panes.
    pub fn swap_session_with_visible_agent_slot(&mut self, source_id: SessionId, slot: VisibleAgentSlot)
        ensures
            ({
                ||| after_swap_with_visible_agent_slot(old(self)@.workspace, final(self)@.workspace, source_id, slot, true) && workspace_step(old(self)@, final(self)@, true)
                ||| after_swap_with_visible_agent_slot(old(self)@.workspace, final(self)@.workspace, source_id, slot, false) && workspace_step(old(self)@, final(self)@, false)
            }),
    {
        if self.workspace.swap_session_with_visible_agent_slot(source_id, slot) {
            self.mark_dirty();
        }
    }

    /// Updates the run sidebar width for a group.
    pub fn set_group_runner_width_px(&mut self, group_id: GroupId, width: i32)
        ensures
            ({
                ||| after_set_group_runner_width(old(self)@.workspace, final(self)@.workspace, group_id, width, true) && workspace_step(old(self)@, final(self)@, true)
                ||| after_set_group_runner_width(old(self)@.workspace, final(self)@.workspace, group_id, width, false) && workspace_step(old(self)@, final(self)@, false)
            }),
    {
        if self.workspace.set_group_runner_width_px(group_id, width) {
            self.mark_dirty();
        }
    }

    /// Selects the active panel in one auxiliary host.
    pub fn set_active_auxiliary_panel(&mut self, host: AuxiliaryPanelHost, panel: AuxiliaryPanelKind)
        ensures
            ({
                ||| after_set_active_auxiliary_panel(old(self)@.workspace, final(self)@.workspace, host, panel, true) && workspace_step(old(self)@, final(self)@, true)
                ||| after_set_active_auxiliary_panel(old(self)@.workspace, final(self)@.workspace, host, panel, false) && workspace_step(old(self)@, final(self)@, false)
            }),
    {
        if self.workspace.set_active_auxiliary_panel(host, panel) {
            self.mark_dirty();
        }
    }

    /// Reorders or moves one auxiliary panel before another tab.
    pub fn move_auxiliary_panel_before(&mut self, source: AuxiliaryPanelKind, target: AuxiliaryPanelKind)
        ensures
            ({
                ||| after_move_auxiliary_panel_before(old(self)@.workspace, final(self)@.workspace, source, target, true) && workspace_step(old(self)@, final(self)@, true)
                ||| after_move_auxiliary_panel_before(old(self)@.workspace, final(self)@.workspace, source, target, false) && workspace_step(old(self)@, final(self)@, false)
            }),
    {
        if self.workspace.move_auxiliary_panel_before(source, target) {
            self.mark_dirty();
        }
    }

    /// Moves one auxiliary panel to the end of a host.
    pub fn move_auxiliary_panel_to_host_end(&mut self, panel: AuxiliaryPanelKind, host: AuxiliaryPanelHost)
        ensures
            ({
                ||| after_move_auxiliary_panel_to_host_end(old(self)@.workspace, final(self)@.workspace, panel, host, true) && workspace_step(old(self)@, final(self)@, true)
                ||| after_move_auxiliary_panel_to_host_end(old(self)@.workspace, final(self)@.workspace, panel, host, false) && workspace_step(old(self)@, final(self)@, false)
            }),
    {
        if self.workspace.move_auxiliary_panel_to_host_end(panel, host) {
            self.mark_dirty();
        }
    }

    /// Selects the active note.
    pub fn select_note(&mut self, note_id: NoteId)
        ensures
            ({
                ||| after_select_note(old(self)@.knowledge, final(self)@.knowledge, note_id, true) && knowledge_step(old(self)@, final(self)@, true)
                ||| after_select_note(old(self)@.knowledge, final(self)@.knowledge, note_id, false) && knowledge_step(old(self)@, final(self)@, false)
            }),
    {
        if self.knowledge.select_note(note_id) {
            self.mark_dirty();
        }
    }

    /// Creates an empty note and returns its identifier.
    pub fn create_note_for_group(&mut self, group_id: GroupId, title: String, updated_at_unix_ms: i64) -> (note_id: NoteId)
        ensures
            after_create_note(old(self)@.knowledge, final(self)@.knowledge, group_id, title, updated_at_unix_ms, note_id),
            knowledge_step(old(self)@, final(self)@, true),
    {
        let note_id = self.knowledge.create_note_for_group(group_id, title, updated_at_unix_ms);
        self.mark_dirty();
        note_id
    }

    /// Updates note markdown and touched timestamp.
    pub fn update_note_markdown(&mut self, note_id: NoteId, markdown: String, updated_at_unix_ms: i64) -> (updated: bool)
        ensures
            after_update_note_markdown(old(self)@.knowledge, final(self)@.knowledge, note_id, markdown, updated_at_unix_ms, updated),
            knowledge_step(old(self)@, final(self)@, updated),
    {
        let updated = self.knowledge.update_note_markdown(note_id, markdown, updated_at_unix_ms);
        if updated {
            self.mark_dirty();
        }
        updated
    }

    /// Appends a markdown snippet reference token to a note.
    pub fn append_note_snippet_reference(&mut self, note_id: NoteId, snippet_id: SnippetId, updated_at_unix_ms: i64) -> (updated: bool)
        ensures
            after_append_snippet_reference(old(self)@.knowledge, final(self)@.knowledge, note_id, snippet_id, updated_at_unix_ms, updated),
            knowledge_step(old(self)@, final(self)@, updated),
    {
        let updated = self.knowledge.append_note_snippet_reference(note_id, snippet_id, updated_at_unix_ms);
        if updated {
            self.mark_dirty();
        }
        updated
    }

    /// Creates a snippet and returns its identifier.
    pub fn create_snippet(&mut self, new_snippet: NewSnippet) -> (snippet_id: SnippetId)
        ensures
            after_create_snippet(old(self)@.knowledge, final(self)@.knowledge, new_snippet, snippet_id),
            knowledge_step(old(self)@, final(self)@, true),
    {
        let snippet_id = self.knowledge.create_snippet(new_snippet);
        self.mark_dirty();
        snippet_id
    }

    /// Promotes one snippet to the top of the snippets list.
    pub fn promote_snippet(&mut self, snippet_id: SnippetId) -> (promoted: bool)
        ensures
            after_promote_snippet(old(self)@.knowledge, final(self)@.knowledge, snippet_id, promoted),
            knowledge_step(old(self)@, final(self)@, promoted),
    {
        let promoted = self.knowledge.promote_snippet(snippet_id);
        if promoted {
            self.mark_dirty();
        }
        promoted
    }

    /// Deletes one snippet object by identifier.
    pub fn delete_snippet(&mut self, snippet_id: SnippetId) -> (deleted: bool)
        ensures
            after_delete_snippet(old(self)@.knowledge, final(self)@.knowledge, snippet_id, deleted),
            knowledge_step(old(self)@, final(self)@, deleted),
    {
        let deleted = self.knowledge.delete_snippet(snippet_id);
        if deleted {
            self.mark_dirty();
        }
        deleted
    }

    /// Marks snippet embedding as processing.
    pub fn set_snippet_embedding_processing(&mut self, snippet_id: SnippetId) -> (updated: bool)
        ensures
            after_embedding_processing(old(self)@.knowledge, final(self)@.knowledge, snippet_id, updated),
            knowledge_step(old(self)@, final(self)@, updated),
    {
        let updated = self.knowledge.set_snippet_embedding_processing(snippet_id);
        if updated {
            self.mark_dirty();
        }
        updated
    }

    /// Marks snippet embedding as ready.
    pub fn set_snippet_embedding_ready(&mut self, snippet_id: SnippetId, embedding_object_id: String, embedding_profile_id: Option<String>, embedding_dimensions: Option<usize>) -> (updated: bool)
        ensures
            after_embedding_ready(old(self)@.knowledge, final(self)@.knowledge, snippet_id, embedding_object_id, embedding_profile_id, embedding_dimensions, updated),
            knowledge_step(old(self)@, final(self)@, updated),
    {
        let updated = self.knowledge.set_snippet_embedding_ready(snippet_id, embedding_object_id, embedding_profile_id, embedding_dimensions);
        if updated {
            self.mark_dirty();
        }
        updated
    }

    /// Marks snippet embedding as failed.
    pub fn set_snippet_embedding_failed(&mut self, snippet_id: SnippetId, error: String) -> (updated: bool)
        ensures
            after_embedding_failed(old(self)@.knowledge, final(self)@.knowledge, snippet_id, error, updated),
            knowledge_step(old(self)@, final(self)@, updated),
    {
        let updated = self.knowledge.set_snippet_embedding_failed(snippet_id, error);
        if updated {
            self.mark_dirty();
        }
        updated
    }

    /// Removes a group, every session assigned to it and the group's
    /// notes; the revision moves when the group existed.
    pub fn remove_group(&mut self, group_id: GroupId) -> (removed: Vec<SessionId>)
        ensures
            after_remove_group(old(self)@.workspace, final(self)@.workspace, group_id, removed),
            final(self)@.commands == old(self)@.commands,
            group_index(old(self)@.workspace.groups, group_id) < 0 ==> final(self)@.knowledge == old(
                self,
            )@.knowledge && final(self)@.revision == old(self)@.revision,
            group_index(old(self)@.workspace.groups, group_id) >= 0 ==> after_remove_notes_for_group(
                old(self)@.knowledge,
                final(self)@.knowledge,
                group_id,
            ) && final(self)@.revision == bumped(old(self)@.revision, true),
    {
        let existed = self.workspace.group_path(group_id).is_some();
        let removed = self.workspace.remove_group(group_id);
        if !existed {
            return removed;
        }
        self.knowledge.remove_notes_for_group(group_id);
        self.mark_dirty();
        removed
    }

    /// Creates an empty note in the active path group; `None`, changing
    /// nothing, when there is no active group.
    pub fn create_note(&mut self, title: String, updated_at_unix_ms: i64) -> (note_id: Option<NoteId>)
        ensures
            match active_group(old(self)@.workspace) {
                None => note_id is None && final(self)@ == old(self)@,
                Some(g) => note_id is Some && after_create_note(
                    old(self)@.knowledge,
                    final(self)@.knowledge,
                    g,
                    title,
                    updated_at_unix_ms,
                    note_id->0,
                ) && knowledge_step(old(self)@, final(self)@, true),
            },
    {
        let group_id = match self.workspace.active_group_id() {
            Some(g) => g,
            None => return None,
        };
        Some(self.create_note_for_group(group_id, title, updated_at_unix_ms))
    }

    /// Returns all notes in insertion order.
    pub fn notes(&self) -> (notes: &[NoteDocument])
        ensures
            notes@ == self@.knowledge.notes,
    {
        self.knowledge.notes()
    }

    /// Returns notes for one path group in insertion order.
    pub fn notes_for_group(&self, group_id: GroupId) -> (notes: Vec<&NoteDocument>)
        ensures
            notes@.len() == notes_in_group(self@.knowledge.notes, group_id).len(),
            forall|i: int|
                0 <= i < notes@.len() ==> *notes@[i] == notes_in_group(self@.knowledge.notes, group_id)[i],
    {
        self.knowledge.notes_for_group(group_id)
    }

    /// Returns a note by identifier.
    pub fn note_by_id(&self, note_id: NoteId) -> (note: Option<&NoteDocument>)
        ensures
            match note {
                Some(n) => note_index(self@.knowledge.notes, note_id) >= 0 && *n
                    == self@.knowledge.notes[note_index(self@.knowledge.notes, note_id)],
                None => note_index(self@.knowledge.notes, note_id) == -1,
            },
    {
        self.knowledge.note_by_id(note_id)
    }

    /// Returns the selected note identifier.
    pub fn selected_note_id(&self) -> (id: Option<NoteId>)
        ensures
            id == self@.knowledge.selected_note_id,
    {
        self.knowledge.selected_note_id()
    }

    /// Returns selected note for one group, falling back to first note in group.
    pub fn selected_note_id_for_group(&self, group_id: GroupId) -> (id: Option<NoteId>)
        ensures
            id == if selection_in_group(self@.knowledge.notes, self@.knowledge.selected_note_id, group_id) {
                self@.knowledge.selected_note_id
            } else if notes_in_group(self@.knowledge.notes, group_id).len() > 0 {
                Some(notes_in_group(self@.knowledge.notes, group_id)[0].id)
            } else {
                None
            },
    {
        self.knowledge.selected_note_id_for_group(group_id)
    }

    /// Returns all snippets in display order (newest and promoted first).
    pub fn snippets(&self) -> (snippets: &[Snippet])
        ensures
            snippets@ == self@.knowledge.snippets,
    {
        self.knowledge.snippets()
    }

    /// Returns a snippet by identifier.
    pub fn snippet_by_id(&self, snippet_id: SnippetId) -> (snippet: Option<&Snippet>)
        ensures
            match snippet {
                Some(s) => snippet_index(self@.knowledge.snippets, snippet_id) >= 0 && *s
                    == self@.knowledge.snippets[snippet_index(self@.knowledge.snippets, snippet_id)],
                None => snippet_index(self@.knowledge.snippets, snippet_id) == -1,
            },
    {
        self.knowledge.snippet_by_id(snippet_id)
    }

    /// Returns snippets originating from one terminal session.
    pub fn snippets_for_session(&self, session_id: SessionId) -> (snippets: Vec<&Snippet>)
        ensures
            snippets@.len() == snippets_of_session(self@.knowledge.snippets, session_id).len(),
            forall|i: int|
                0 <= i < snippets@.len() ==> *snippets@[i] == snippets_of_session(
                    self@.knowledge.snippets,
                    session_id,
                )[i],
    {
        self.knowledge.snippets_for_session(session_id)
    }

    /// Returns the active group based on selected session fallback.
    pub fn active_group_id(&self) -> (group_id: Option<GroupId>)
        ensures
            group_id == active_group(self@.workspace),
    {
        self.workspace.active_group_id()
    }

    /// Returns all sessions currently belonging to a group.
    pub fn sessions_in_group(&self, group_id: GroupId) -> (sessions: Vec<Session>)
        ensures
            sessions@ == group_sessions(self@.workspace.sessions, group_id),
    {
        self.workspace.sessions_in_group(group_id)
    }

    /// Returns session identifiers in insertion order for a group.
    pub fn session_ids_in_group(&self, group_id: GroupId) -> (ids: Vec<SessionId>)
        ensures
            ids@ == session_ids(group_sessions(self@.workspace.sessions, group_id)),
    {
        self.workspace.session_ids_in_group(group_id)
    }

    /// Returns center-stack agent sessions and optional runner for UI layout.
    pub fn workspace_sessions_for_group(&self, group_id: GroupId) -> (panes: (Vec<Session>, Option<Session>))
        ensures
            ({
                let agents = center_agents(self@.workspace.sessions, group_id);
                let runner = group_runner(self@.workspace.sessions, group_id);
                if runner is None && agents.len() > 0 {
                    &&& panes.0@ == agents.drop_last()
                    &&& panes.1 == Some(agents.last())
                } else {
                    &&& panes.0@ == agents
                    &&& panes.1 == runner
                }
            }),
    {
        self.workspace.workspace_sessions_for_group(group_id)
    }

    /// Returns center-stack agent identifiers plus optional runner identifier.
    pub fn workspace_session_ids_for_group(&self, group_id: GroupId) -> (ids: Vec<SessionId>)
        ensures
            ids@ == session_ids(center_agents(self@.workspace.sessions, group_id)) + match group_runner(
                self@.workspace.sessions,
                group_id,
            ) {
                Some(r) => seq![r.id],
                None => Seq::<SessionId>::empty(),
            },
    {
        self.workspace.workspace_session_ids_for_group(group_id)
    }

    /// Returns the configured path for a group identifier.
    pub fn group_path(&self, group_id: GroupId) -> (path: Option<&str>)
        ensures
            ({
                let i = group_index(self@.workspace.groups, group_id);
                match path {
                    Some(p) => i >= 0 && p@ == self@.workspace.groups[i].path@,
                    None => i == -1,
                }
            }),
    {
        self.workspace.group_path(group_id)
    }

    /// Returns layout controls for a group identifier.
    pub fn group_layout(&self, group_id: GroupId) -> (layout: GroupLayout)
        ensures
            ({
                let i = group_index(self@.workspace.groups, group_id);
                layout.runner_width_px == if i >= 0 {
                    spec_clamp_runner_width(self@.workspace.groups[i].layout.runner_width_px as int)
                } else {
                    GROUP_RUNNER_WIDTH_DEFAULT_PX as int
                }
            }),
    {
        self.workspace.group_layout(group_id)
    }

    /// Counts sessions in a given status.
    pub fn session_count_by_status(&self, status: SessionStatus) -> (count: usize)
        ensures
            count == self@.workspace.sessions.filter(has_status(status)).len(),
    {
        self.workspace.session_count_by_status(status)
    }

    /// Returns a display label for the given group identifier.
    pub fn group_label(&self, group_id: GroupId) -> (label: String)
        ensures
            ({
                let i = group_index(self@.workspace.groups, group_id);
                label@ == if i >= 0 {
                    path_label(self@.workspace.groups[i].path@)
                } else {
                    "Unknown"@
                }
            }),
    {
        self.workspace.group_label(group_id)
    }

    /// Returns the durable auxiliary panel layout.
    pub fn auxiliary_panel_layout(&self) -> (layout: AuxiliaryPanelLayout)
        ensures
            layout@ == self@.workspace.panels,
    {
        self.workspace.auxiliary_panel_layout()
    }

    /// Returns the active panel for the requested auxiliary host.
    pub fn active_auxiliary_panel(&self, host: AuxiliaryPanelHost) -> (panel: Option<AuxiliaryPanelKind>)
        ensures
            panel == self@.workspace.panels.active(host),
    {
        self.workspace.active_auxiliary_panel(host)
    }

    /// Returns the ordered tabs for one auxiliary host.
    pub fn auxiliary_panel_tabs(&self, host: AuxiliaryPanelHost) -> (tabs: Vec<AuxiliaryPanelKind>)
        ensures
            tabs@ == self@.workspace.panels.tabs(host),
    {
        self.workspace.auxiliary_panel_tabs(host)
    }

    /// Returns true when the insert-command library has at least one command.
    pub fn has_commands(&self) -> (has: bool)
        ensures
            has == (self@.commands.commands.len() > 0),
    {
        self.commands.commands().len() > 0
    }

    /// Copies the command library of `other` into a state that has none.
    /// Returns false, changing nothing, when this state already has
    /// commands or `other` has none.
    pub fn seed_commands_from(&mut self, other: &AppState) -> (seeded: bool)
        ensures
            seeded == (old(self)@.commands.commands.len() == 0 && other@.commands.commands.len() > 0),
            seeded ==> same_commands(final(self)@.commands.commands, other@.commands.commands)
                && final(self)@.commands.next_id == other@.commands.next_id,
            !seeded ==> final(self)@.commands == old(self)@.commands,
            final(self)@.workspace == old(self)@.workspace,
            final(self)@.knowledge == old(self)@.knowledge,
            final(self)@.revision == old(self)@.revision,
    {
        if self.has_commands() || !other.has_commands() {
            return false;
        }
        self.commands = other.commands.duplicate();
        true
    }

    /// Returns all insert commands in insertion order.
    pub fn commands(&self) -> (commands: &[InsertCommand])
        ensures
            commands@ == self@.commands.commands,
    {
        self.commands.commands()
    }

    /// Returns a command by identifier.
    pub fn command_by_id(&self, command_id: CommandId) -> (command: Option<&InsertCommand>)
        ensures
            match command {
                Some(c) => command_index(self@.commands.commands, command_id) >= 0 && *c
                    == self@.commands.commands[command_index(self@.commands.commands, command_id)],
                None => command_index(self@.commands.commands, command_id) == -1,
            },
    {
        self.commands.command_by_id(command_id)
    }

    /// Creates an insert command and returns its identifier.
    pub fn create_insert_command(
        &mut self,
        name: String,
        prompt: String,
        description: String,
        tags: Vec<String>,
    ) -> (id: CommandId)
        ensures
            after_create_insert_command(old(self)@.commands, final(self)@.commands, name, prompt, description, tags, id),
            command_step(old(self)@, final(self)@, true),
    {
        let id = self.commands.create_insert_command(name, prompt, description, tags);
        self.mark_dirty();
        id
    }

    /// Updates an existing insert command. Returns true on mutation.
    pub fn update_insert_command(
        &mut self,
        command_id: CommandId,
        name: String,
        prompt: String,
        description: String,
        tags: Vec<String>,
    ) -> (updated: bool)
        ensures
            after_update_insert_command(old(self)@.commands, final(self)@.commands, command_id, name, prompt, description, tags, updated),
            command_step(old(self)@, final(self)@, updated),
    {
        let updated = self.commands.update_insert_command(command_id, name, prompt, description, tags);
        if updated {
            self.mark_dirty();
        }
        updated
    }

    /// Deletes an existing insert command. Returns true when removed.
    pub fn delete_insert_command(&mut self, command_id: CommandId) -> (removed: bool)
        ensures
            after_delete_insert_command(old(self)@.commands, final(self)@.commands, command_id, removed),
            command_step(old(self)@, final(self)@, removed),
    {
        let removed = self.commands.delete_insert_command(command_id);
        if removed {
            self.mark_dirty();
        }
        removed
    }
}

/// `after` is `before` repaired after a restore: each domain repaired as
/// its own repair states, the notes against the groups left and the
/// active group (group one when there is none).
pub open spec fn restored(before: AppStateView, after: AppStateView) -> bool {
    &&& after.commands.commands == before.commands.commands
    &&& after.commands.next_id == ({
        let bumped = command_sat_inc(max_command_id(before.commands.commands));
        if before.commands.next_id > bumped {
            before.commands.next_id
        } else {
            bumped
        }
    })
    &&& after_workspace_repair(before.workspace, after.workspace)
    &&& links_are_valid(after.workspace)
    &&& after_knowledge_repair(
        before.knowledge,
        after.knowledge,
        group_ids(after.workspace.groups),
        match active_group(after.workspace) {
            Some(id) => id,
            None => 1,
        },
    )
}

/// Repairing restored state a second time changes nothing: the commands,
/// the workspace and the notes a repair leaves behind are already
/// repaired, and the revision is untouched.
pub proof fn lemma_restore_repair_idempotent(first: AppStateView, once: AppStateView, twice: AppStateView)
    requires
        restored(first, once),
        restored(once, twice),
        once.revision == first.revision,
        twice.revision == once.revision,
    ensures
        twice == once,
{
    crate::workspace::lemma_workspace_repair_idempotent(first.workspace, once.workspace, twice.workspace);
    crate::knowledge::lemma_knowledge_repair_idempotent(
        first.knowledge,
        once.knowledge,
        twice.knowledge,
        group_ids(once.workspace.groups),
        match active_group(once.workspace) {
            Some(id) => id,
            None => 1,
        },
    );
}

} // verus!
