//! Durable library of insert commands (reusable prompt snippets).
use vstd::prelude::*;
use crate::seqs::{first_index, is_first_index, lemma_first_index_is, lemma_first_index_none, vec_replace};

verus! {

/// Opaque identifier for an insert command.
pub type CommandId = u64;

/// One reusable prompt snippet.
#[derive(Debug, Clone)]
pub struct InsertCommand {
    pub id: CommandId,
    pub name: String,
    pub prompt: String,
    pub description: String,
    pub tags: Vec<String>,
}

/// Ordered insert commands and the identifier the next one receives.
#[derive(Debug, Clone)]
pub struct CommandLibrary {
    commands: Vec<InsertCommand>,
    next_id: CommandId,
}

/// Abstract contents of a [`CommandLibrary`].
pub struct CommandLibraryView {
    pub commands: Seq<InsertCommand>,
    pub next_id: CommandId,
}

impl View for CommandLibrary {
    type V = CommandLibraryView;

    closed spec fn view(&self) -> CommandLibraryView {
        CommandLibraryView { commands: self.commands@, next_id: self.next_id }
    }
}

/// Test for a command with identifier `id`.
pub open spec fn command_id_is(id: CommandId) -> spec_fn(InsertCommand) -> bool {
    |c: InsertCommand| c.id == id
}

/// Position of the first command with identifier `id`, or -1.
pub open spec fn command_index(commands: Seq<InsertCommand>, id: CommandId) -> int {
    first_index(commands, command_id_is(id))
}

/// No two commands share an identifier.
pub open spec fn ids_distinct(commands: Seq<InsertCommand>) -> bool {
    forall|i: int, j: int| 0 <= i < j < commands.len() ==> (#[trigger] commands[i]).id != (#[trigger] commands[j]).id
}

/// The identifiers are distinct and each is below the next one handed out,
/// so a new command gets an identifier no stored command has.
pub open spec fn ids_fresh(v: CommandLibraryView) -> bool {
    &&& ids_distinct(v.commands)
    &&& forall|i: int| 0 <= i < v.commands.len() ==> (#[trigger] v.commands[i]).id < v.next_id
}

/// No stored command holds the next identifier.
pub open spec fn next_id_unused(v: CommandLibraryView) -> bool {
    forall|i: int| 0 <= i < v.commands.len() ==> (#[trigger] v.commands[i]).id != v.next_id
}

/// Largest command identifier, or 0.
pub open spec fn max_command_id(commands: Seq<InsertCommand>) -> CommandId
    decreases commands.len(),
{
    if commands.len() == 0 {
        0
    } else {
        let rest = max_command_id(commands.drop_last());
        if commands.last().id > rest {
            commands.last().id
        } else {
            rest
        }
    }
}

/// `n + 1`, or `n` itself at `u64::MAX`.
pub open spec fn command_sat_inc(n: u64) -> u64 {
    if n == u64::MAX {
        n
    } else {
        (n + 1) as u64
    }
}

impl Default for CommandLibrary {
    fn default() -> (lib: Self)
        ensures
            lib@.commands.len() == 0,
            lib@.next_id == 1,
            ids_fresh(lib@),
    {
        CommandLibrary { commands: Vec::new(), next_id: 1 }
    }
}

impl CommandLibrary {
    fn find(&self, command_id: CommandId) -> (r: Option<usize>)
        ensures
            match r {
                Some(i) => i as int == command_index(self@.commands, command_id) && i
                    < self@.commands.len(),
                None => command_index(self@.commands, command_id) == -1,
            },
    {
        let ghost p = command_id_is(command_id);
        let mut i: usize = 0;
        while i < self.commands.len()
            invariant
                i <= self.commands.len(),
                p == command_id_is(command_id),
                forall|j: int| 0 <= j < i ==> !p(#[trigger] self.commands@[j]),
            decreases self.commands.len() - i,
        {
            if self.commands[i].id == command_id {
                proof {
                    assert(is_first_index(self.commands@, p, i as int));
                    lemma_first_index_is(self.commands@, p, i as int);
                }
                return Some(i);
            }
            i = i + 1;
        }
        proof {
            lemma_first_index_none(self.commands@, p);
        }
        None
    }

    /// Moves the identifier counter past every stored identifier.
    pub fn repair_after_restore(&mut self)
        ensures
            final(self)@.commands == old(self)@.commands,
            final(self)@.next_id == ({
                let bumped = command_sat_inc(max_command_id(old(self)@.commands));
                if old(self)@.next_id > bumped {
                    old(self)@.next_id
                } else {
                    bumped
                }
            }),
            ids_distinct(old(self)@.commands) && max_command_id(old(self)@.commands) < u64::MAX ==> ids_fresh(
                final(self)@,
            ),
    {
        let mut max_id: CommandId = 0;
        let mut i: usize = 0;
        while i < self.commands.len()
            invariant
                i <= self.commands.len(),
                max_id == max_command_id(self.commands@.take(i as int)),
            decreases self.commands.len() - i,
        {
            proof {
                assert(self.commands@.take(i + 1).drop_last() =~= self.commands@.take(i as int));
            }
            if self.commands[i].id > max_id {
                max_id = self.commands[i].id;
            }
            i = i + 1;
        }
        proof {
            assert(self.commands@.take(i as int) =~= self.commands@);
        }
        let bumped = max_id.saturating_add(1);
        if bumped > self.next_id {
            self.next_id = bumped;
        }
        proof {
            lemma_max_command_id_covers(self@.commands);
        }
    }

    /// Returns all commands in insertion order.
    pub fn commands(&self) -> (commands: &[InsertCommand])
        ensures
            commands@ == self@.commands,
    {
        self.commands.as_slice()
    }

    /// Returns the first command with identifier `command_id`.
    pub fn command(&self, command_id: CommandId) -> (command: Option<&InsertCommand>)
        ensures
            match command {
                Some(c) => command_index(self@.commands, command_id) >= 0 && *c
                    == self@.commands[command_index(self@.commands, command_id)],
                None => command_index(self@.commands, command_id) == -1,
            },
    {
        match self.find(command_id) {
            Some(i) => Some(&self.commands[i]),
            None => None,
        }
    }

    /// Appends a command and returns its identifier.
    pub fn create(
        &mut self,
        name: String,
        prompt: String,
        description: String,
        tags: Vec<String>,
    ) -> (id: CommandId)
        ensures
            after_create_insert_command(old(self)@, final(self)@, name, prompt, description, tags, id),
    {
        let ghost before = self@;
        let id = self.next_id;
        self.next_id = self.next_id.saturating_add(1);
        self.commands.push(InsertCommand { id, name, prompt, description, tags });
        proof {
            assert(self@.commands.drop_last() =~= before.commands);
            lemma_create_keeps_fresh(before, self@, id);
        }
        id
    }

    /// Replaces the fields of a command. Returns false when it is missing.
    pub fn update(
        &mut self,
        command_id: CommandId,
        name: String,
        prompt: String,
        description: String,
        tags: Vec<String>,
    ) -> (updated: bool)
        ensures
            after_update_insert_command(old(self)@, final(self)@, command_id, name, prompt, description, tags, updated),
    {
        let i = match self.find(command_id) {
            Some(i) => i,
            None => return false,
        };
        let ghost before = self@;
        vec_replace(&mut self.commands, i, InsertCommand { id: command_id, name, prompt, description, tags });
        proof {
            lemma_update_keeps_fresh(before, self@, command_id, i as int);
        }
        true
    }

    /// Removes a command. Returns false when it is missing.
    pub fn delete(&mut self, command_id: CommandId) -> (removed: bool)
        ensures
            after_delete_insert_command(old(self)@, final(self)@, command_id, removed),
    {
        let i = match self.find(command_id) {
            Some(i) => i,
            None => return false,
        };
        let ghost before = self@;
        self.commands.remove(i);
        proof {
            lemma_delete_keeps_fresh(before, self@, command_id, i as int);
        }
        true
    }
}

/// Durable insert-command state.
#[derive(Debug, Clone)]
pub struct CommandState {
    command_library: CommandLibrary,
}

impl View for CommandState {
    type V = CommandLibraryView;

    closed spec fn view(&self) -> CommandLibraryView {
        self.command_library@
    }
}

impl Default for CommandState {
    fn default() -> (s: Self)
        ensures
            s@.commands.len() == 0,
            s@.next_id == 1,
            ids_fresh(s@),
    {
        CommandState { command_library: CommandLibrary::default() }
    }
}

impl CommandState {
    /// Repairs the command library after loading persisted state.
    pub fn repair_after_restore(&mut self)
        ensures
            final(self)@.commands == old(self)@.commands,
            final(self)@.next_id == ({
                let bumped = command_sat_inc(max_command_id(old(self)@.commands));
                if old(self)@.next_id > bumped {
                    old(self)@.next_id
                } else {
                    bumped
                }
            }),
            ids_distinct(old(self)@.commands) && max_command_id(old(self)@.commands) < u64::MAX ==> ids_fresh(
                final(self)@,
            ),
    {
        self.command_library.repair_after_restore();
    }

    /// Returns all insert commands in insertion order.
    pub fn commands(&self) -> (commands: &[InsertCommand])
        ensures
            commands@ == self@.commands,
    {
        self.command_library.commands()
    }

    /// Returns a command by identifier.
    pub fn command_by_id(&self, command_id: CommandId) -> (command: Option<&InsertCommand>)
        ensures
            match command {
                Some(c) => command_index(self@.commands, command_id) >= 0 && *c
                    == self@.commands[command_index(self@.commands, command_id)],
                None => command_index(self@.commands, command_id) == -1,
            },
    {
        self.command_library.command(command_id)
    }

    /// Creates an insert command and returns its identifier.
    pub fn create_insert_command(
        &mut self,
        name: String,
        prompt: String,
        description: String,
        tags: Vec<String>,
    ) -> (id: CommandId)
        ensures
            after_create_insert_command(old(self)@, final(self)@, name, prompt, description, tags, id),
    {
        self.command_library.create(name, prompt, description, tags)
    }

    /// Updates an existing insert command. Returns true on mutation.
    pub fn update_insert_command(
        &mut self,
        command_id: CommandId,
        name: String,
        prompt: String,
        description: String,
        tags: Vec<String>,
    ) -> (updated: bool)
        ensures
            after_update_insert_command(old(self)@, final(self)@, command_id, name, prompt, description, tags, updated),
    {
        self.command_library.update(command_id, name, prompt, description, tags)
    }

    /// Deletes an existing insert command. Returns true when removed.
    pub fn delete_insert_command(&mut self, command_id: CommandId) -> (removed: bool)
        ensures
            after_delete_insert_command(old(self)@, final(self)@, command_id, removed),
    {
        self.command_library.delete(command_id)
    }
}

/// What `create_insert_command` leaves behind: the clauses of its contract, over the
/// state `before` and `after` the call, its arguments and its result.
pub open spec fn after_create_insert_command(before: CommandLibraryView, after: CommandLibraryView, name: String, prompt: String, description: String, tags: Vec<String>, id: CommandId) -> bool {
    &&& id == before.next_id
    &&& after.next_id == command_sat_inc(before.next_id)
    &&& after.commands == before.commands.push(
            InsertCommand { id, name, prompt, description, tags },
        )
    &&& next_id_unused(before) ==> command_index(before.commands, id) == -1 && command_index(after.commands, id)
        == before.commands.len()
    &&& ids_fresh(before) && before.next_id < u64::MAX ==> ids_fresh(after)
}

/// What `update_insert_command` leaves behind: the clauses of its contract, over the
/// state `before` and `after` the call, its arguments and its result.
pub open spec fn after_update_insert_command(before: CommandLibraryView, after: CommandLibraryView, command_id: CommandId, name: String, prompt: String, description: String, tags: Vec<String>, updated: bool) -> bool {
    &&& ({
            let k = command_index(before.commands, command_id);
            &&& updated == (k >= 0)
            &&& after.commands == if updated {
                before.commands.update(
                    k,
                    InsertCommand { id: command_id, name, prompt, description, tags },
                )
            } else {
                before.commands
            }
        })
    &&& after.next_id == before.next_id
    &&& ids_fresh(before) ==> ids_fresh(after)
}

/// What `delete_insert_command` leaves behind: the clauses of its contract, over the
/// state `before` and `after` the call, its arguments and its result.
pub open spec fn after_delete_insert_command(before: CommandLibraryView, after: CommandLibraryView, command_id: CommandId, removed: bool) -> bool {
    &&& ({
            let k = command_index(before.commands, command_id);
            &&& removed == (k >= 0)
            &&& after.commands == if removed {
                before.commands.remove(k)
            } else {
                before.commands
            }
        })
    &&& after.next_id == before.next_id
    &&& ids_distinct(before.commands) ==> ids_distinct(after.commands) && command_index(after.commands, command_id)
        == -1
    &&& ids_fresh(before) ==> ids_fresh(after)
}

/// Every identifier is at most the largest one.
proof fn lemma_max_command_id_covers(commands: Seq<InsertCommand>)
    ensures
        forall|i: int| 0 <= i < commands.len() ==> (#[trigger] commands[i]).id <= max_command_id(commands),
    decreases commands.len(),
{
    if commands.len() > 0 {
        lemma_max_command_id_covers(commands.drop_last());
        assert forall|i: int| 0 <= i < commands.len() implies (#[trigger] commands[i]).id <= max_command_id(
            commands,
        ) by {
            if i < commands.len() - 1 {
                assert(commands.drop_last()[i] == commands[i]);
            }
        }
    }
}

/// A new command under the next identifier is the only one with it, and
/// the identifiers stay fresh while the counter has not saturated.
proof fn lemma_create_keeps_fresh(before: CommandLibraryView, after: CommandLibraryView, id: CommandId)
    requires
        id == before.next_id,
        after.next_id == command_sat_inc(before.next_id),
        after.commands.len() == before.commands.len() + 1,
        after.commands.drop_last() == before.commands,
        after.commands.last().id == id,
    ensures
        next_id_unused(before) ==> command_index(before.commands, id) == -1 && command_index(after.commands, id)
            == before.commands.len(),
        ids_fresh(before) && before.next_id < u64::MAX ==> ids_fresh(after),
{
    let n = before.commands.len() as int;
    assert forall|j: int| 0 <= j < n implies #[trigger] after.commands[j] == before.commands[j] by {
        assert(after.commands.drop_last()[j] == after.commands[j]);
    }
    if next_id_unused(before) {
        lemma_first_index_none(before.commands, command_id_is(id));
        assert forall|j: int| 0 <= j < n implies !command_id_is(id)(#[trigger] after.commands[j]) by {
            assert(after.commands[j] == before.commands[j]);
        }
        lemma_first_index_is(after.commands, command_id_is(id), n);
    }
}

/// Replacing a command's fields under its own identifier keeps the
/// identifiers fresh.
proof fn lemma_update_keeps_fresh(before: CommandLibraryView, after: CommandLibraryView, command_id: CommandId, k: int)
    requires
        0 <= k < before.commands.len(),
        before.commands[k].id == command_id,
        after.commands.len() == before.commands.len(),
        after.commands[k].id == command_id,
        forall|j: int| 0 <= j < before.commands.len() && j != k ==> after.commands[j] == before.commands[j],
        after.next_id == before.next_id,
    ensures
        ids_fresh(before) ==> ids_fresh(after),
{
    if ids_fresh(before) {
        assert forall|i: int, j: int| 0 <= i < j < after.commands.len() implies (#[trigger] after.commands[i]).id
            != (#[trigger] after.commands[j]).id by {
            assert(before.commands[i].id != before.commands[j].id);
        }
        assert forall|i: int| 0 <= i < after.commands.len() implies (#[trigger] after.commands[i]).id
            < after.next_id by {
            assert(before.commands[i].id < before.next_id);
        }
    }
}

/// Removing the command with an identifier leaves none with it when the
/// identifiers are distinct, and keeps them distinct and fresh.
proof fn lemma_delete_keeps_fresh(before: CommandLibraryView, after: CommandLibraryView, command_id: CommandId, k: int)
    requires
        0 <= k < before.commands.len(),
        before.commands[k].id == command_id,
        after.commands == before.commands.remove(k),
        after.next_id == before.next_id,
    ensures
        ids_distinct(before.commands) ==> ids_distinct(after.commands) && command_index(after.commands, command_id)
            == -1,
        ids_fresh(before) ==> ids_fresh(after),
{
    assert forall|i: int| 0 <= i < after.commands.len() implies #[trigger] after.commands[i] == before.commands[
        if i < k { i } else { i + 1 }] by {}
    assert forall|i: int| 0 <= i < after.commands.len() implies (#[trigger] after.commands[i]).id
        < after.next_id || !ids_fresh(before) by {
        let bi = if i < k { i } else { i + 1 };
        assert(after.commands[i] == before.commands[bi]);
    }
    if ids_distinct(before.commands) {
        assert forall|i: int, j: int| 0 <= i < j < after.commands.len() implies (#[trigger] after.commands[i]).id
            != (#[trigger] after.commands[j]).id by {
            let bi = if i < k { i } else { i + 1 };
            let bj = if j < k { j } else { j + 1 };
            assert(after.commands[i] == before.commands[bi]);
            assert(after.commands[j] == before.commands[bj]);
        }
        assert forall|i: int| 0 <= i < after.commands.len() implies !command_id_is(command_id)(
            #[trigger] after.commands[i],
        ) by {
            let bi = if i < k { i } else { i + 1 };
            assert(after.commands[i] == before.commands[bi]);
            assert(bi != k);
            if bi < k {
                assert(before.commands[bi].id != before.commands[k].id);
            } else {
                assert(before.commands[k].id != before.commands[bi].id);
            }
        }
        lemma_first_index_none(after.commands, command_id_is(command_id));
    }
}

/// Both commands hold the same identifier and text.
pub open spec fn same_command(a: InsertCommand, b: InsertCommand) -> bool {
    &&& a.id == b.id
    &&& a.name == b.name
    &&& a.prompt == b.prompt
    &&& a.description == b.description
    &&& a.tags@ == b.tags@
}

/// Both sequences hold the same commands in the same order.
pub open spec fn same_commands(a: Seq<InsertCommand>, b: Seq<InsertCommand>) -> bool {
    &&& a.len() == b.len()
    &&& forall|i: int| 0 <= i < a.len() ==> same_command(#[trigger] a[i], b[i])
}

impl InsertCommand {
    /// A copy with the same identifier and text.
    pub fn duplicate(&self) -> (c: InsertCommand)
        ensures
            same_command(c, *self),
    {
        let tags = self.tags.clone();
        proof {
            assert(tags@ =~= self.tags@);
        }
        InsertCommand {
            id: self.id,
            name: self.name.clone(),
            prompt: self.prompt.clone(),
            description: self.description.clone(),
            tags,
        }
    }
}

impl CommandState {
    /// A copy holding the same commands and next identifier.
    pub fn duplicate(&self) -> (c: CommandState)
        ensures
            same_commands(c@.commands, self@.commands),
            c@.next_id == self@.next_id,
    {
        let mut commands: Vec<InsertCommand> = Vec::new();
        let mut i: usize = 0;
        while i < self.command_library.commands.len()
            invariant
                i <= self@.commands.len(),
                self@.commands == self.command_library.commands@,
                commands@.len() == i,
                forall|j: int| 0 <= j < i ==> same_command(#[trigger] commands@[j], self@.commands[j]),
            decreases self.command_library.commands.len() - i,
        {
            commands.push(self.command_library.commands[i].duplicate());
            i = i + 1;
        }
        CommandState { command_library: CommandLibrary { commands, next_id: self.command_library.next_id } }
    }
}

/// A command created while no stored command holds the next identifier
/// is the one found under the identifier it was given, with the text it
/// was created with.
pub proof fn lemma_created_command_is_found(
    before: CommandLibraryView,
    after: CommandLibraryView,
    name: String,
    prompt: String,
    description: String,
    tags: Vec<String>,
    id: CommandId,
)
    requires
        after_create_insert_command(before, after, name, prompt, description, tags, id),
        forall|i: int| 0 <= i < before.commands.len() ==> (#[trigger] before.commands[i]).id != before.next_id,
    ensures
        command_index(after.commands, id) == before.commands.len(),
        after.commands[command_index(after.commands, id)] == (InsertCommand { id, name, prompt, description, tags }),
{
    let k = before.commands.len() as int;
    assert forall|j: int| 0 <= j < k implies !command_id_is(id)(#[trigger] after.commands[j]) by {
        assert(before.commands[j] == after.commands[j]);
    }
    lemma_first_index_is(after.commands, command_id_is(id), k);
}

} // verus!
