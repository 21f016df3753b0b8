//! Durable notes, snippets and embedding metadata.
use vstd::prelude::*;
use crate::seqs::{
    first_index, is_first_index, lemma_filter_all, lemma_filter_keeps, lemma_filter_take_step, lemma_filter_take_zero,
    lemma_first_index_cases, lemma_first_index_is, lemma_first_index_none, lemma_take_full,
    vec_replace,
};
use crate::state::{
    default_note_title, snippet_reference_token, spec_snippet_token, GroupId, NewSnippet,
    NoteDocument, NoteId, SessionId, Snippet, SnippetEmbeddingStatus, SnippetId, SnippetLogRef,
};
use crate::text::{chars_of, is_blank, trim_seq, trim_string};

verus! {

/// Durable notes, snippets, and embedding metadata.
#[derive(Debug, Clone)]
pub struct KnowledgeState {
    notes: Vec<NoteDocument>,
    snippets: Vec<Snippet>,
    selected_note_id: Option<NoteId>,
    next_note_id: NoteId,
    next_snippet_id: SnippetId,
}

/// Abstract contents of a [`KnowledgeState`].
pub struct KnowledgeView {
    pub notes: Seq<NoteDocument>,
    pub snippets: Seq<Snippet>,
    pub selected_note_id: Option<NoteId>,
    pub next_note_id: NoteId,
    pub next_snippet_id: SnippetId,
}

impl View for KnowledgeState {
    type V = KnowledgeView;

    closed spec fn view(&self) -> KnowledgeView {
        KnowledgeView {
            notes: self.notes@,
            snippets: self.snippets@,
            selected_note_id: self.selected_note_id,
            next_note_id: self.next_note_id,
            next_snippet_id: self.next_snippet_id,
        }
    }
}

/// Test for a note with identifier `id`.
pub open spec fn note_id_is(id: NoteId) -> spec_fn(NoteDocument) -> bool {
    |n: NoteDocument| n.id == id
}

/// Test for a snippet with identifier `id`.
pub open spec fn snippet_id_is(id: SnippetId) -> spec_fn(Snippet) -> bool {
    |s: Snippet| s.id == id
}

/// Position of the first note with identifier `id`, or -1.
pub open spec fn note_index(notes: Seq<NoteDocument>, id: NoteId) -> int {
    first_index(notes, note_id_is(id))
}

/// Position of the first snippet with identifier `id`, or -1.
pub open spec fn snippet_index(snippets: Seq<Snippet>, id: SnippetId) -> int {
    first_index(snippets, snippet_id_is(id))
}

/// Notes that belong to `group_id`, in order.
pub open spec fn notes_in_group(notes: Seq<NoteDocument>, group_id: GroupId) -> Seq<NoteDocument> {
    notes.filter(note_group_is(group_id))
}

/// Test for a note of `group_id`.
pub open spec fn note_group_is(group_id: GroupId) -> spec_fn(NoteDocument) -> bool {
    |n: NoteDocument| n.group_id == group_id
}

/// Snippets captured from `session_id`, in order.
pub open spec fn snippets_of_session(snippets: Seq<Snippet>, session_id: SessionId) -> Seq<Snippet> {
    snippets.filter(|s: Snippet| s.log_ref.session_id == session_id)
}

/// True when `selected` names a note of `group_id`.
pub open spec fn selection_in_group(
    notes: Seq<NoteDocument>,
    selected: Option<NoteId>,
    group_id: GroupId,
) -> bool {
    match selected {
        Some(sel) => exists|i: int|
            0 <= i < notes.len() && (#[trigger] notes[i]).id == sel && notes[i].group_id
                == group_id,
        None => false,
    }
}

/// True when some note has identifier `id`.
pub open spec fn has_note(notes: Seq<NoteDocument>, id: NoteId) -> bool {
    exists|i: int| 0 <= i < notes.len() && (#[trigger] notes[i]).id == id
}

/// Group a restored note is moved to.
pub open spec fn repaired_group(group_id: GroupId, valid: Seq<GroupId>, fallback: GroupId) -> GroupId {
    if group_id == 0 || !valid.contains(group_id) {
        fallback
    } else {
        group_id
    }
}

/// `new` is `old` after restore repair: its group is valid and its title is
/// not blank.
pub open spec fn note_repaired(
    old: NoteDocument,
    new: NoteDocument,
    valid: Seq<GroupId>,
    fallback: GroupId,
) -> bool {
    &&& new.id == old.id
    &&& new.markdown == old.markdown
    &&& new.updated_at_unix_ms == old.updated_at_unix_ms
    &&& new.group_id == repaired_group(old.group_id, valid, fallback)
    &&& if trim_seq(old.title@).len() == 0 {
        new.title@ == "Note"@
    } else {
        new.title == old.title
    }
}

/// `log_ref` with each range put in ascending order.
pub open spec fn ordered_log_ref(r: SnippetLogRef) -> SnippetLogRef {
    SnippetLogRef {
        session_id: r.session_id,
        stream_id: r.stream_id,
        start_offset: if r.end_offset < r.start_offset {
            r.end_offset
        } else {
            r.start_offset
        },
        end_offset: if r.end_offset < r.start_offset {
            r.start_offset
        } else {
            r.end_offset
        },
        start_row: if r.end_row < r.start_row {
            r.end_row
        } else {
            r.start_row
        },
        end_row: if r.end_row < r.start_row {
            r.start_row
        } else {
            r.end_row
        },
    }
}

/// `s` with its log ranges in ascending order.
pub open spec fn ordered_snippet(s: Snippet) -> Snippet {
    Snippet { log_ref: ordered_log_ref(s.log_ref), ..s }
}

/// True when the snippet's captured text is not blank.
pub open spec fn snippet_has_text(s: Snippet) -> bool {
    trim_seq(s.text_snapshot_plain@).len() > 0
}

/// Largest note identifier, or 0.
pub open spec fn max_note_id(notes: Seq<NoteDocument>) -> NoteId
    decreases notes.len(),
{
    if notes.len() == 0 {
        0
    } else {
        let rest = max_note_id(notes.drop_last());
        if notes.last().id > rest {
            notes.last().id
        } else {
            rest
        }
    }
}

/// Largest snippet identifier, or 0.
pub open spec fn max_snippet_id(snippets: Seq<Snippet>) -> SnippetId
    decreases snippets.len(),
{
    if snippets.len() == 0 {
        0
    } else {
        let rest = max_snippet_id(snippets.drop_last());
        if snippets.last().id > rest {
            snippets.last().id
        } else {
            rest
        }
    }
}

/// Identifier counter after restore: past every stored identifier.
pub open spec fn repaired_next_id(next: u64, max_id: u64) -> u64 {
    let bumped = if max_id == u64::MAX {
        u64::MAX
    } else {
        (max_id + 1) as u64
    };
    if next > bumped {
        next
    } else {
        bumped
    }
}

/// `n + 1`, or `n` itself at `u64::MAX`.
pub open spec fn sat_inc(n: u64) -> u64 {
    if n == u64::MAX {
        n
    } else {
        (n + 1) as u64
    }
}

/// Markdown after a snippet reference line is appended: a newline first when
/// the text does not already end a line, then the token and a newline.
pub open spec fn markdown_with_reference(markdown: Seq<char>, snippet_id: SnippetId) -> Seq<char> {
    let sep = if markdown.len() > 0 && markdown.last() != '\n' {
        seq!['\n']
    } else {
        Seq::<char>::empty()
    };
    markdown + sep + spec_snippet_token(snippet_id) + seq!['\n']
}

fn duplicate_log_ref(r: &SnippetLogRef) -> (c: SnippetLogRef)
    ensures
        c == *r,
{
    SnippetLogRef {
        session_id: r.session_id,
        stream_id: r.stream_id.clone(),
        start_offset: r.start_offset,
        end_offset: r.end_offset,
        start_row: r.start_row,
        end_row: r.end_row,
    }
}

fn duplicate_opt_string(s: &Option<String>) -> (c: Option<String>)
    ensures
        c == *s,
{
    match s {
        Some(v) => Some(v.clone()),
        None => None,
    }
}

fn duplicate_snippet(s: &Snippet) -> (c: Snippet)
    ensures
        c == *s,
{
    Snippet {
        id: s.id,
        created_at_unix_ms: s.created_at_unix_ms,
        source_cwd: s.source_cwd.clone(),
        text_snapshot_plain: s.text_snapshot_plain.clone(),
        log_ref: duplicate_log_ref(&s.log_ref),
        embedding_status: s.embedding_status,
        embedding_object_id: duplicate_opt_string(&s.embedding_object_id),
        embedding_profile_id: duplicate_opt_string(&s.embedding_profile_id),
        embedding_dimensions: s.embedding_dimensions,
        embedding_error: duplicate_opt_string(&s.embedding_error),
    }
}

fn duplicate_note(n: &NoteDocument) -> (c: NoteDocument)
    ensures
        c == *n,
{
    NoteDocument {
        id: n.id,
        group_id: n.group_id,
        title: n.title.clone(),
        markdown: n.markdown.clone(),
        updated_at_unix_ms: n.updated_at_unix_ms,
    }
}

fn group_listed(valid: &[GroupId], group_id: GroupId) -> (b: bool)
    ensures
        b == valid@.contains(group_id),
{
    let mut i: usize = 0;
    while i < valid.len()
        invariant
            i <= valid.len(),
            forall|j: int| 0 <= j < i ==> valid@[j] != group_id,
        decreases valid.len() - i,
    {
        if valid[i] == group_id {
            return true;
        }
        i = i + 1;
    }
    false
}

impl Default for KnowledgeState {
    fn default() -> (s: Self)
        ensures
            s@.notes.len() == 0,
            s@.snippets.len() == 0,
            s@.selected_note_id is None,
            s@.next_note_id == 1,
            s@.next_snippet_id == 1,
    {
        KnowledgeState {
            notes: Vec::new(),
            snippets: Vec::new(),
            selected_note_id: None,
            next_note_id: 1,
            next_snippet_id: 1,
        }
    }
}

impl KnowledgeState {
    fn find_note(&self, note_id: NoteId) -> (r: Option<usize>)
        ensures
            match r {
                Some(i) => i as int == note_index(self@.notes, note_id) && i < self@.notes.len(),
                None => note_index(self@.notes, note_id) == -1,
            },
    {
        let ghost p = note_id_is(note_id);
        let mut i: usize = 0;
        while i < self.notes.len()
            invariant
                i <= self.notes.len(),
                p == note_id_is(note_id),
                forall|j: int| 0 <= j < i ==> !p(#[trigger] self.notes@[j]),
            decreases self.notes.len() - i,
        {
            if self.notes[i].id == note_id {
                proof {
                    assert(is_first_index(self.notes@, p, i as int));
                    lemma_first_index_is(self.notes@, p, i as int);
                }
                return Some(i);
            }
            i = i + 1;
        }
        proof {
            lemma_first_index_none(self.notes@, p);
        }
        None
    }

    fn find_snippet(&self, snippet_id: SnippetId) -> (r: Option<usize>)
        ensures
            match r {
                Some(i) => i as int == snippet_index(self@.snippets, snippet_id) && i
                    < self@.snippets.len(),
                None => snippet_index(self@.snippets, snippet_id) == -1,
            },
    {
        let ghost p = snippet_id_is(snippet_id);
        let mut i: usize = 0;
        while i < self.snippets.len()
            invariant
                i <= self.snippets.len(),
                p == snippet_id_is(snippet_id),
                forall|j: int| 0 <= j < i ==> !p(#[trigger] self.snippets@[j]),
            decreases self.snippets.len() - i,
        {
            if self.snippets[i].id == snippet_id {
                proof {
                    assert(is_first_index(self.snippets@, p, i as int));
                    lemma_first_index_is(self.snippets@, p, i as int);
                }
                return Some(i);
            }
            i = i + 1;
        }
        proof {
            lemma_first_index_none(self.snippets@, p);
        }
        None
    }

    /// Repairs notes and snippets loaded from storage: notes move to a valid
    /// group and get a title, a dangling selection is dropped, snippet ranges
    /// are put in order, blank snippets are dropped, and the identifier
    /// counters move past every stored identifier.
    pub fn repair_after_restore(&mut self, valid_group_ids: &[GroupId], fallback_group_id: GroupId)
        ensures
            after_knowledge_repair(old(self)@, final(self)@, valid_group_ids@, fallback_group_id),
    {
        let ghost old_notes = self.notes@;
        let ghost old_snippets = self.snippets@;
        let mut notes: Vec<NoteDocument> = Vec::new();
        let mut max_note: NoteId = 0;
        let mut i: usize = 0;
        while i < self.notes.len()
            invariant
                i <= self.notes.len(),
                self.notes@ == old_notes,
                notes@.len() == i,
                forall|k: int|
                    0 <= k < i ==> note_repaired(
                        old_notes[k],
                        #[trigger] notes@[k],
                        valid_group_ids@,
                        fallback_group_id,
                    ),
                max_note == max_note_id(old_notes.take(i as int)),
            decreases self.notes.len() - i,
        {
            let old_note = &self.notes[i];
            let group_id = if old_note.group_id == 0 || !group_listed(
                valid_group_ids,
                old_note.group_id,
            ) {
                fallback_group_id
            } else {
                old_note.group_id
            };
            let title = if is_blank(old_note.title.as_str()) {
                default_note_title()
            } else {
                old_note.title.clone()
            };
            notes.push(
                NoteDocument {
                    id: old_note.id,
                    group_id,
                    title,
                    markdown: old_note.markdown.clone(),
                    updated_at_unix_ms: old_note.updated_at_unix_ms,
                },
            );
            proof {
                assert(old_notes.take(i + 1).drop_last() =~= old_notes.take(i as int));
            }
            if old_note.id > max_note {
                max_note = old_note.id;
            }
            i = i + 1;
        }
        proof {
            lemma_take_full(old_notes);
        }
        let mut selected = self.selected_note_id;
        match self.selected_note_id {
            Some(id) => {
                if self.find_note(id).is_none() {
                    selected = None;
                    proof {
                        lemma_first_index_cases(old_notes, note_id_is(id));
                        if has_note(old_notes, id) {
                            let w = choose|w: int| 0 <= w < old_notes.len() && (#[trigger] old_notes[w]).id == id;
                            assert(note_id_is(id)(old_notes[w]));
                        }
                    }
                } else {
                    proof {
                        let k = note_index(old_notes, id);
                        lemma_first_index_cases(old_notes, note_id_is(id));
                        assert(old_notes[k].id == id);
                    }
                }
            },
            None => {},
        }
        let ghost mapped = old_snippets.map_values(|s: Snippet| ordered_snippet(s));
        let ghost keep = |s: Snippet| snippet_has_text(s);
        let mut snippets: Vec<Snippet> = Vec::new();
        let mut max_snippet: SnippetId = 0;
        let mut j: usize = 0;
        proof {
            lemma_filter_take_zero(mapped, keep);
        }
        while j < self.snippets.len()
            invariant
                j <= self.snippets.len(),
                self.snippets@ == old_snippets,
                mapped == old_snippets.map_values(|s: Snippet| ordered_snippet(s)),
                keep == (|s: Snippet| snippet_has_text(s)),
                snippets@ == mapped.take(j as int).filter(keep),
                max_snippet == max_snippet_id(snippets@),
            decreases self.snippets.len() - j,
        {
            let s = &self.snippets[j];
            let start_offset = if s.log_ref.end_offset < s.log_ref.start_offset {
                s.log_ref.end_offset
            } else {
                s.log_ref.start_offset
            };
            let end_offset = if s.log_ref.end_offset < s.log_ref.start_offset {
                s.log_ref.start_offset
            } else {
                s.log_ref.end_offset
            };
            let start_row = if s.log_ref.end_row < s.log_ref.start_row {
                s.log_ref.end_row
            } else {
                s.log_ref.start_row
            };
            let end_row = if s.log_ref.end_row < s.log_ref.start_row {
                s.log_ref.start_row
            } else {
                s.log_ref.end_row
            };
            let ordered = Snippet {
                id: s.id,
                created_at_unix_ms: s.created_at_unix_ms,
                source_cwd: s.source_cwd.clone(),
                text_snapshot_plain: s.text_snapshot_plain.clone(),
                log_ref: SnippetLogRef {
                    session_id: s.log_ref.session_id,
                    stream_id: s.log_ref.stream_id.clone(),
                    start_offset,
                    end_offset,
                    start_row,
                    end_row,
                },
                embedding_status: s.embedding_status,
                embedding_object_id: duplicate_opt_string(&s.embedding_object_id),
                embedding_profile_id: duplicate_opt_string(&s.embedding_profile_id),
                embedding_dimensions: s.embedding_dimensions,
                embedding_error: duplicate_opt_string(&s.embedding_error),
            };
            proof {
                assert(ordered == mapped[j as int]);
                lemma_filter_take_step(mapped, keep, j as int);
            }
            if !is_blank(s.text_snapshot_plain.as_str()) {
                let ghost before = snippets@;
                if ordered.id > max_snippet {
                    max_snippet = ordered.id;
                }
                snippets.push(ordered);
                proof {
                    assert(snippets@.drop_last() =~= before);
                }
            }
            j = j + 1;
        }
        proof {
            lemma_take_full(mapped);
        }
        let bumped_note = max_note.saturating_add(1);
        let bumped_snippet = max_snippet.saturating_add(1);
        self.notes = notes;
        self.snippets = snippets;
        self.selected_note_id = selected;
        if bumped_note > self.next_note_id {
            self.next_note_id = bumped_note;
        }
        if bumped_snippet > self.next_snippet_id {
            self.next_snippet_id = bumped_snippet;
        }
    }

    /// Removes every note of `group_id`.
    pub fn remove_notes_for_group(&mut self, group_id: GroupId)
        ensures
            after_remove_notes_for_group(old(self)@, final(self)@, group_id),
    {
        let ghost old_notes = self.notes@;
        let ghost keep = |n: NoteDocument| n.group_id != group_id;
        let mut kept: Vec<NoteDocument> = Vec::new();
        let mut i: usize = 0;
        proof {
            lemma_filter_take_zero(old_notes, keep);
        }
        while i < self.notes.len()
            invariant
                i <= self.notes.len(),
                self.notes@ == old_notes,
                keep == (|n: NoteDocument| n.group_id != group_id),
                kept@ == old_notes.take(i as int).filter(keep),
            decreases self.notes.len() - i,
        {
            proof {
                lemma_filter_take_step(old_notes, keep, i as int);
            }
            if self.notes[i].group_id != group_id {
                kept.push(duplicate_note(&self.notes[i]));
            }
            i = i + 1;
        }
        proof {
            lemma_take_full(old_notes);
        }
        self.notes = kept;
    }

    /// Returns all notes in insertion order.
    pub fn notes(&self) -> (notes: &[NoteDocument])
        ensures
            notes@ == self@.notes,
    {
        self.notes.as_slice()
    }

    /// Returns the notes of one path group in insertion order.
    pub fn notes_for_group(&self, group_id: GroupId) -> (notes: Vec<&NoteDocument>)
        ensures
            notes@.len() == notes_in_group(self@.notes, group_id).len(),
            forall|i: int|
                0 <= i < notes@.len() ==> *notes@[i] == notes_in_group(self@.notes, group_id)[i],
    {
        let ghost keep = note_group_is(group_id);
        let mut out: Vec<&NoteDocument> = Vec::new();
        let mut i: usize = 0;
        proof {
            lemma_filter_take_zero(self.notes@, keep);
        }
        while i < self.notes.len()
            invariant
                i <= self.notes.len(),
                keep == note_group_is(group_id),
                out@.len() == self.notes@.take(i as int).filter(keep).len(),
                forall|k: int|
                    0 <= k < out@.len() ==> *out@[k] == self.notes@.take(i as int).filter(keep)[k],
            decreases self.notes.len() - i,
        {
            proof {
                lemma_filter_take_step(self.notes@, keep, i as int);
            }
            if self.notes[i].group_id == group_id {
                out.push(&self.notes[i]);
            }
            i = i + 1;
        }
        proof {
            lemma_take_full(self.notes@);
        }
        out
    }

    /// Returns the first note with identifier `note_id`.
    pub fn note_by_id(&self, note_id: NoteId) -> (note: Option<&NoteDocument>)
        ensures
            match note {
                Some(n) => note_index(self@.notes, note_id) >= 0 && *n == self@.notes[note_index(
                    self@.notes,
                    note_id,
                )],
                None => note_index(self@.notes, note_id) == -1,
            },
    {
        match self.find_note(note_id) {
            Some(i) => Some(&self.notes[i]),
            None => None,
        }
    }

    /// Returns the selected note identifier.
    pub fn selected_note_id(&self) -> (id: Option<NoteId>)
        ensures
            id == self@.selected_note_id,
    {
        self.selected_note_id
    }

    /// Returns the selected note when it belongs to `group_id`, else the first
    /// note of that group.
    pub fn selected_note_id_for_group(&self, group_id: GroupId) -> (id: Option<NoteId>)
        ensures
            id == if selection_in_group(self@.notes, self@.selected_note_id, group_id) {
                self@.selected_note_id
            } else if notes_in_group(self@.notes, group_id).len() > 0 {
                Some(notes_in_group(self@.notes, group_id)[0].id)
            } else {
                None
            },
    {
        if let Some(selected) = self.selected_note_id {
            let mut i: usize = 0;
            while i < self.notes.len()
                invariant
                    i <= self.notes.len(),
                    self.selected_note_id == Some(selected),
                    forall|j: int|
                        0 <= j < i ==> !((#[trigger] self.notes@[j]).id == selected
                            && self.notes@[j].group_id == group_id),
                decreases self.notes.len() - i,
            {
                if self.notes[i].id == selected && self.notes[i].group_id == group_id {
                    proof {
                        assert(self.notes@[i as int].id == selected);
                    }
                    return Some(selected);
                }
                i = i + 1;
            }
            proof {
                assert(!exists|j: int|
                    0 <= j < self.notes@.len() && (#[trigger] self.notes@[j]).id == selected
                        && self.notes@[j].group_id == group_id);
            }
        }
        let ghost keep = note_group_is(group_id);
        let mut k: usize = 0;
        proof {
            lemma_filter_take_zero(self.notes@, keep);
        }
        while k < self.notes.len()
            invariant
                k <= self.notes.len(),
                keep == note_group_is(group_id),
                !selection_in_group(self@.notes, self@.selected_note_id, group_id),
                self.notes@.take(k as int).filter(keep).len() == 0,
            decreases self.notes.len() - k,
        {
            proof {
                lemma_filter_take_step(self.notes@, keep, k as int);
            }
            if self.notes[k].group_id == group_id {
                proof {
                    lemma_filter_prefix_first(self.notes@, keep, k as int);
                }
                return Some(self.notes[k].id);
            }
            k = k + 1;
        }
        proof {
            lemma_take_full(self.notes@);
        }
        None
    }

    /// Selects the active note. Returns true when the selection changed.
    pub fn select_note(&mut self, note_id: NoteId) -> (changed: bool)
        ensures
            after_select_note(old(self)@, final(self)@, note_id, changed),
    {
        if self.selected_note_id == Some(note_id) {
            return false;
        }
        let found = self.find_note(note_id);
        proof {
            lemma_first_index_cases(self.notes@, note_id_is(note_id));
            if has_note(self.notes@, note_id) {
                let w = choose|w: int| 0 <= w < self.notes@.len() && (#[trigger] self.notes@[w]).id == note_id;
                assert(note_id_is(note_id)(self.notes@[w]));
            }
        }
        if found.is_none() {
            return false;
        }
        proof {
            let k = note_index(self.notes@, note_id);
            assert(self.notes@[k].id == note_id);
        }
        self.selected_note_id = Some(note_id);
        true
    }

    /// Returns all snippets in display order (newest and promoted first).
    pub fn snippets(&self) -> (snippets: &[Snippet])
        ensures
            snippets@ == self@.snippets,
    {
        self.snippets.as_slice()
    }

    /// Returns the first snippet with identifier `snippet_id`.
    pub fn snippet_by_id(&self, snippet_id: SnippetId) -> (snippet: Option<&Snippet>)
        ensures
            match snippet {
                Some(s) => snippet_index(self@.snippets, snippet_id) >= 0 && *s
                    == self@.snippets[snippet_index(self@.snippets, snippet_id)],
                None => snippet_index(self@.snippets, snippet_id) == -1,
            },
    {
        match self.find_snippet(snippet_id) {
            Some(i) => Some(&self.snippets[i]),
            None => None,
        }
    }

    /// Returns the snippets captured from one terminal session, in order.
    pub fn snippets_for_session(&self, session_id: SessionId) -> (snippets: Vec<&Snippet>)
        ensures
            snippets@.len() == snippets_of_session(self@.snippets, session_id).len(),
            forall|i: int|
                0 <= i < snippets@.len() ==> *snippets@[i] == snippets_of_session(
                    self@.snippets,
                    session_id,
                )[i],
    {
        let ghost keep = |s: Snippet| s.log_ref.session_id == session_id;
        let mut out: Vec<&Snippet> = Vec::new();
        let mut i: usize = 0;
        proof {
            lemma_filter_take_zero(self.snippets@, keep);
        }
        while i < self.snippets.len()
            invariant
                i <= self.snippets.len(),
                keep == (|s: Snippet| s.log_ref.session_id == session_id),
                out@.len() == self.snippets@.take(i as int).filter(keep).len(),
                forall|k: int|
                    0 <= k < out@.len() ==> *out@[k] == self.snippets@.take(i as int).filter(
                        keep,
                    )[k],
            decreases self.snippets.len() - i,
        {
            proof {
                lemma_filter_take_step(self.snippets@, keep, i as int);
            }
            if self.snippets[i].log_ref.session_id == session_id {
                out.push(&self.snippets[i]);
            }
            i = i + 1;
        }
        proof {
            lemma_take_full(self.snippets@);
        }
        out
    }

    /// Creates an empty note in `group_id`, selects it and returns its identifier.
    pub fn create_note_for_group(
        &mut self,
        group_id: GroupId,
        title: String,
        updated_at_unix_ms: i64,
    ) -> (note_id: NoteId)
        ensures
            after_create_note(old(self)@, final(self)@, group_id, title, updated_at_unix_ms, note_id),
    {
        let trimmed = trim_string(title.as_str());
        let note_id = self.next_note_id;
        self.next_note_id = self.next_note_id.saturating_add(1);
        let note_title = if trimmed.as_str().is_empty() {
            default_note_title()
        } else {
            trimmed
        };
        self.notes.push(
            NoteDocument {
                id: note_id,
                group_id,
                title: note_title,
                markdown: String::new(),
                updated_at_unix_ms,
            },
        );
        self.selected_note_id = Some(note_id);
        proof {
            assert(self.notes@.drop_last() =~= old(self).notes@);
        }
        note_id
    }

    /// Replaces a note's markdown and timestamp. Returns false when the note
    /// is missing or already holds both values.
    pub fn update_note_markdown(
        &mut self,
        note_id: NoteId,
        markdown: String,
        updated_at_unix_ms: i64,
    ) -> (updated: bool)
        ensures
            after_update_note_markdown(old(self)@, final(self)@, note_id, markdown, updated_at_unix_ms, updated),
    {
        let i = match self.find_note(note_id) {
            Some(i) => i,
            None => return false,
        };
        let old_note = &self.notes[i];
        if old_note.markdown == markdown && old_note.updated_at_unix_ms == updated_at_unix_ms {
            return false;
        }
        let next = NoteDocument {
            id: old_note.id,
            group_id: old_note.group_id,
            title: old_note.title.clone(),
            markdown,
            updated_at_unix_ms,
        };
        vec_replace(&mut self.notes, i, next);
        true
    }

    /// Appends a `[[snippet:ID]]` reference line to a note. Returns false when
    /// the note is missing.
    pub fn append_note_snippet_reference(
        &mut self,
        note_id: NoteId,
        snippet_id: SnippetId,
        updated_at_unix_ms: i64,
    ) -> (updated: bool)
        ensures
            after_append_snippet_reference(old(self)@, final(self)@, note_id, snippet_id, updated_at_unix_ms, updated),
    {
        let i = match self.find_note(note_id) {
            Some(i) => i,
            None => return false,
        };
        let old_note = &self.notes[i];
        let token = snippet_reference_token(snippet_id);
        let mut markdown = old_note.markdown.clone();
        let chars = chars_of(markdown.as_str());
        if chars.len() > 0 && chars[chars.len() - 1] != '\n' {
            markdown.push('\n');
        }
        markdown.append(token.as_str());
        markdown.push('\n');
        proof {
            assert(markdown@ =~= markdown_with_reference(old_note.markdown@, snippet_id));
        }
        let next = NoteDocument {
            id: old_note.id,
            group_id: old_note.group_id,
            title: old_note.title.clone(),
            markdown,
            updated_at_unix_ms,
        };
        vec_replace(&mut self.notes, i, next);
        true
    }

    /// Captures a snippet at the front of the list and returns its identifier.
    pub fn create_snippet(&mut self, new_snippet: NewSnippet) -> (snippet_id: SnippetId)
        ensures
            after_create_snippet(old(self)@, final(self)@, new_snippet, snippet_id),
    {
        let snippet_id = self.next_snippet_id;
        self.next_snippet_id = self.next_snippet_id.saturating_add(1);
        let start_offset = if new_snippet.start_offset < new_snippet.end_offset {
            new_snippet.start_offset
        } else {
            new_snippet.end_offset
        };
        let end_offset = if new_snippet.start_offset > new_snippet.end_offset {
            new_snippet.start_offset
        } else {
            new_snippet.end_offset
        };
        let start_row = if new_snippet.start_row < new_snippet.end_row {
            new_snippet.start_row
        } else {
            new_snippet.end_row
        };
        let end_row = if new_snippet.start_row > new_snippet.end_row {
            new_snippet.start_row
        } else {
            new_snippet.end_row
        };
        let log_ref = SnippetLogRef {
            session_id: new_snippet.source_session_id,
            stream_id: new_snippet.source_stream_id,
            start_offset,
            end_offset,
            start_row,
            end_row,
        };
        self.snippets.insert(
            0,
            Snippet {
                id: snippet_id,
                created_at_unix_ms: new_snippet.created_at_unix_ms,
                source_cwd: new_snippet.source_cwd,
                text_snapshot_plain: new_snippet.text_snapshot_plain,
                log_ref,
                embedding_status: SnippetEmbeddingStatus::Pending,
                embedding_object_id: None,
                embedding_profile_id: None,
                embedding_dimensions: None,
                embedding_error: None,
            },
        );
        proof {
            assert(self.snippets@.drop_first() =~= old(self).snippets@);
        }
        snippet_id
    }

    /// Moves a snippet to the front. Returns false when it is missing or
    /// already first.
    pub fn promote_snippet(&mut self, snippet_id: SnippetId) -> (promoted: bool)
        ensures
            after_promote_snippet(old(self)@, final(self)@, snippet_id, promoted),
    {
        let index = match self.find_snippet(snippet_id) {
            Some(i) => i,
            None => return false,
        };
        if index == 0 {
            return false;
        }
        let snippet = self.snippets.remove(index);
        self.snippets.insert(0, snippet);
        proof {
            assert(self.snippets@ =~= seq![old(self).snippets@[index as int]] + old(
                self,
            ).snippets@.remove(index as int));
        }
        true
    }

    /// Deletes every snippet with identifier `snippet_id`. Returns true when
    /// one was removed.
    pub fn delete_snippet(&mut self, snippet_id: SnippetId) -> (deleted: bool)
        ensures
            after_delete_snippet(old(self)@, final(self)@, snippet_id, deleted),
    {
        let ghost old_snippets = self.snippets@;
        let ghost keep = |s: Snippet| s.id != snippet_id;
        let mut kept: Vec<Snippet> = Vec::new();
        let mut i: usize = 0;
        let mut removed = false;
        proof {
            lemma_filter_take_zero(old_snippets, keep);
        }
        while i < self.snippets.len()
            invariant
                i <= self.snippets.len(),
                self.snippets@ == old_snippets,
                keep == (|s: Snippet| s.id != snippet_id),
                kept@ == old_snippets.take(i as int).filter(keep),
                kept@.len() + (if removed {
                    1int
                } else {
                    0int
                }) <= i,
                removed == exists|j: int| 0 <= j < i && (#[trigger] old_snippets[j]).id == snippet_id,
                !removed ==> kept@.len() == i,
            decreases self.snippets.len() - i,
        {
            proof {
                lemma_filter_take_step(old_snippets, keep, i as int);
            }
            if self.snippets[i].id != snippet_id {
                kept.push(duplicate_snippet(&self.snippets[i]));
            } else {
                removed = true;
            }
            i = i + 1;
        }
        proof {
            lemma_take_full(old_snippets);
            lemma_first_index_cases(old_snippets, snippet_id_is(snippet_id));
            if removed {
                let w = choose|j: int| 0 <= j < old_snippets.len() && (#[trigger] old_snippets[j]).id == snippet_id;
                assert(snippet_id_is(snippet_id)(old_snippets[w]));
            }
        }
        self.snippets = kept;
        removed
    }

    /// Marks a snippet's embedding as processing. Returns false when the
    /// snippet is missing or already processing.
    pub fn set_snippet_embedding_processing(&mut self, snippet_id: SnippetId) -> (updated: bool)
        ensures
            after_embedding_processing(old(self)@, final(self)@, snippet_id, updated),
    {
        let i = match self.find_snippet(snippet_id) {
            Some(i) => i,
            None => return false,
        };
        if self.snippets[i].embedding_status == SnippetEmbeddingStatus::Processing {
            return false;
        }
        let old_s = &self.snippets[i];
        let next = Snippet {
            embedding_status: SnippetEmbeddingStatus::Processing,
            embedding_error: None,
            ..duplicate_snippet(old_s)
        };
        vec_replace(&mut self.snippets, i, next);
        true
    }

    /// Records a finished embedding. Returns false when the snippet is missing.
    pub fn set_snippet_embedding_ready(
        &mut self,
        snippet_id: SnippetId,
        embedding_object_id: String,
        embedding_profile_id: Option<String>,
        embedding_dimensions: Option<usize>,
    ) -> (updated: bool)
        ensures
            after_embedding_ready(old(self)@, final(self)@, snippet_id, embedding_object_id, embedding_profile_id, embedding_dimensions, updated),
    {
        let i = match self.find_snippet(snippet_id) {
            Some(i) => i,
            None => return false,
        };
        let next = Snippet {
            embedding_status: SnippetEmbeddingStatus::Ready,
            embedding_object_id: Some(embedding_object_id),
            embedding_profile_id,
            embedding_dimensions,
            embedding_error: None,
            ..duplicate_snippet(&self.snippets[i])
        };
        vec_replace(&mut self.snippets, i, next);
        true
    }

    /// Records a failed embedding. Returns false when the snippet is missing.
    pub fn set_snippet_embedding_failed(&mut self, snippet_id: SnippetId, error: String) -> (updated:
        bool)
        ensures
            after_embedding_failed(old(self)@, final(self)@, snippet_id, error, updated),
    {
        let i = match self.find_snippet(snippet_id) {
            Some(i) => i,
            None => return false,
        };
        let next = Snippet {
            embedding_status: SnippetEmbeddingStatus::Failed,
            embedding_error: Some(error),
            ..duplicate_snippet(&self.snippets[i])
        };
        vec_replace(&mut self.snippets, i, next);
        true
    }
}

/// When the first `k` elements of `s` contain no match and `s[k]` matches,
/// `s[k]` is the first element of the filter.
proof fn lemma_filter_prefix_first<T>(s: Seq<T>, p: spec_fn(T) -> bool, k: int)
    requires
        0 <= k < s.len(),
        p(s[k]),
        s.take(k).filter(p).len() == 0,
    ensures
        s.filter(p).len() > 0,
        s.filter(p)[0] == s[k],
    decreases s.len() - k,
{
    lemma_filter_take_step(s, p, k);
    assert(s.take(k + 1).filter(p) =~= seq![s[k]]);
    lemma_filter_take_extends(s, p, k + 1);
}

/// The filter of a prefix is a prefix of the filter of the whole.
proof fn lemma_filter_take_extends<T>(s: Seq<T>, p: spec_fn(T) -> bool, k: int)
    requires
        0 <= k <= s.len(),
    ensures
        s.take(k).filter(p).len() <= s.filter(p).len(),
        forall|j: int|
            0 <= j < s.take(k).filter(p).len() ==> s.filter(p)[j] == s.take(k).filter(p)[j],
    decreases s.len() - k,
{
    if k == s.len() {
        lemma_take_full(s);
    } else {
        lemma_filter_take_step(s, p, k);
        lemma_filter_take_extends(s, p, k + 1);
    }
}

/// What `repair_after_restore` leaves behind: the clauses of its contract, over the
/// state `before` and `after` the call and its arguments.
pub open spec fn after_knowledge_repair(before: KnowledgeView, after: KnowledgeView, valid_group_ids: Seq<GroupId>, fallback_group_id: GroupId) -> bool {
    &&& after.notes.len() == before.notes.len()
    &&& forall|i: int|
            0 <= i < before.notes.len() ==> note_repaired(
                before.notes[i],
                #[trigger] after.notes[i],
                valid_group_ids,
                fallback_group_id,
            )
    &&& after.selected_note_id == (match before.selected_note_id {
            Some(id) => if has_note(before.notes, id) {
                Some(id)
            } else {
                None
            },
            None => None,
        })
    &&& after.snippets == before.snippets.map_values(|s: Snippet| ordered_snippet(s)).filter(
            |s: Snippet| snippet_has_text(s),
        )
    &&& after.next_note_id == repaired_next_id(
            before.next_note_id,
            max_note_id(before.notes),
        )
    &&& after.next_snippet_id == repaired_next_id(
            before.next_snippet_id,
            max_snippet_id(after.snippets),
        )
}

/// Identifier maxima depend on the identifiers alone.
proof fn lemma_max_note_id_by_ids(a: Seq<NoteDocument>, b: Seq<NoteDocument>)
    requires
        a.len() == b.len(),
        forall|i: int| 0 <= i < a.len() ==> (#[trigger] a[i]).id == b[i].id,
    ensures
        max_note_id(a) == max_note_id(b),
    decreases a.len(),
{
    if a.len() > 0 {
        lemma_max_note_id_by_ids(a.drop_last(), b.drop_last());
        assert(a[a.len() - 1].id == b[b.len() - 1].id);
    }
}

/// A second restore repair against the same groups and fallback changes
/// nothing: notes, snippets, selection and identifier counters stay as the
/// first repair left them.
pub proof fn lemma_knowledge_repair_idempotent(
    first: KnowledgeView,
    once: KnowledgeView,
    twice: KnowledgeView,
    valid_group_ids: Seq<GroupId>,
    fallback_group_id: GroupId,
)
    requires
        after_knowledge_repair(first, once, valid_group_ids, fallback_group_id),
        after_knowledge_repair(once, twice, valid_group_ids, fallback_group_id),
    ensures
        twice == once,
{
    assert forall|i: int| 0 <= i < once.notes.len() implies #[trigger] twice.notes[i] == once.notes[i] by {
        assert(note_repaired(first.notes[i], once.notes[i], valid_group_ids, fallback_group_id));
        assert(note_repaired(once.notes[i], twice.notes[i], valid_group_ids, fallback_group_id));
        if trim_seq(first.notes[i].title@).len() == 0 {
            reveal_strlit("Note");
            assert(!crate::text::is_white_space('N'));
            assert(trim_seq("Note"@) =~= "Note"@);
        }
    }
    assert(twice.notes =~= once.notes);
    let ord = |s: Snippet| ordered_snippet(s);
    let has_text = |s: Snippet| snippet_has_text(s);
    let settled = |s: Snippet| ordered_snippet(s) == s && snippet_has_text(s);
    let mapped = first.snippets.map_values(ord);
    lemma_filter_keeps(mapped, has_text, |s: Snippet| ordered_snippet(s) == s);
    assert forall|i: int| 0 <= i < once.snippets.len() implies settled(#[trigger] once.snippets[i]) by {
        mapped.lemma_filter_pred(has_text, i);
    }
    assert(once.snippets.map_values(ord) =~= once.snippets);
    lemma_filter_all(once.snippets, has_text);
    assert(twice.snippets == once.snippets);
    lemma_max_note_id_by_ids(first.notes, once.notes);
    assert forall|id: NoteId| has_note(first.notes, id) implies has_note(once.notes, id) by {
        let w = choose|i: int| 0 <= i < first.notes.len() && (#[trigger] first.notes[i]).id == id;
        assert(once.notes[w].id == id);
    }
}

/// What `remove_notes_for_group` leaves behind: the clauses of its contract, over the
/// state `before` and `after` the call and its arguments.
pub open spec fn after_remove_notes_for_group(before: KnowledgeView, after: KnowledgeView, group_id: GroupId) -> bool {
    &&& after.notes == before.notes.filter(|n: NoteDocument| n.group_id != group_id)
    &&& after.snippets == before.snippets
    &&& after.selected_note_id == before.selected_note_id
    &&& after.next_note_id == before.next_note_id
    &&& after.next_snippet_id == before.next_snippet_id
}

/// What `select_note` leaves behind: the clauses of its contract, over the
/// state `before` and `after` the call, its arguments and its result.
pub open spec fn after_select_note(before: KnowledgeView, after: KnowledgeView, note_id: NoteId, changed: bool) -> bool {
    &&& changed == (before.selected_note_id != Some(note_id) && has_note(
            before.notes,
            note_id,
        ))
    &&& after.selected_note_id == if changed {
            Some(note_id)
        } else {
            before.selected_note_id
        }
    &&& after.notes == before.notes
    &&& after.snippets == before.snippets
    &&& after.next_note_id == before.next_note_id
    &&& after.next_snippet_id == before.next_snippet_id
}

/// What `create_note_for_group` leaves behind: the clauses of its contract, over the
/// state `before` and `after` the call, its arguments and its result.
pub open spec fn after_create_note(before: KnowledgeView, after: KnowledgeView, group_id: GroupId, title: String, updated_at_unix_ms: i64, note_id: NoteId) -> bool {
    &&& note_id == before.next_note_id
    &&& after.next_note_id == sat_inc(before.next_note_id)
    &&& after.notes.len() == before.notes.len() + 1
    &&& after.notes.drop_last() == before.notes
    &&& after.notes.last().id == note_id
    &&& after.notes.last().group_id == group_id
    &&& after.notes.last().title@ == if trim_seq(title@).len() == 0 {
            "Note"@
        } else {
            trim_seq(title@)
        }
    &&& after.notes.last().markdown@ == Seq::<char>::empty()
    &&& after.notes.last().updated_at_unix_ms == updated_at_unix_ms
    &&& after.selected_note_id == Some(note_id)
    &&& after.snippets == before.snippets
    &&& after.next_snippet_id == before.next_snippet_id
}

/// What `update_note_markdown` leaves behind: the clauses of its contract, over the
/// state `before` and `after` the call, its arguments and its result.
pub open spec fn after_update_note_markdown(before: KnowledgeView, after: KnowledgeView, note_id: NoteId, markdown: String, updated_at_unix_ms: i64, updated: bool) -> bool {
    &&& ({
            let k = note_index(before.notes, note_id);
            let old_note = before.notes[k];
            &&& updated == (k >= 0 && !(old_note.markdown@ == markdown@
                && old_note.updated_at_unix_ms == updated_at_unix_ms))
            &&& after.notes == if updated {
                before.notes.update(
                    k,
                    NoteDocument { markdown, updated_at_unix_ms, ..old_note },
                )
            } else {
                before.notes
            }
        })
    &&& after.snippets == before.snippets
    &&& after.selected_note_id == before.selected_note_id
    &&& after.next_note_id == before.next_note_id
    &&& after.next_snippet_id == before.next_snippet_id
}

/// What `append_note_snippet_reference` leaves behind: the clauses of its contract, over the
/// state `before` and `after` the call, its arguments and its result.
pub open spec fn after_append_snippet_reference(before: KnowledgeView, after: KnowledgeView, note_id: NoteId, snippet_id: SnippetId, updated_at_unix_ms: i64, updated: bool) -> bool {
    &&& ({
            let k = note_index(before.notes, note_id);
            let old_note = before.notes[k];
            let new_note = after.notes[k];
            &&& updated == (k >= 0)
            &&& updated ==> after.notes.len() == before.notes.len()
            &&& updated ==> forall|j: int|
                0 <= j < before.notes.len() && j != k ==> after.notes[j] == before.notes[j]
            &&& updated ==> new_note.id == old_note.id && new_note.group_id
                == old_note.group_id && new_note.title == old_note.title
                && new_note.updated_at_unix_ms == updated_at_unix_ms && new_note.markdown@
                == markdown_with_reference(old_note.markdown@, snippet_id)
            &&& !updated ==> after.notes == before.notes
        })
    &&& after.snippets == before.snippets
    &&& after.selected_note_id == before.selected_note_id
    &&& after.next_note_id == before.next_note_id
    &&& after.next_snippet_id == before.next_snippet_id
}

/// What `create_snippet` leaves behind: the clauses of its contract, over the
/// state `before` and `after` the call, its arguments and its result.
pub open spec fn after_create_snippet(before: KnowledgeView, after: KnowledgeView, new_snippet: NewSnippet, snippet_id: SnippetId) -> bool {
    &&& snippet_id == before.next_snippet_id
    &&& after.next_snippet_id == sat_inc(before.next_snippet_id)
    &&& after.snippets.len() == before.snippets.len() + 1
    &&& after.snippets.drop_first() == before.snippets
    &&& after.snippets[0] == (Snippet {
            id: snippet_id,
            created_at_unix_ms: new_snippet.created_at_unix_ms,
            source_cwd: new_snippet.source_cwd,
            text_snapshot_plain: new_snippet.text_snapshot_plain,
            log_ref: ordered_log_ref(
                SnippetLogRef {
                    session_id: new_snippet.source_session_id,
                    stream_id: new_snippet.source_stream_id,
                    start_offset: new_snippet.start_offset,
                    end_offset: new_snippet.end_offset,
                    start_row: new_snippet.start_row,
                    end_row: new_snippet.end_row,
                },
            ),
            embedding_status: SnippetEmbeddingStatus::Pending,
            embedding_object_id: None,
            embedding_profile_id: None,
            embedding_dimensions: None,
            embedding_error: None,
        })
    &&& after.notes == before.notes
    &&& after.selected_note_id == before.selected_note_id
    &&& after.next_note_id == before.next_note_id
}

/// What `promote_snippet` leaves behind: the clauses of its contract, over the
/// state `before` and `after` the call, its arguments and its result.
pub open spec fn after_promote_snippet(before: KnowledgeView, after: KnowledgeView, snippet_id: SnippetId, promoted: bool) -> bool {
    &&& ({
            let k = snippet_index(before.snippets, snippet_id);
            &&& promoted == (k > 0)
            &&& after.snippets == if promoted {
                seq![before.snippets[k]] + before.snippets.remove(k)
            } else {
                before.snippets
            }
        })
    &&& after.notes == before.notes
    &&& after.selected_note_id == before.selected_note_id
    &&& after.next_note_id == before.next_note_id
    &&& after.next_snippet_id == before.next_snippet_id
}

/// What `delete_snippet` leaves behind: the clauses of its contract, over the
/// state `before` and `after` the call, its arguments and its result.
pub open spec fn after_delete_snippet(before: KnowledgeView, after: KnowledgeView, snippet_id: SnippetId, deleted: bool) -> bool {
    &&& after.snippets == before.snippets.filter(|s: Snippet| s.id != snippet_id)
    &&& deleted == (after.snippets.len() != before.snippets.len())
    &&& deleted == (snippet_index(before.snippets, snippet_id) >= 0)
    &&& after.notes == before.notes
    &&& after.selected_note_id == before.selected_note_id
    &&& after.next_note_id == before.next_note_id
    &&& after.next_snippet_id == before.next_snippet_id
}

/// What `set_snippet_embedding_processing` leaves behind: the clauses of its contract, over the
/// state `before` and `after` the call, its arguments and its result.
pub open spec fn after_embedding_processing(before: KnowledgeView, after: KnowledgeView, snippet_id: SnippetId, updated: bool) -> bool {
    &&& ({
            let k = snippet_index(before.snippets, snippet_id);
            let old_s = before.snippets[k];
            &&& updated == (k >= 0 && old_s.embedding_status
                != SnippetEmbeddingStatus::Processing)
            &&& after.snippets == if updated {
                before.snippets.update(
                    k,
                    Snippet {
                        embedding_status: SnippetEmbeddingStatus::Processing,
                        embedding_error: None,
                        ..old_s
                    },
                )
            } else {
                before.snippets
            }
        })
    &&& after.notes == before.notes
    &&& after.selected_note_id == before.selected_note_id
    &&& after.next_note_id == before.next_note_id
    &&& after.next_snippet_id == before.next_snippet_id
}

/// What `set_snippet_embedding_ready` leaves behind: the clauses of its contract, over the
/// state `before` and `after` the call, its arguments and its result.
pub open spec fn after_embedding_ready(before: KnowledgeView, after: KnowledgeView, snippet_id: SnippetId, embedding_object_id: String, embedding_profile_id: Option<String>, embedding_dimensions: Option<usize>, updated: bool) -> bool {
    &&& ({
            let k = snippet_index(before.snippets, snippet_id);
            let old_s = before.snippets[k];
            &&& updated == (k >= 0)
            &&& after.snippets == if updated {
                before.snippets.update(
                    k,
                    Snippet {
                        embedding_status: SnippetEmbeddingStatus::Ready,
                        embedding_object_id: Some(embedding_object_id),
                        embedding_profile_id,
                        embedding_dimensions,
                        embedding_error: None,
                        ..old_s
                    },
                )
            } else {
                before.snippets
            }
        })
    &&& after.notes == before.notes
    &&& after.selected_note_id == before.selected_note_id
    &&& after.next_note_id == before.next_note_id
    &&& after.next_snippet_id == before.next_snippet_id
}

/// What `set_snippet_embedding_failed` leaves behind: the clauses of its contract, over the
/// state `before` and `after` the call, its arguments and its result.
pub open spec fn after_embedding_failed(before: KnowledgeView, after: KnowledgeView, snippet_id: SnippetId, error: String, updated: bool) -> bool {
    &&& ({
            let k = snippet_index(before.snippets, snippet_id);
            let old_s = before.snippets[k];
            &&& updated == (k >= 0)
            &&& after.snippets == if updated {
                before.snippets.update(
                    k,
                    Snippet {
                        embedding_status: SnippetEmbeddingStatus::Failed,
                        embedding_error: Some(error),
                        ..old_s
                    },
                )
            } else {
                before.snippets
            }
        })
    &&& after.notes == before.notes
    &&& after.selected_note_id == before.selected_note_id
    &&& after.next_note_id == before.next_note_id
    &&& after.next_snippet_id == before.next_snippet_id
}

/// A note created while no stored note holds the next identifier is the
/// one found under the identifier it was given, with the group, the
/// markdown and the time it was created with.
pub proof fn lemma_created_note_is_found(
    before: KnowledgeView,
    after: KnowledgeView,
    group_id: GroupId,
    title: String,
    updated_at_unix_ms: i64,
    note_id: NoteId,
)
    requires
        after_create_note(before, after, group_id, title, updated_at_unix_ms, note_id),
        forall|i: int| 0 <= i < before.notes.len() ==> (#[trigger] before.notes[i]).id != before.next_note_id,
    ensures
        note_index(after.notes, note_id) == before.notes.len(),
        after.notes[note_index(after.notes, note_id)].group_id == group_id,
        after.notes[note_index(after.notes, note_id)].markdown@ == Seq::<char>::empty(),
        after.notes[note_index(after.notes, note_id)].updated_at_unix_ms == updated_at_unix_ms,
        after.selected_note_id == Some(note_id),
{
    let k = before.notes.len() as int;
    assert(after.notes[k] == after.notes.last());
    assert forall|j: int| 0 <= j < k implies !note_id_is(note_id)(#[trigger] after.notes[j]) by {
        assert(after.notes.drop_last()[j] == after.notes[j]);
        assert(before.notes[j] == after.notes[j]);
    }
    lemma_first_index_is(after.notes, note_id_is(note_id), k);
}

/// A snippet created while no stored snippet holds the next identifier
/// is the one found under the identifier it was given: the first of the
/// list.
pub proof fn lemma_created_snippet_is_found(
    before: KnowledgeView,
    after: KnowledgeView,
    new_snippet: NewSnippet,
    snippet_id: SnippetId,
)
    requires
        after_create_snippet(before, after, new_snippet, snippet_id),
    ensures
        snippet_index(after.snippets, snippet_id) == 0,
        after.snippets[0].text_snapshot_plain == new_snippet.text_snapshot_plain,
{
    lemma_first_index_is(after.snippets, snippet_id_is(snippet_id), 0);
}

} // verus!
