//! Session, note and snippet value types shared by the workspace domains.
use vstd::prelude::*;
use crate::text::{chars_of, decimal_digits, find_from, find_in, lemma_decimal_digits_ascii, lemma_decimal_digits_parse, lemma_find_from_bounds, parse_u64_range, parse_u64_seq, push_decimal, trim_bounds, trim_seq, vec_range};

verus! {

/// Opaque identifier for an individual terminal session.
pub type SessionId = u32;

/// Opaque identifier for a workspace path group.
pub type GroupId = u32;

/// Opaque identifier for a persisted note entry.
pub type NoteId = u64;

/// Opaque identifier for a captured terminal snippet.
pub type SnippetId = u64;

/// Runner sidebar width used when a group has no stored layout.
pub const GROUP_RUNNER_WIDTH_DEFAULT_PX: i32 = 340;

/// Narrowest runner sidebar width a group layout keeps.
pub const GROUP_RUNNER_WIDTH_MIN_PX: i32 = 260;

/// Widest runner sidebar width a group layout keeps.
pub const GROUP_RUNNER_WIDTH_MAX_PX: i32 = 760;

/// Runtime status displayed for each terminal tab.
#[derive(Debug, Clone, Copy, PartialEq, Eq, Structural)]
pub enum SessionStatus {
    Idle,
    Busy,
    Error,
}

impl SessionStatus {
    /// The status that follows `self` in the fixed cycle Idle, Busy, Error.
    pub open spec fn spec_next(self) -> SessionStatus {
        match self {
            SessionStatus::Idle => SessionStatus::Busy,
            SessionStatus::Busy => SessionStatus::Error,
            SessionStatus::Error => SessionStatus::Idle,
        }
    }

    /// Returns a user-facing status label.
    pub fn label(self) -> (label: &'static str)
        ensures
            label@ == match self {
                SessionStatus::Idle => "Idle"@,
                SessionStatus::Busy => "Busy"@,
                SessionStatus::Error => "Error"@,
            },
    {
        match self {
            SessionStatus::Idle => "Idle",
            SessionStatus::Busy => "Busy",
            SessionStatus::Error => "Error",
        }
    }

    /// Cycles through the status enum in a fixed order.
    pub fn next(self) -> (next: SessionStatus)
        ensures
            next == self.spec_next(),
    {
        match self {
            SessionStatus::Idle => SessionStatus::Busy,
            SessionStatus::Busy => SessionStatus::Error,
            SessionStatus::Error => SessionStatus::Idle,
        }
    }

    /// Returns the CSS variable backing this status color.
    pub fn css_var(self) -> (var: &'static str)
        ensures
            var@ == match self {
                SessionStatus::Idle => "--status-idle"@,
                SessionStatus::Busy => "--status-busy"@,
                SessionStatus::Error => "--status-error"@,
            },
    {
        match self {
            SessionStatus::Idle => "--status-idle",
            SessionStatus::Busy => "--status-busy",
            SessionStatus::Error => "--status-error",
        }
    }
}

/// Three steps of `next` return to the starting status.
pub proof fn lemma_status_cycle_returns(status: SessionStatus)
    ensures
        status.spec_next().spec_next().spec_next() == status,
        status.spec_next() != status,
{
}

/// Role controls layout behavior for each session tab.
#[derive(Debug, Clone, Copy, PartialEq, Eq, Structural)]
pub enum SessionRole {
    Agent,
    Runner,
}

impl SessionRole {
    /// True for the dedicated runner role.
    pub open spec fn spec_is_runner(self) -> bool {
        self is Runner
    }

    /// Returns a compact badge shown in tab and orchestrator views.
    pub fn badge(self) -> (badge: &'static str)
        ensures
            badge@ == match self {
                SessionRole::Agent => "AGENT"@,
                SessionRole::Runner => "RUN"@,
            },
    {
        match self {
            SessionRole::Agent => "AGENT",
            SessionRole::Runner => "RUN",
        }
    }

    /// True when this session is the dedicated runner pane.
    pub fn is_runner(self) -> (b: bool)
        ensures
            b == self.spec_is_runner(),
    {
        match self {
            SessionRole::Runner => true,
            SessionRole::Agent => false,
        }
    }
}

/// Selects which center-stack agent pane should receive a swapped tab.
#[derive(Debug, Clone, Copy, PartialEq, Eq, Structural)]
pub enum VisibleAgentSlot {
    Top,
    Bottom,
}

/// `width` limited to the runner sidebar range.
pub open spec fn spec_clamp_runner_width(width: int) -> int {
    if width < GROUP_RUNNER_WIDTH_MIN_PX {
        GROUP_RUNNER_WIDTH_MIN_PX as int
    } else if width > GROUP_RUNNER_WIDTH_MAX_PX {
        GROUP_RUNNER_WIDTH_MAX_PX as int
    } else {
        width
    }
}

/// Limits a runner sidebar width to the supported range.
pub fn clamp_group_runner_width_px(width: i32) -> (w: i32)
    ensures
        w == spec_clamp_runner_width(width as int),
        GROUP_RUNNER_WIDTH_MIN_PX <= w <= GROUP_RUNNER_WIDTH_MAX_PX,
{
    if width < GROUP_RUNNER_WIDTH_MIN_PX {
        GROUP_RUNNER_WIDTH_MIN_PX
    } else if width > GROUP_RUNNER_WIDTH_MAX_PX {
        GROUP_RUNNER_WIDTH_MAX_PX
    } else {
        width
    }
}

/// Runner sidebar width of a fresh group layout.
pub fn default_group_runner_width_px() -> (w: i32)
    ensures
        w == GROUP_RUNNER_WIDTH_DEFAULT_PX,
{
    GROUP_RUNNER_WIDTH_DEFAULT_PX
}

/// Title given to notes created without one.
pub fn default_note_title() -> (title: String)
    ensures
        title@ == "Note"@,
{
    String::from_str("Note")
}

/// Group of a restored note that names none.
pub fn default_note_group_id() -> (id: GroupId)
    ensures
        id == 0,
{
    0
}

/// First note identifier of an empty knowledge store.
pub fn default_next_note_id() -> (id: NoteId)
    ensures
        id == 1,
{
    1
}

/// First snippet identifier of an empty knowledge store.
pub fn default_next_snippet_id() -> (id: SnippetId)
    ensures
        id == 1,
{
    1
}

/// Durable reference to a captured text range in a terminal log stream.
#[derive(Debug, Clone)]
pub struct SnippetLogRef {
    pub session_id: SessionId,
    pub stream_id: String,
    pub start_offset: u64,
    pub end_offset: u64,
    pub start_row: u32,
    pub end_row: u32,
}

/// Embedding pipeline status tracked for one snippet.
#[derive(Debug, Clone, Copy, PartialEq, Eq, Structural)]
pub enum SnippetEmbeddingStatus {
    Pending,
    Processing,
    Ready,
    Failed,
}

impl SnippetEmbeddingStatus {
    /// Returns a user-facing status label.
    pub fn label(self) -> (label: &'static str)
        ensures
            label@ == match self {
                SnippetEmbeddingStatus::Pending => "Pending"@,
                SnippetEmbeddingStatus::Processing => "Processing"@,
                SnippetEmbeddingStatus::Ready => "Ready"@,
                SnippetEmbeddingStatus::Failed => "Failed"@,
            },
    {
        match self {
            SnippetEmbeddingStatus::Pending => "Pending",
            SnippetEmbeddingStatus::Processing => "Processing",
            SnippetEmbeddingStatus::Ready => "Ready",
            SnippetEmbeddingStatus::Failed => "Failed",
        }
    }
}

/// One captured snippet anchored to terminal history metadata.
#[derive(Debug, Clone)]
pub struct Snippet {
    pub id: SnippetId,
    pub created_at_unix_ms: i64,
    pub source_cwd: String,
    pub text_snapshot_plain: String,
    pub log_ref: SnippetLogRef,
    pub embedding_status: SnippetEmbeddingStatus,
    pub embedding_object_id: Option<String>,
    pub embedding_profile_id: Option<String>,
    pub embedding_dimensions: Option<usize>,
    pub embedding_error: Option<String>,
}

/// Persisted markdown note surfaced in the Notes section.
#[derive(Debug, Clone)]
pub struct NoteDocument {
    pub id: NoteId,
    pub group_id: GroupId,
    pub title: String,
    pub markdown: String,
    pub updated_at_unix_ms: i64,
}

/// Input payload used to create a snippet.
#[derive(Debug, Clone)]
pub struct NewSnippet {
    pub source_session_id: SessionId,
    pub source_stream_id: String,
    pub source_cwd: String,
    pub text_snapshot_plain: String,
    pub start_offset: u64,
    pub end_offset: u64,
    pub start_row: u32,
    pub end_row: u32,
    pub created_at_unix_ms: i64,
}

/// Terminal tab state tracked in the workspace model.
#[derive(Debug, Clone)]
pub struct Session {
    pub id: SessionId,
    pub title: String,
    pub group_id: GroupId,
    pub role: SessionRole,
    pub status: SessionStatus,
}

impl Session {
    /// A field-for-field copy.
    pub fn duplicate(&self) -> (r: Session)
        ensures
            r == *self,
    {
        Session {
            id: self.id,
            title: self.title.clone(),
            group_id: self.group_id,
            role: self.role,
            status: self.status,
        }
    }
}

/// Characters of `[[snippet:`, the opening of a snippet reference.
pub open spec fn snippet_token_open() -> Seq<char> {
    seq!['[', '[', 's', 'n', 'i', 'p', 'p', 'e', 't', ':']
}

/// Characters of `]]`, the closing of a snippet reference.
pub open spec fn snippet_token_close() -> Seq<char> {
    seq![']', ']']
}

/// The markdown token `[[snippet:ID]]` for `snippet_id`.
pub open spec fn spec_snippet_token(snippet_id: SnippetId) -> Seq<char> {
    snippet_token_open() + decimal_digits(snippet_id as nat) + snippet_token_close()
}

/// Returns the markdown token used to reference a snippet inside notes.
pub fn snippet_reference_token(snippet_id: SnippetId) -> (token: String)
    ensures
        token@ == spec_snippet_token(snippet_id),
{
    let mut token = String::new();
    token.push('[');
    token.push('[');
    token.push('s');
    token.push('n');
    token.push('i');
    token.push('p');
    token.push('p');
    token.push('e');
    token.push('t');
    token.push(':');
    push_decimal(&mut token, snippet_id);
    token.push(']');
    token.push(']');
    proof {
        assert(token@ =~= spec_snippet_token(snippet_id));
    }
    token
}

/// Identifiers referenced in `s` from position `i` on: each `[[snippet:`
/// followed by a `]]` contributes the number between them (trimmed), when it
/// parses as a `u64`; scanning stops at the first opening without a closing.
pub open spec fn snippet_refs_from(s: Seq<char>, i: int) -> Seq<SnippetId>
    decreases s.len() - i,
{
    match find_from(s, snippet_token_open(), i) {
        None => seq![],
        Some(p) => {
            let c = p + 10;
            match find_from(s, snippet_token_close(), c) {
                None => seq![],
                Some(e) => {
                    proof {
                        lemma_find_from_bounds(s, snippet_token_open(), i);
                        lemma_find_from_bounds(s, snippet_token_close(), c);
                    }
                    let head = match parse_u64_seq(trim_seq(s.subrange(c, e))) {
                        Some(v) => seq![v],
                        None => seq![],
                    };
                    head + snippet_refs_from(s, e + 2)
                }
            }
        }
    }
}

/// Parses snippet identifiers referenced by markdown snippet tokens.
pub fn parse_snippet_reference_tokens(markdown: &str) -> (refs: Vec<SnippetId>)
    ensures
        refs@ == snippet_refs_from(markdown@, 0),
{
    let v = chars_of(markdown);
    let open: Vec<char> = vec!['[', '[', 's', 'n', 'i', 'p', 'p', 'e', 't', ':'];
    let close: Vec<char> = vec![']', ']'];
    proof {
        assert(open@ =~= snippet_token_open());
        assert(close@ =~= snippet_token_close());
    }
    let mut refs: Vec<SnippetId> = Vec::new();
    let mut pos: usize = 0;
    loop
        invariant
            pos <= v.len(),
            v@ == markdown@,
            open@ == snippet_token_open(),
            close@ == snippet_token_close(),
            snippet_refs_from(v@, 0) == refs@ + snippet_refs_from(v@, pos as int),
        decreases v.len() - pos,
    {
        let p = match find_in(&v, &open, pos) {
            Some(p) => p,
            None => {
                proof {
                    assert(refs@ + seq![] =~= refs@);
                }
                return refs;
            },
        };
        proof {
            lemma_find_from_bounds(v@, open@, pos as int);
        }
        let c = p + 10;
        let e = match find_in(&v, &close, c) {
            Some(e) => e,
            None => {
                proof {
                    assert(refs@ + seq![] =~= refs@);
                }
                return refs;
            },
        };
        proof {
            lemma_find_from_bounds(v@, close@, c as int);
        }
        let raw = vec_range(&v, c, e);
        let (a, b) = trim_bounds(&raw);
        let parsed = parse_u64_range(&raw, a, b);
        let ghost before = refs@;
        match parsed {
            Some(id) => {
                refs.push(id);
            },
            None => {},
        }
        proof {
            assert(raw@.subrange(a as int, b as int) == trim_seq(raw@));
            assert(snippet_refs_from(v@, pos as int) == (match parse_u64_seq(
                trim_seq(v@.subrange(c as int, e as int)),
            ) {
                Some(x) => seq![x],
                None => seq![],
            }) + snippet_refs_from(v@, e + 2));
            assert(refs@ + snippet_refs_from(v@, e + 2) =~= before + snippet_refs_from(
                v@,
                pos as int,
            ));
        }
        pos = e + 2;
    }
}

/// True when `pat` does not start at `k` in `s`.
pub open spec fn pattern_absent_at(s: Seq<char>, pat: Seq<char>, k: int) -> bool {
    s.subrange(k, k + pat.len()) != pat
}

/// `find_from` skips positions where the pattern does not start.
proof fn lemma_find_from_at(s: Seq<char>, pat: Seq<char>, i: int, j: int)
    requires
        0 <= i <= j,
        j + pat.len() <= s.len(),
        s.subrange(j, j + pat.len()) == pat,
        forall|k: int| i <= k < j ==> #[trigger] pattern_absent_at(s, pat, k),
    ensures
        find_from(s, pat, i) == Some(j),
    decreases j - i,
{
    if i < j {
        assert(pattern_absent_at(s, pat, i));
        lemma_find_from_at(s, pat, i + 1, j);
    }
}

/// Reading the snippet references of a token written for `snippet_id`
/// gives back that identifier, and only it.
pub proof fn lemma_snippet_token_round_trip(snippet_id: SnippetId)
    ensures
        snippet_refs_from(spec_snippet_token(snippet_id), 0) == seq![snippet_id],
{
    let d = decimal_digits(snippet_id as nat);
    let s = spec_snippet_token(snippet_id);
    let n = d.len() as int;
    lemma_decimal_digits_ascii(snippet_id as nat);
    lemma_decimal_digits_parse(snippet_id);
    assert(s.len() == 12 + n);
    assert(s.subrange(0, 10) =~= snippet_token_open());
    lemma_find_from_at(s, snippet_token_open(), 0, 0);
    assert forall|k: int| 10 <= k < 10 + n implies #[trigger] pattern_absent_at(s, snippet_token_close(), k) by {
        assert(s[k] == d[k - 10]);
        assert(s.subrange(k, k + 2)[0] == s[k]);
    }
    assert(s.subrange(10 + n, 12 + n) =~= snippet_token_close());
    lemma_find_from_at(s, snippet_token_close(), 10, 10 + n);
    assert(s.subrange(10, 10 + n) =~= d);
    assert(find_from(s, snippet_token_open(), 12 + n) is None);
    assert(snippet_refs_from(s, 12 + n) == Seq::<SnippetId>::empty());
    assert(snippet_refs_from(s, 0) == seq![snippet_id] + Seq::<SnippetId>::empty());
    assert(seq![snippet_id] + Seq::<SnippetId>::empty() =~= seq![snippet_id]);
}

} // verus!
