//! Run review: change keys that tell when a repository's state moved, the
//! reasons a file shows up in a run review, and relative ages.
use vstd::prelude::*;
use vstd::string::StringExecFns;
use crate::text::{decimal_digits, push_decimal};

verus! {

/// One changed file of a repository status.
#[derive(Debug, Clone)]
pub struct FileChange {
    pub path: String,
    pub code: String,
    pub is_staged: bool,
    pub is_unstaged: bool,
    pub is_untracked: bool,
}

/// What a repository status reads of a repository: its root, head commit,
/// current branch and changed files.
#[derive(Debug, Clone)]
pub struct RepoSnapshot {
    pub root: String,
    pub head: Option<String>,
    pub current_branch: Option<String>,
    pub has_upstream: bool,
    pub changes: Vec<FileChange>,
    pub unstaged_count: usize,
}

/// A group's path is either a repository or was inspected and found not
/// to be one.
#[derive(Debug, Clone)]
pub enum RepoContext {
    NotRepo { inspected_path: String },
    Available(RepoSnapshot),
}

/// One file of a run review with why it is listed.
#[derive(Debug, Clone)]
pub struct RunReviewFile {
    pub path: String,
    pub code: String,
    pub is_staged: bool,
    pub is_unstaged: bool,
    pub is_untracked: bool,
    pub is_new_since_start: bool,
    pub status_changed_since_start: bool,
    pub worktree_changed_since_start: bool,
    pub index_changed_since_start: bool,
}

/// `parts` joined by `sep`.
pub open spec fn joined(parts: Seq<Seq<char>>, sep: Seq<char>) -> Seq<char>
    decreases parts.len(),
{
    if parts.len() == 0 {
        Seq::empty()
    } else if parts.len() == 1 {
        parts[0]
    } else {
        joined(parts.drop_last(), sep) + sep + parts.last()
    }
}

/// `1` for true, `0` for false.
pub open spec fn flag_digit(b: bool) -> Seq<char> {
    if b {
        "1"@
    } else {
        "0"@
    }
}

/// Key of a file change: path, status code and the three flags, separated
/// by colons.
pub open spec fn change_key(c: FileChange) -> Seq<char> {
    c.path@ + ":"@ + c.code@ + ":"@ + flag_digit(c.is_staged) + ":"@ + flag_digit(c.is_unstaged) + ":"@
        + flag_digit(c.is_untracked)
}

/// Key of a file change (see [`change_key`]).
pub fn file_change_key(change: &FileChange) -> (key: String)
    ensures
        key@ == change_key(*change),
{
    let mut key = change.path.clone();
    key.append(":");
    key.append(change.code.as_str());
    key.append(":");
    key.append(if change.is_staged { "1" } else { "0" });
    key.append(":");
    key.append(if change.is_unstaged { "1" } else { "0" });
    key.append(":");
    key.append(if change.is_untracked { "1" } else { "0" });
    key
}

/// Keys of the changes, in order.
pub open spec fn change_keys(changes: Seq<FileChange>) -> Seq<Seq<char>> {
    changes.map_values(|c: FileChange| change_key(c))
}

/// Text of an optional string, empty when absent.
pub open spec fn or_empty(s: Option<String>) -> Seq<char> {
    match s {
        Some(t) => t@,
        None => Seq::empty(),
    }
}

/// Key of a repository snapshot: root, head, branch and the change keys
/// joined by `|`, separated by `::`.
pub open spec fn snapshot_key(s: RepoSnapshot) -> Seq<char> {
    s.root@ + "::"@ + or_empty(s.head) + "::"@ + or_empty(s.current_branch) + "::"@ + joined(
        change_keys(s.changes@),
        "|"@,
    )
}

fn append_or_empty(out: &mut String, s: &Option<String>)
    ensures
        final(out)@ == old(out)@ + or_empty(*s),
{
    match s {
        Some(t) => out.append(t.as_str()),
        None => {
            assert(old(out)@ + Seq::<char>::empty() =~= old(out)@);
        },
    }
}

/// Key of a repository snapshot (see [`snapshot_key`]).
pub fn snapshot_revision_key(snapshot: &RepoSnapshot) -> (key: String)
    ensures
        key@ == snapshot_key(*snapshot),
{
    let mut key = snapshot.root.clone();
    key.append("::");
    append_or_empty(&mut key, &snapshot.head);
    key.append("::");
    append_or_empty(&mut key, &snapshot.current_branch);
    key.append("::");
    let ghost prefix = key@;
    let ghost keys = change_keys(snapshot.changes@);
    let mut i: usize = 0;
    while i < snapshot.changes.len()
        invariant
            i <= snapshot.changes@.len(),
            keys == change_keys(snapshot.changes@),
            key@ == prefix + joined(keys.take(i as int), "|"@),
        decreases snapshot.changes.len() - i,
    {
        if i > 0 {
            key.append("|");
        }
        let part = file_change_key(&snapshot.changes[i]);
        key.append(part.as_str());
        proof {
            assert(keys.take(i + 1).drop_last() =~= keys.take(i as int));
            if i == 0 {
                assert(keys.take(0) =~= Seq::<Seq<char>>::empty());
            }
            assert(key@ =~= prefix + joined(keys.take(i + 1), "|"@));
        }
        i = i + 1;
    }
    proof {
        assert(keys.take(i as int) =~= keys);
    }
    key
}

/// Key of a group's repository state: `none`, `not-repo:` and the
/// inspected path, or the snapshot's key.
pub open spec fn context_key(context: Option<RepoContext>) -> Seq<char> {
    match context {
        None => "none"@,
        Some(RepoContext::NotRepo { inspected_path }) => "not-repo:"@ + inspected_path@,
        Some(RepoContext::Available(s)) => snapshot_key(s),
    }
}

/// Key that changes whenever a group's repository state does (see
/// [`context_key`]).
pub fn repo_context_revision_key(context: Option<&RepoContext>) -> (key: String)
    ensures
        key@ == context_key(
            match context {
                Some(c) => Some(*c),
                None => None,
            },
        ),
{
    match context {
        None => String::from_str("none"),
        Some(RepoContext::NotRepo { inspected_path }) => {
            let mut key = String::from_str("not-repo:");
            key.append(inspected_path.as_str());
            key
        },
        Some(RepoContext::Available(snapshot)) => snapshot_revision_key(snapshot),
    }
}

/// Reasons a file is listed in a run review, in order: new since the run
/// started, else a changed status; changed worktree; changed index;
/// staged; unstaged; untracked.
pub open spec fn review_reasons(f: RunReviewFile) -> Seq<Seq<char>> {
    let a: Seq<Seq<char>> = if f.is_new_since_start {
        seq!["new since run start"@]
    } else {
        Seq::empty()
    };
    let b = if f.status_changed_since_start && !f.is_new_since_start {
        a.push("status changed"@)
    } else {
        a
    };
    let c = if f.worktree_changed_since_start {
        b.push("worktree changed"@)
    } else {
        b
    };
    let d = if f.index_changed_since_start {
        c.push("index changed"@)
    } else {
        c
    };
    let e = if f.is_staged {
        d.push("staged"@)
    } else {
        d
    };
    let g = if f.is_unstaged {
        e.push("unstaged"@)
    } else {
        e
    };
    if f.is_untracked {
        g.push("untracked"@)
    } else {
        g
    }
}

/// Detail line of a reviewed file: its reasons joined by ` | `, or
/// `changed since run start` when it has none.
pub open spec fn review_detail(f: RunReviewFile) -> Seq<char> {
    let reasons = review_reasons(f);
    if reasons.len() == 0 {
        "changed since run start"@
    } else {
        joined(reasons, " | "@)
    }
}

fn push_reason(out: &mut String, count: &mut usize, reason: &str, Ghost(parts): Ghost<Seq<Seq<char>>>)
    requires
        old(out)@ == joined(parts, " | "@),
        *old(count) == parts.len(),
        parts.len() < 16,
    ensures
        final(out)@ == joined(parts.push(reason@), " | "@),
        *final(count) == parts.len() + 1,
{
    if *count > 0 {
        out.append(" | ");
    }
    out.append(reason);
    *count = *count + 1;
    proof {
        assert(parts.push(reason@).drop_last() =~= parts);
        if parts.len() == 0 {
            assert(final(out)@ =~= reason@);
        } else {
            assert(final(out)@ =~= joined(parts, " | "@) + " | "@ + reason@);
        }
    }
}

/// Detail line of a reviewed file (see [`review_detail`]).
pub fn review_file_detail(file: &RunReviewFile) -> (detail: String)
    ensures
        detail@ == review_detail(*file),
{
    let mut out = String::new();
    let mut count: usize = 0;
    let ghost mut parts: Seq<Seq<char>> = Seq::empty();
    if file.is_new_since_start {
        push_reason(&mut out, &mut count, "new since run start", Ghost(parts));
        proof {
            parts = parts.push("new since run start"@);
        }
    }
    if file.status_changed_since_start && !file.is_new_since_start {
        push_reason(&mut out, &mut count, "status changed", Ghost(parts));
        proof {
            parts = parts.push("status changed"@);
        }
    }
    if file.worktree_changed_since_start {
        push_reason(&mut out, &mut count, "worktree changed", Ghost(parts));
        proof {
            parts = parts.push("worktree changed"@);
        }
    }
    if file.index_changed_since_start {
        push_reason(&mut out, &mut count, "index changed", Ghost(parts));
        proof {
            parts = parts.push("index changed"@);
        }
    }
    if file.is_staged {
        push_reason(&mut out, &mut count, "staged", Ghost(parts));
        proof {
            parts = parts.push("staged"@);
        }
    }
    if file.is_unstaged {
        push_reason(&mut out, &mut count, "unstaged", Ghost(parts));
        proof {
            parts = parts.push("unstaged"@);
        }
    }
    if file.is_untracked {
        push_reason(&mut out, &mut count, "untracked", Ghost(parts));
        proof {
            parts = parts.push("untracked"@);
        }
    }
    assert(parts =~= review_reasons(*file));
    if count == 0 {
        return String::from_str("changed since run start");
    }
    out
}

/// Decimal text of `n`, with a leading `-` when negative.
pub open spec fn signed_decimal(n: int) -> Seq<char> {
    if n < 0 {
        "-"@ + decimal_digits((-n) as nat)
    } else {
        decimal_digits(n as nat)
    }
}

/// Age of a timestamp in milliseconds, `now_seconds` being the current
/// time: `unknown` for no timestamp (zero or less), else the seconds
/// elapsed (the difference held within 64 bits) in seconds below a
/// minute, whole minutes below an hour, whole hours below a day, else
/// whole days, followed by `ago`.
pub open spec fn relative_age(unix_ms: i64, now_seconds: i64) -> Seq<char> {
    if unix_ms <= 0 {
        "unknown"@
    } else {
        let raw = now_seconds - unix_ms / 1000;
        let delta = if raw < i64::MIN {
            i64::MIN as int
        } else if raw > i64::MAX {
            i64::MAX as int
        } else {
            raw
        };
        if delta < 60 {
            signed_decimal(delta) + "s ago"@
        } else if delta < 3600 {
            signed_decimal(delta / 60) + "m ago"@
        } else if delta < 86400 {
            signed_decimal(delta / 3600) + "h ago"@
        } else {
            signed_decimal(delta / 86400) + "d ago"@
        }
    }
}

fn push_signed(out: &mut String, n: i64)
    ensures
        final(out)@ == old(out)@ + signed_decimal(n as int),
{
    if n < 0 {
        out.append("-");
        let magnitude: u64 = (0i128 - n as i128) as u64;
        push_decimal(out, magnitude);
        proof {
            assert(final(out)@ =~= old(out)@ + signed_decimal(n as int));
        }
    } else {
        push_decimal(out, n as u64);
    }
}

/// Age of a timestamp against a given current time (see [`relative_age`]).
pub fn format_age(unix_ms: i64, now_seconds: i64) -> (age: String)
    ensures
        age@ == relative_age(unix_ms, now_seconds),
{
    if unix_ms <= 0 {
        return String::from_str("unknown");
    }
    let seconds = unix_ms / 1000;
    let raw: i128 = now_seconds as i128 - seconds as i128;
    let delta: i64 = if raw < i64::MIN as i128 {
        i64::MIN
    } else if raw > i64::MAX as i128 {
        i64::MAX
    } else {
        raw as i64
    };
    let mut out = String::new();
    if delta < 60 {
        push_signed(&mut out, delta);
        out.append("s ago");
    } else if delta < 3600 {
        push_signed(&mut out, delta / 60);
        out.append("m ago");
    } else if delta < 86400 {
        push_signed(&mut out, delta / 3600);
        out.append("h ago");
    } else {
        push_signed(&mut out, delta / 86400);
        out.append("d ago");
    }
    out
}

/// Seconds since the Unix epoch on the system clock, cast to 64 signed
/// bits, or 0 when the clock is before the epoch.
fn now_unix_seconds() -> i64 {
    let now = crate::clock::system_now();
    match crate::clock::since_unix_epoch(&now) {
        Some(duration) => crate::clock::whole_seconds(&duration) as i64,
        None => 0,
    }
}

/// Age of a timestamp now (see [`format_age`]); `unknown` for no
/// timestamp, whatever the clock reads.
pub fn format_unix_ms(unix_ms: i64) -> (age: String)
    ensures
        unix_ms <= 0 ==> age@ == "unknown"@,
        exists|now: i64| age@ == #[trigger] relative_age(unix_ms, now),
{
    let now = now_unix_seconds();
    let age = format_age(unix_ms, now);
    assert(age@ == relative_age(unix_ms, now));
    age
}

} // verus!
