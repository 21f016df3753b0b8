//! Decisions the side panels make: which terminal of a group receives a
//! command, the breadcrumb trail of the file browser, the launcher that
//! opens a path on the host, the color of a commit-graph lane and the
//! preview of an agent round.
use vstd::prelude::*;
use vstd::string::StringExecFns;
use std::path::{Path, PathBuf};
use crate::app_state::AppState;
use crate::file_browser::{path_strip_prefix, strip_path_prefix};
use crate::state::{GroupId, Session, SessionId};
use crate::text::{chars_of, is_white_space, string_from_chars, string_from_range};
use crate::workspace::{file_name_text, path_label};

verus! {

/// Position of the first session of `group_id`, or -1.
pub open spec fn first_of_group(sessions: Seq<Session>, group_id: GroupId) -> int {
    if exists|i: int| 0 <= i < sessions.len() && (#[trigger] sessions[i]).group_id == group_id {
        choose|i: int|
            0 <= i < sessions.len() && (#[trigger] sessions[i]).group_id == group_id && forall|j: int|
                0 <= j < i ==> sessions[j].group_id != group_id
    } else {
        -1
    }
}

/// The terminal of a group that receives a command: the selected session
/// when it belongs to the group, else the group's first session.
pub open spec fn group_terminal(sessions: Seq<Session>, selected: Option<SessionId>, group_id: GroupId) -> Option<SessionId> {
    if selected is Some && in_group(sessions, selected->0, group_id) {
        selected
    } else if first_of_group(sessions, group_id) >= 0 {
        Some(sessions[first_of_group(sessions, group_id)].id)
    } else {
        None
    }
}

/// True when the session `id` belongs to `group_id`.
pub open spec fn in_group(sessions: Seq<Session>, id: SessionId, group_id: GroupId) -> bool {
    exists|i: int| 0 <= i < sessions.len() && (#[trigger] sessions[i]).id == id && sessions[i].group_id == group_id
}

fn session_in_group(sessions: &[Session], id: SessionId, group_id: GroupId) -> (found: bool)
    ensures
        found == in_group(sessions@, id, group_id),
{
    let mut i: usize = 0;
    while i < sessions.len()
        invariant
            i <= sessions@.len(),
            forall|j: int| 0 <= j < i ==> !((#[trigger] sessions@[j]).id == id && sessions@[j].group_id == group_id),
        decreases sessions.len() - i,
    {
        if sessions[i].id == id && sessions[i].group_id == group_id {
            proof {
                assert(sessions@[i as int].id == id && sessions@[i as int].group_id == group_id);
            }
            return true;
        }
        i = i + 1;
    }
    false
}

fn first_session_of_group(sessions: &[Session], group_id: GroupId) -> (found: Option<usize>)
    ensures
        match found {
            Some(i) => i == first_of_group(sessions@, group_id) && i < sessions@.len(),
            None => first_of_group(sessions@, group_id) == -1,
        },
{
    let mut i: usize = 0;
    while i < sessions.len()
        invariant
            i <= sessions@.len(),
            forall|j: int| 0 <= j < i ==> (#[trigger] sessions@[j]).group_id != group_id,
        decreases sessions.len() - i,
    {
        if sessions[i].group_id == group_id {
            proof {
                let k = first_of_group(sessions@, group_id);
                assert(0 <= k < sessions@.len() && sessions@[k].group_id == group_id && forall|j: int|
                    0 <= j < k ==> sessions@[j].group_id != group_id);
                if k < i {
                    assert(sessions@[k].group_id != group_id);
                }
                if i < k {
                    assert(sessions@[i as int].group_id != group_id);
                }
            }
            return Some(i);
        }
        i = i + 1;
    }
    None
}

/// The terminal of a group that receives a command: see [`group_terminal`].
pub fn select_group_terminal(state: &AppState, group_id: GroupId) -> (id: Option<SessionId>)
    ensures
        id == group_terminal(state@.workspace.sessions, state@.workspace.selected, group_id),
{
    let sessions = state.sessions();
    if let Some(selected_id) = state.selected_session() {
        if session_in_group(sessions, selected_id, group_id) {
            return Some(selected_id);
        }
    }
    match first_session_of_group(sessions, group_id) {
        Some(i) => Some(sessions[i].id),
        None => None,
    }
}

/// `path` relative to `root_dir`, or `path` itself when it is not below
/// the root.
pub fn path_relative_to_root(path: &str, root_dir: &str) -> (relative: String)
    ensures
        relative@ == match path_strip_prefix(path@, root_dir@) {
            Some(rest) => rest,
            None => path@,
        },
{
    match strip_path_prefix(path, root_dir) {
        Some(rest) => rest,
        None => path.to_string(),
    }
}

/// Names of the components of `path`, as `Path::components` yields them.
pub uninterp spec fn path_components(path: Seq<char>) -> Seq<Seq<char>>;

/// Text of `base` with `part` pushed onto it, as `PathBuf::push` does.
pub uninterp spec fn path_pushed(base: Seq<char>, part: Seq<char>) -> Seq<char>;

/// `Path::new(path).components()`, each component's text. The contract
/// names the result.
#[verifier::external_body]
fn component_names(path: &str) -> (names: Vec<String>)
    ensures
        names@.map_values(|n: String| n@) == path_components(path@),
{
    Path::new(path).components().map(|c| c.as_os_str().to_string_lossy().into_owned()).collect()
}

/// `PathBuf::push` of `part` onto `base`, as text. The contract names the
/// result.
#[verifier::external_body]
fn push_path(base: &str, part: &str) -> (pushed: String)
    ensures
        pushed@ == path_pushed(base@, part@),
{
    let mut path = PathBuf::from(base);
    path.push(part);
    path.to_string_lossy().into_owned()
}

/// One step of the file browser's breadcrumb trail.
#[derive(Clone, Debug)]
pub struct BreadcrumbItem {
    pub label: String,
    pub path: String,
}

/// Path of the breadcrumb `n` components below `root`.
pub open spec fn composed_path(root: Seq<char>, components: Seq<Seq<char>>, n: int) -> Seq<char>
    decreases n,
{
    if n <= 0 {
        root
    } else {
        path_pushed(composed_path(root, components, n - 1), components[n - 1])
    }
}

/// The breadcrumb trail from `root_dir` to `current_dir`: the root,
/// labelled with its final component, then, when the current directory is
/// below the root, one step per component of the way down.
pub fn build_breadcrumb_items(root_dir: &str, current_dir: &str) -> (items: Vec<BreadcrumbItem>)
    ensures
        items@.len() >= 1,
        items@[0].label@ == path_label(root_dir@),
        items@[0].path@ == root_dir@,
        match path_strip_prefix(current_dir@, root_dir@) {
            None => items@.len() == 1,
            Some(rest) => {
                &&& items@.len() == 1 + path_components(rest).len()
                &&& forall|k: int|
                    0 <= k < path_components(rest).len() ==> (#[trigger] items@[k + 1]).label@ == path_components(
                        rest,
                    )[k] && items@[k + 1].path@ == composed_path(root_dir@, path_components(rest), k + 1)
            },
        },
{
    let label = match file_name_text(root_dir) {
        Some(name) => name,
        None => root_dir.to_string(),
    };
    let mut items: Vec<BreadcrumbItem> = Vec::new();
    items.push(BreadcrumbItem { label, path: root_dir.to_string() });
    let rest = match strip_path_prefix(current_dir, root_dir) {
        Some(r) => r,
        None => return items,
    };
    let names = component_names(rest.as_str());
    let ghost comps = path_components(rest@);
    let mut composed = root_dir.to_string();
    let mut k: usize = 0;
    while k < names.len()
        invariant
            k <= names@.len(),
            names@.map_values(|n: String| n@) == comps,
            comps == path_components(rest@),
            items@.len() == k + 1,
            items@[0].label@ == path_label(root_dir@),
            items@[0].path@ == root_dir@,
            composed@ == composed_path(root_dir@, comps, k as int),
            forall|j: int|
                0 <= j < k ==> (#[trigger] items@[j + 1]).label@ == comps[j] && items@[j + 1].path@ == composed_path(
                    root_dir@,
                    comps,
                    j + 1,
                ),
        decreases names.len() - k,
    {
        proof {
            assert(names@[k as int]@ == comps[k as int]);
        }
        composed = push_path(composed.as_str(), names[k].as_str());
        items.push(BreadcrumbItem { label: names[k].clone(), path: composed.clone() });
        k = k + 1;
    }
    items
}

/// Host platforms with a default-open launcher.
#[derive(Debug, Clone, Copy, PartialEq, Eq, Structural)]
pub enum HostPlatform {
    Linux,
    MacOs,
    Windows,
    Other,
}

/// A launcher command that opens a path in the host's default app.
#[derive(Debug, Clone)]
pub struct HostOpenRequest {
    pub program: String,
    pub args: Vec<String>,
}

/// Launcher of each platform: `xdg-open`, `open` and `explorer`.
pub open spec fn launcher(platform: HostPlatform) -> Option<Seq<char>> {
    match platform {
        HostPlatform::Linux => Some("xdg-open"@),
        HostPlatform::MacOs => Some("open"@),
        HostPlatform::Windows => Some("explorer"@),
        HostPlatform::Other => None,
    }
}

/// The command that opens `path` on `platform`: its launcher with the path
/// as the only argument; an error on a platform without one.
pub fn host_open_request(path: &str, platform: HostPlatform) -> (request: Result<HostOpenRequest, String>)
    ensures
        match request {
            Ok(r) => launcher(platform) == Some(r.program@) && r.args@.len() == 1 && r.args@[0]@ == path@,
            Err(e) => launcher(platform) is None && e@ == "Host default-open is not implemented on this platform."@,
        },
{
    let program = match platform {
        HostPlatform::Linux => "xdg-open",
        HostPlatform::MacOs => "open",
        HostPlatform::Windows => "explorer",
        HostPlatform::Other => {
            return Err("Host default-open is not implemented on this platform.".to_string());
        },
    };
    proof {
        reveal_strlit("xdg-open");
        reveal_strlit("open");
        reveal_strlit("explorer");
    }
    let mut args: Vec<String> = Vec::new();
    args.push(path.to_string());
    Ok(HostOpenRequest { program: program.to_string(), args })
}

/// Color of a commit-graph lane, cycling through eight colors.
pub open spec fn lane_color_of(lane: usize) -> Seq<char> {
    let k = lane % 8;
    if k == 0 {
        "#71c6ff"@
    } else if k == 1 {
        "#7af8b2"@
    } else if k == 2 {
        "#f5d167"@
    } else if k == 3 {
        "#ff9bb9"@
    } else if k == 4 {
        "#b7a8ff"@
    } else if k == 5 {
        "#8ee7d6"@
    } else if k == 6 {
        "#ffb77a"@
    } else {
        "#c8ff7a"@
    }
}

/// Color of a commit-graph lane.
pub fn lane_color(lane: usize) -> (color: &'static str)
    ensures
        color@ == lane_color_of(lane),
{
    let k = lane % 8;
    if k == 0 {
        "#71c6ff"
    } else if k == 1 {
        "#7af8b2"
    } else if k == 2 {
        "#f5d167"
    } else if k == 3 {
        "#ff9bb9"
    } else if k == 4 {
        "#b7a8ff"
    } else if k == 5 {
        "#8ee7d6"
    } else if k == 6 {
        "#ffb77a"
    } else {
        "#c8ff7a"
    }
}

/// Pieces of `s` between line breaks.
pub open spec fn split_lines(s: Seq<char>) -> Seq<Seq<char>>
    decreases s.len(),
{
    if s.len() == 0 {
        seq![Seq::empty()]
    } else {
        let rest = split_lines(s.drop_last());
        if s.last() == '\n' {
            rest.push(Seq::empty())
        } else {
            rest.update(rest.len() - 1, rest.last().push(s.last()))
        }
    }
}

proof fn lemma_split_lines_nonempty(s: Seq<char>)
    ensures
        split_lines(s).len() >= 1,
    decreases s.len(),
{
    if s.len() > 0 {
        lemma_split_lines_nonempty(s.drop_last());
    }
}

proof fn lemma_map_filter_push(
    s: Seq<Seq<char>>,
    x: Seq<char>,
    f: spec_fn(Seq<char>) -> Seq<char>,
    keep: spec_fn(Seq<char>) -> bool,
)
    ensures
        s.push(x).map_values(f).filter(keep) == if keep(f(x)) {
            s.map_values(f).filter(keep).push(f(x))
        } else {
            s.map_values(f).filter(keep)
        },
{
    reveal_with_fuel(Seq::filter, 1);
    let m = s.push(x).map_values(f);
    assert(m =~= s.map_values(f).push(f(x)));
    assert(m.drop_last() =~= s.map_values(f));
    assert(m.last() == f(x));
}

/// `s` without trailing whitespace.
pub open spec fn trim_end_ws(s: Seq<char>) -> Seq<char>
    decreases s.len(),
{
    if s.len() > 0 && is_white_space(s.last()) {
        trim_end_ws(s.drop_last())
    } else {
        s
    }
}

/// The first two lines of a round's output that hold more than whitespace,
/// without trailing whitespace, joined by ` | `.
pub open spec fn round_summary_lines(text: Seq<char>) -> Seq<Seq<char>> {
    let all = split_lines(text).map_values(trim_end_fn()).filter(nonempty_fn());
    if all.len() <= 2 {
        all
    } else {
        all.take(2)
    }
}

/// Trailing whitespace removal, as a function.
pub open spec fn trim_end_fn() -> spec_fn(Seq<char>) -> Seq<char> {
    |l: Seq<char>| trim_end_ws(l)
}

/// Test for a line that is not empty.
pub open spec fn nonempty_fn() -> spec_fn(Seq<char>) -> bool {
    |l: Seq<char>| l.len() > 0
}

/// `lines` joined by ` | `.
pub open spec fn joined_with_bar(lines: Seq<Seq<char>>) -> Seq<char> {
    if lines.len() == 0 {
        Seq::empty()
    } else if lines.len() == 1 {
        lines[0]
    } else {
        lines[0] + " | "@ + lines[1]
    }
}

/// Preview of a round's output: [`round_summary_lines`] joined, cut to 180
/// characters followed by `...` when longer, or `(no output yet)` when
/// there is nothing to show.
pub open spec fn round_preview(text: Seq<char>) -> Seq<char> {
    let n = joined_with_bar(round_summary_lines(text));
    if n.len() == 0 {
        "(no output yet)"@
    } else if n.len() <= 180 {
        n
    } else {
        n.take(180) + "..."@
    }
}

/// Characters of each line.
pub open spec fn lines_view(v: Seq<Vec<char>>) -> Seq<Seq<char>> {
    v.map_values(|x: Vec<char>| x@)
}

fn trim_end_chars(line: &Vec<char>) -> (trimmed: Vec<char>)
    ensures
        trimmed@ == trim_end_ws(line@),
{
    let mut n = line.len();
    proof {
        assert(line@.take(n as int) =~= line@);
    }
    while n > 0 && crate::text::is_whitespace_char(line[n - 1])
        invariant
            n <= line@.len(),
            trim_end_ws(line@) == trim_end_ws(line@.take(n as int)),
        decreases n,
    {
        proof {
            assert(line@.take(n as int).drop_last() =~= line@.take(n - 1));
        }
        n = n - 1;
    }
    proof {
        assert(line@.take(n as int) =~= line@.subrange(0, n as int));
        assert(trim_end_ws(line@.take(n as int)) == line@.take(n as int));
    }
    crate::text::vec_range(line, 0, n)
}

fn append_chars(dst: &mut Vec<char>, src: &Vec<char>)
    ensures
        final(dst)@ == old(dst)@ + src@,
{
    let ghost start = dst@;
    let mut k: usize = 0;
    while k < src.len()
        invariant
            k <= src@.len(),
            dst@ == start + src@.take(k as int),
        decreases src@.len() - k,
    {
        dst.push(src[k]);
        proof {
            assert(src@.take(k + 1) =~= src@.take(k as int).push(src@[k as int]));
        }
        k = k + 1;
    }
    proof {
        assert(src@.take(src@.len() as int) =~= src@);
    }
}

/// Preview of a round's output: see [`round_preview`].
pub fn summarize_round_preview(text: &str) -> (preview: String)
    ensures
        preview@ == round_preview(text@),
{
    let chars = chars_of(text);
    let ghost f = trim_end_fn();
    let ghost keep = nonempty_fn();
    let mut kept: Vec<Vec<char>> = Vec::new();
    let mut current: Vec<char> = Vec::new();
    let mut i: usize = 0;
    proof {
        reveal_with_fuel(split_lines, 1);
        assert(chars@.take(0) =~= Seq::<char>::empty());
        assert(split_lines(Seq::<char>::empty()).drop_last() =~= Seq::<Seq<char>>::empty());
        assert(Seq::<Seq<char>>::empty().map_values(f).filter(keep) =~= Seq::<Seq<char>>::empty());
    }
    while i < chars.len()
        invariant
            i <= chars@.len(),
            chars@ == text@,
            f == trim_end_fn(),
            keep == nonempty_fn(),
            split_lines(chars@.take(i as int)).len() >= 1,
            current@ == split_lines(chars@.take(i as int)).last(),
            lines_view(kept@) == split_lines(chars@.take(i as int)).drop_last().map_values(f).filter(keep),
        decreases chars.len() - i,
    {
        let ghost prefix = chars@.take(i as int);
        let ghost lines = split_lines(prefix);
        proof {
            assert(chars@.take(i + 1).drop_last() =~= prefix);
            assert(chars@.take(i + 1).last() == chars@[i as int]);
            lemma_split_lines_nonempty(chars@.take(i + 1));
        }
        let c = chars[i];
        if c == '\n' {
            let t = trim_end_chars(&current);
            proof {
                assert(split_lines(chars@.take(i + 1)) == lines.push(Seq::empty()));
                assert(split_lines(chars@.take(i + 1)).drop_last() =~= lines);
                assert(lines =~= lines.drop_last().push(lines.last()));
                lemma_map_filter_push(lines.drop_last(), lines.last(), f, keep);
            }
            if t.len() > 0 {
                kept.push(t);
            }
            current = Vec::new();
            proof {
                assert(lines_view(kept@) =~= split_lines(chars@.take(i + 1)).drop_last().map_values(f).filter(keep));
                assert(current@ =~= split_lines(chars@.take(i + 1)).last());
            }
        } else {
            current.push(c);
            proof {
                assert(split_lines(chars@.take(i + 1)) == lines.update(lines.len() - 1, lines.last().push(c)));
                assert(split_lines(chars@.take(i + 1)).drop_last() =~= lines.drop_last());
            }
        }
        i = i + 1;
    }
    proof {
        assert(chars@.take(chars@.len() as int) =~= chars@);
    }
    let t = trim_end_chars(&current);
    let ghost lines = split_lines(chars@);
    proof {
        assert(lines =~= lines.drop_last().push(lines.last()));
        lemma_map_filter_push(lines.drop_last(), lines.last(), f, keep);
    }
    if t.len() > 0 {
        kept.push(t);
    }
    let ghost all = lines.map_values(f).filter(keep);
    proof {
        assert(lines_view(kept@) =~= all);
    }
    let mut normalized: Vec<char> = Vec::new();
    if kept.len() >= 1 {
        append_chars(&mut normalized, &kept[0]);
    }
    if kept.len() >= 2 {
        normalized.push(' ');
        normalized.push('|');
        normalized.push(' ');
        append_chars(&mut normalized, &kept[1]);
    }
    proof {
        reveal_strlit(" | ");
        let summary = round_summary_lines(text@);
        assert(text@ == chars@);
        assert(summary == (if all.len() <= 2 { all } else { all.take(2) }));
        assert(lines_view(kept@).len() == kept@.len());
        if kept@.len() >= 1 {
            assert(lines_view(kept@)[0] == kept@[0]@);
        }
        if kept@.len() >= 2 {
            assert(lines_view(kept@)[1] == kept@[1]@);
        }
        if kept@.len() >= 2 {
            assert(summary[0] == kept@[0]@);
            assert(summary[1] == kept@[1]@);
            assert(normalized@ =~= joined_with_bar(summary));
        } else if kept@.len() == 1 {
            assert(summary[0] == kept@[0]@);
            assert(normalized@ =~= joined_with_bar(summary));
        } else {
            assert(normalized@ =~= joined_with_bar(summary));
        }
    }
    if normalized.len() == 0 {
        proof {
            reveal_strlit("(no output yet)");
        }
        return "(no output yet)".to_string();
    }
    if normalized.len() <= 180 {
        return string_from_chars(&normalized);
    }
    let mut preview = string_from_range(&normalized, 0, 180);
    preview.append("...");
    proof {
        reveal_strlit("...");
        assert(normalized@.subrange(0, 180) =~= normalized@.take(180));
    }
    preview
}

} // verus!
