//! File browser rules: which entries carry a git marker, how entries are
//! ordered, and how far up the browser may navigate.
use vstd::prelude::*;
use std::cmp::Ordering;
use std::path::Path;
use crate::text::chars_of;

verus! {

/// One directory entry shown by the file browser.
#[derive(Clone, Debug)]
pub struct FileBrowserEntry {
    pub name: String,
    pub path: String,
    pub is_dir: bool,
    pub file_size_bytes: Option<u64>,
    pub modified: bool,
    pub ignored: bool,
}

/// Paths git reports as modified or ignored, relative to the repository
/// root.
#[derive(Clone, Debug)]
pub struct GitPathMarks {
    pub repo_root: Option<String>,
    pub modified_paths: Vec<String>,
    pub ignored_paths: Vec<String>,
}

/// True when some marked path is exactly `path`.
pub open spec fn marks_contain(marked: Seq<String>, path: Seq<char>) -> bool {
    exists|i: int| 0 <= i < marked.len() && #[trigger] marked[i]@ == path
}

/// True when some directory above `path` is marked: a prefix of `path`
/// that ends just before one of its `/`.
pub open spec fn has_marked_ancestor(marked: Seq<String>, path: Seq<char>) -> bool {
    exists|k: int| 0 <= k < path.len() && path[k] == '/' && #[trigger] marks_contain(marked, path.take(k))
}

/// True when some marked path lies below directory `path`.
pub open spec fn has_marked_descendant(marked: Seq<String>, path: Seq<char>) -> bool {
    exists|i: int| 0 <= i < marked.len() && path.push('/').is_prefix_of(#[trigger] marked[i]@)
}

/// True when `path` carries a marker: there are marks and the path is the
/// repository root (empty), is marked, lies under a marked directory, or is
/// a directory holding a marked path.
pub open spec fn path_marked(marked: Seq<String>, path: Seq<char>, is_dir: bool) -> bool {
    &&& marked.len() > 0
    &&& {
        ||| path.len() == 0
        ||| marks_contain(marked, path)
        ||| has_marked_ancestor(marked, path)
        ||| (is_dir && has_marked_descendant(marked, path))
    }
}

/// The characters of each marked path.
fn marks_chars(marked: &[String]) -> (chars: Vec<Vec<char>>)
    ensures
        chars@.len() == marked@.len(),
        forall|i: int| 0 <= i < marked@.len() ==> #[trigger] chars@[i]@ == marked@[i]@,
{
    let mut chars: Vec<Vec<char>> = Vec::new();
    let mut i: usize = 0;
    while i < marked.len()
        invariant
            i <= marked@.len(),
            chars@.len() == i,
            forall|k: int| 0 <= k < i ==> #[trigger] chars@[k]@ == marked@[k]@,
        decreases marked.len() - i,
    {
        chars.push(chars_of(marked[i].as_str()));
        i = i + 1;
    }
    chars
}

/// True when `a` holds exactly the first `k` characters of `b`.
fn equals_prefix(a: &Vec<char>, b: &Vec<char>, k: usize) -> (r: bool)
    requires
        k <= b@.len(),
    ensures
        r == (a@ == b@.take(k as int)),
{
    if a.len() != k {
        return false;
    }
    let mut i: usize = 0;
    while i < k
        invariant
            i <= k <= b@.len(),
            a@.len() == k,
            forall|j: int| 0 <= j < i ==> a@[j] == b@[j],
        decreases k - i,
    {
        if a[i] != b[i] {
            assert(a@[i as int] != b@.take(k as int)[i as int]);
            return false;
        }
        i = i + 1;
    }
    assert(a@ =~= b@.take(k as int));
    true
}

/// True when `prefix` followed by `/` starts `s`.
fn starts_with_dir(s: &Vec<char>, prefix: &Vec<char>) -> (r: bool)
    ensures
        r == prefix@.push('/').is_prefix_of(s@),
{
    let n = prefix.len();
    if s.len() <= n {
        return false;
    }
    let mut i: usize = 0;
    while i < n
        invariant
            i <= n == prefix@.len() < s@.len(),
            forall|j: int| 0 <= j < i ==> prefix@[j] == s@[j],
        decreases n - i,
    {
        if prefix[i] != s[i] {
            assert(prefix@.push('/')[i as int] != s@[i as int]);
            return false;
        }
        i = i + 1;
    }
    if s[n] != '/' {
        assert(prefix@.push('/')[n as int] != s@[n as int]);
        return false;
    }
    assert(prefix@.push('/') =~= s@.take(n + 1));
    true
}

/// True when some marked path is the first `k` characters of `path`.
fn contains_prefix(marked: &Vec<Vec<char>>, path: &Vec<char>, k: usize, view: Ghost<Seq<String>>) -> (r: bool)
    requires
        k <= path@.len(),
        marked@.len() == view@.len(),
        forall|i: int| 0 <= i < view@.len() ==> #[trigger] marked@[i]@ == view@[i]@,
    ensures
        r == marks_contain(view@, path@.take(k as int)),
{
    let mut i: usize = 0;
    while i < marked.len()
        invariant
            i <= marked@.len() == view@.len(),
            k <= path@.len(),
            forall|j: int| 0 <= j < view@.len() ==> #[trigger] marked@[j]@ == view@[j]@,
            forall|j: int| 0 <= j < i ==> #[trigger] view@[j]@ != path@.take(k as int),
        decreases marked.len() - i,
    {
        if equals_prefix(&marked[i], path, k) {
            assert(view@[i as int]@ == path@.take(k as int));
            return true;
        }
        i = i + 1;
    }
    false
}

/// True when `relative_path` carries one of `marked_paths`: itself, a
/// directory above it, or, for a directory, a path below it.
pub fn path_has_marker(marked_paths: &[String], relative_path: &str, is_dir: bool) -> (b: bool)
    ensures
        b == path_marked(marked_paths@, relative_path@, is_dir),
{
    if marked_paths.len() == 0 {
        return false;
    }
    let path = chars_of(relative_path);
    if path.len() == 0 {
        return true;
    }
    let marked = marks_chars(marked_paths);
    let ghost view = marked_paths@;
    if contains_prefix(&marked, &path, path.len(), Ghost(view)) {
        assert(path@.take(path@.len() as int) =~= path@);
        return true;
    }
    assert(path@.take(path@.len() as int) =~= path@);
    let mut k: usize = 0;
    while k < path.len()
        invariant
            k <= path@.len(),
            path@ == relative_path@,
            marked@.len() == view.len(),
            view == marked_paths@,
            forall|i: int| 0 <= i < view.len() ==> #[trigger] marked@[i]@ == view[i]@,
            forall|j: int| 0 <= j < k && path@[j] == '/' ==> !#[trigger] marks_contain(view, path@.take(j)),
        decreases path.len() - k,
    {
        if path[k] == '/' && contains_prefix(&marked, &path, k, Ghost(view)) {
            assert(path@[k as int] == '/' && marks_contain(view, path@.take(k as int)));
            assert(has_marked_ancestor(view, path@));
            return true;
        }
        k = k + 1;
    }
    if is_dir {
        let mut i: usize = 0;
        while i < marked.len()
            invariant
                i <= marked@.len() == view.len(),
                view == marked_paths@,
                view.len() > 0,
                is_dir,
                path@ == relative_path@,
                forall|j: int| 0 <= j < view.len() ==> #[trigger] marked@[j]@ == view[j]@,
                forall|j: int| 0 <= j < i ==> !path@.push('/').is_prefix_of(#[trigger] view[j]@),
            decreases marked.len() - i,
        {
            if starts_with_dir(&marked[i], &path) {
                assert(path@.push('/').is_prefix_of(view[i as int]@));
                return true;
            }
            i = i + 1;
        }
    }
    false
}

/// `path` with each `\` written as `/`.
pub open spec fn forward_slashes(path: Seq<char>) -> Seq<char> {
    path.map_values(|c: char| if c == '\\' { '/' } else { c })
}

/// What `Path::strip_prefix` leaves of `path` below `base`, as text; `None`
/// when `base` is not a leading part of `path`.
pub uninterp spec fn path_strip_prefix(path: Seq<char>, base: Seq<char>) -> Option<Seq<char>>;

/// `Path::new(path).strip_prefix(base)`, as text. The contract names the
/// result: it is the same for the same arguments and is not stated further.
#[verifier::external_body]
pub(crate) fn strip_path_prefix(path: &str, base: &str) -> (rest: Option<String>)
    ensures
        match rest {
            Some(r) => path_strip_prefix(path@, base@) == Some(r@),
            None => path_strip_prefix(path@, base@) is None,
        },
{
    Path::new(path).strip_prefix(Path::new(base)).ok().map(|p| p.to_string_lossy().into_owned())
}

/// `path` relative to `repo_root`, with forward slashes; `None` when the
/// path is not under the root.
pub fn repo_relative_path(repo_root: &str, absolute_path: &str) -> (relative: Option<String>)
    ensures
        match path_strip_prefix(absolute_path@, repo_root@) {
            Some(rest) => relative matches Some(r) && r@ == forward_slashes(rest),
            None => relative is None,
        },
{
    let rest = match strip_path_prefix(absolute_path, repo_root) {
        Some(r) => r,
        None => return None,
    };
    let chars = chars_of(rest.as_str());
    let mut out = String::new();
    let mut i: usize = 0;
    while i < chars.len()
        invariant
            i <= chars@.len(),
            out@ == forward_slashes(chars@.take(i as int)),
        decreases chars.len() - i,
    {
        let c = chars[i];
        out.push(if c == '\\' { '/' } else { c });
        proof {
            assert(forward_slashes(chars@.take(i + 1)) =~= forward_slashes(chars@.take(i as int)).push(
                if c == '\\' { '/' } else { c },
            ));
        }
        i = i + 1;
    }
    proof {
        assert(chars@.take(i as int) =~= chars@);
    }
    Some(out)
}

impl GitPathMarks {
    /// Modified and ignored markers of `absolute_path`: none outside a
    /// repository or outside its root, else whether its path relative to
    /// the root carries each kind of marker.
    pub fn marker_for_path(&self, absolute_path: &str, is_dir: bool) -> (marks: (bool, bool))
        ensures
            match self.repo_root {
                None => marks == (false, false),
                Some(root) => match path_strip_prefix(absolute_path@, root@) {
                    None => marks == (false, false),
                    Some(rest) => marks == (
                        path_marked(self.modified_paths@, forward_slashes(rest), is_dir),
                        path_marked(self.ignored_paths@, forward_slashes(rest), is_dir),
                    ),
                },
            },
    {
        let repo_root = match &self.repo_root {
            Some(root) => root,
            None => return (false, false),
        };
        let relative_path = match repo_relative_path(repo_root.as_str(), absolute_path) {
            Some(p) => p,
            None => return (false, false),
        };
        let modified = path_has_marker(self.modified_paths.as_slice(), relative_path.as_str(), is_dir);
        let ignored = path_has_marker(self.ignored_paths.as_slice(), relative_path.as_str(), is_dir);
        (modified, ignored)
    }
}

/// Whether two paths are equal as `PathBuf`s (component by component).
pub uninterp spec fn path_equal(a: Seq<char>, b: Seq<char>) -> bool;

/// Text of `Path::parent`, `None` for a root or an empty path.
pub uninterp spec fn path_parent(path: Seq<char>) -> Option<Seq<char>>;

/// Whether `Path::starts_with` holds: `base`'s components lead `path`'s.
pub uninterp spec fn path_starts_with(path: Seq<char>, base: Seq<char>) -> bool;

/// `PathBuf::from(a) == PathBuf::from(b)`. The contract names the result and
/// states only that equal texts are equal paths.
#[verifier::external_body]
fn paths_equal(a: &str, b: &str) -> (eq: bool)
    ensures
        eq == path_equal(a@, b@),
        a@ == b@ ==> eq,
{
    Path::new(a) == Path::new(b)
}

/// `Path::new(path).parent()`, as text. The contract names the result.
#[verifier::external_body]
fn parent_path(path: &str) -> (parent: Option<String>)
    ensures
        match parent {
            Some(p) => path_parent(path@) == Some(p@),
            None => path_parent(path@) is None,
        },
{
    Path::new(path).parent().map(|p| p.to_string_lossy().into_owned())
}

/// `Path::new(path).starts_with(base)`. The contract names the result.
#[verifier::external_body]
fn path_has_base(path: &str, base: &str) -> (b: bool)
    ensures
        b == path_starts_with(path@, base@),
{
    Path::new(path).starts_with(Path::new(base))
}

/// The parent the browser may move up to from `current`: none at the
/// root, without a parent, or when the parent leaves the root.
pub open spec fn parent_in_root(current: Seq<char>, root: Seq<char>) -> Option<Seq<char>> {
    if path_equal(current, root) {
        None
    } else {
        match path_parent(current) {
            Some(parent) => if path_starts_with(parent, root) {
                Some(parent)
            } else {
                None
            },
            None => None,
        }
    }
}

/// Parent of `current_dir` when it stays within `root_dir`.
pub fn parent_within_root(current_dir: &str, root_dir: &str) -> (parent: Option<String>)
    ensures
        match parent_in_root(current_dir@, root_dir@) {
            Some(p) => parent matches Some(s) && s@ == p,
            None => parent is None,
        },
{
    if paths_equal(current_dir, root_dir) {
        return None;
    }
    let parent = match parent_path(current_dir) {
        Some(p) => p,
        None => return None,
    };
    if !path_has_base(parent.as_str(), root_dir) {
        return None;
    }
    Some(parent)
}

/// True when the browser can move up from `current_dir` without leaving
/// `root_dir`.
pub fn can_navigate_up(root_dir: &str, current_dir: &str) -> (b: bool)
    ensures
        b == parent_in_root(current_dir@, root_dir@) is Some,
{
    match parent_within_root(current_dir, root_dir) {
        Some(_) => true,
        None => false,
    }
}

/// Lowercase text of `s`, as `str::to_lowercase` gives it.
pub uninterp spec fn lowercase(s: Seq<char>) -> Seq<char>;

/// `str::to_lowercase`. The contract names the result.
#[verifier::external_body]
pub(crate) fn to_lowercase_string(s: &str) -> (lower: String)
    ensures
        lower@ == lowercase(s@),
{
    s.to_lowercase()
}

/// Outcome of comparing two texts.
#[derive(Clone, Copy, Debug, PartialEq, Eq, Structural)]
pub enum TextOrder {
    Less,
    Equal,
    Greater,
}

/// Lexicographic order of two texts by character, the order `str`
/// comparison gives (UTF-8 byte order follows code point order).
pub open spec fn text_order(a: Seq<char>, b: Seq<char>) -> TextOrder
    decreases a.len(),
{
    if a.len() == 0 {
        if b.len() == 0 {
            TextOrder::Equal
        } else {
            TextOrder::Less
        }
    } else if b.len() == 0 {
        TextOrder::Greater
    } else if a[0] < b[0] {
        TextOrder::Less
    } else if b[0] < a[0] {
        TextOrder::Greater
    } else {
        text_order(a.drop_first(), b.drop_first())
    }
}

/// Lexicographic order of two strings by character.
fn compare_text(a: &str, b: &str) -> (order: TextOrder)
    ensures
        order == text_order(a@, b@),
{
    let x = chars_of(a);
    let y = chars_of(b);
    proof {
        assert(x@.skip(0) =~= x@);
        assert(y@.skip(0) =~= y@);
    }
    let mut i: usize = 0;
    while i < x.len() && i < y.len()
        invariant
            i <= x@.len(),
            i <= y@.len(),
            x@ == a@,
            y@ == b@,
            text_order(x@, y@) == text_order(x@.skip(i as int), y@.skip(i as int)),
        decreases x.len() - i,
    {
        proof {
            assert(x@.skip(i as int).drop_first() =~= x@.skip(i + 1));
            assert(y@.skip(i as int).drop_first() =~= y@.skip(i + 1));
            assert(x@.skip(i as int)[0] == x@[i as int]);
            assert(y@.skip(i as int)[0] == y@[i as int]);
        }
        proof {
            assert(x@.skip(i as int).len() > 0 && y@.skip(i as int).len() > 0);
        }
        let xc = x[i];
        let yc = y[i];
        if xc < yc {
            assert(x@.skip(i as int)[0] < y@.skip(i as int)[0]);
            assert(text_order(x@.skip(i as int), y@.skip(i as int)) == TextOrder::Less);
            return TextOrder::Less;
        }
        if yc < xc {
            assert(text_order(x@.skip(i as int), y@.skip(i as int)) == TextOrder::Greater);
            return TextOrder::Greater;
        }
        i = i + 1;
    }
    if i < x.len() {
        TextOrder::Greater
    } else if i < y.len() {
        TextOrder::Less
    } else {
        TextOrder::Equal
    }
}

/// Browser order of two entries: directories before files, then by
/// lowercase name, then by name.
pub open spec fn entry_text_order(left: FileBrowserEntry, right: FileBrowserEntry) -> TextOrder {
    if left.is_dir && !right.is_dir {
        TextOrder::Less
    } else if !left.is_dir && right.is_dir {
        TextOrder::Greater
    } else {
        let by_lower = text_order(lowercase(left.name@), lowercase(right.name@));
        if by_lower == TextOrder::Equal {
            text_order(left.name@, right.name@)
        } else {
            by_lower
        }
    }
}

/// The `Ordering` of a text order.
pub open spec fn ordering_of(order: TextOrder) -> Ordering {
    match order {
        TextOrder::Less => Ordering::Less,
        TextOrder::Equal => Ordering::Equal,
        TextOrder::Greater => Ordering::Greater,
    }
}

/// Order of two entries in the browser: directories before files, then by
/// lowercase name, then by name.
pub fn file_browser_entry_ordering(left: &FileBrowserEntry, right: &FileBrowserEntry) -> (order: Ordering)
    ensures
        order == ordering_of(entry_text_order(*left, *right)),
{
    let by_kind = if left.is_dir && !right.is_dir {
        TextOrder::Less
    } else if !left.is_dir && right.is_dir {
        TextOrder::Greater
    } else {
        let left_lower = to_lowercase_string(left.name.as_str());
        let right_lower = to_lowercase_string(right.name.as_str());
        match compare_text(left_lower.as_str(), right_lower.as_str()) {
            TextOrder::Equal => compare_text(left.name.as_str(), right.name.as_str()),
            other => other,
        }
    };
    match by_kind {
        TextOrder::Less => Ordering::Less,
        TextOrder::Equal => Ordering::Equal,
        TextOrder::Greater => Ordering::Greater,
    }
}

} // verus!
