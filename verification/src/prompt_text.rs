//! Text rules of the insert-command panel: prompt previews, filtering, and
//! splitting a prompt into plain text and file paths for highlighting.
use vstd::prelude::*;
use crate::commands::{CommandId, InsertCommand};
use crate::file_browser::{lowercase, to_lowercase_string};
use crate::text::{chars_of, find_from, find_in, is_white_space, is_whitespace_char, trim_seq, trim_string};
use vstd::string::StringExecFns;

verus! {

/// A run of prompt text, marked when it is a file path.
#[derive(Clone, Debug)]
pub struct PromptSegment {
    pub text: String,
    pub is_path: bool,
}

/// Text and path mark of each segment.
pub open spec fn segments_view(segments: Seq<PromptSegment>) -> Seq<(Seq<char>, bool)> {
    segments.map_values(|s: PromptSegment| (s.text@, s.is_path))
}

/// `segments` after adding `text`: nothing for empty text, joined to the
/// last segment when it has the same mark, else a new segment.
pub open spec fn pushed_segment(segments: Seq<(Seq<char>, bool)>, text: Seq<char>, is_path: bool) -> Seq<(Seq<char>, bool)> {
    if text.len() == 0 {
        segments
    } else if segments.len() > 0 && segments.last().1 == is_path {
        segments.update(segments.len() - 1, (segments.last().0 + text, is_path))
    } else {
        segments.push((text, is_path))
    }
}

/// Adds `text` to the segments, joining it to the last one when both have
/// the same mark.
pub fn push_prompt_segment(segments: &mut Vec<PromptSegment>, text: &[char], is_path: bool)
    ensures
        segments_view(final(segments)@) == pushed_segment(segments_view(old(segments)@), text@, is_path),
{
    let ghost before = segments_view(segments@);
    if text.len() == 0 {
        return;
    }
    let n = segments.len();
    if n > 0 && segments[n - 1].is_path == is_path {
        let mut joined = segments[n - 1].text.clone();
        let mut i: usize = 0;
        while i < text.len()
            invariant
                i <= text@.len(),
                joined@ == segments@[n - 1].text@ + text@.take(i as int),
            decreases text.len() - i,
        {
            joined.push(text[i]);
            proof {
                assert(joined@ =~= segments@[n - 1].text@ + text@.take(i + 1));
            }
            i = i + 1;
        }
        proof {
            assert(text@.take(i as int) =~= text@);
        }
        segments.set(n - 1, PromptSegment { text: joined, is_path });
        proof {
            assert(segments_view(segments@) =~= pushed_segment(before, text@, is_path));
        }
        return;
    }
    let mut owned = String::new();
    let mut i: usize = 0;
    while i < text.len()
        invariant
            i <= text@.len(),
            owned@ == text@.take(i as int),
        decreases text.len() - i,
    {
        owned.push(text[i]);
        proof {
            assert(owned@ =~= text@.take(i + 1));
        }
        i = i + 1;
    }
    proof {
        assert(text@.take(i as int) =~= text@);
    }
    segments.push(PromptSegment { text: owned, is_path });
    proof {
        assert(segments_view(segments@) =~= pushed_segment(before, text@, is_path));
    }
}

/// Opening brackets kept out of a path.
pub open spec fn leading_wrapper(c: char) -> bool {
    c == '(' || c == '[' || c == '{'
}

/// Closing brackets and punctuation kept out of a path.
pub open spec fn trailing_wrapper(c: char) -> bool {
    c == ')' || c == ']' || c == '}' || c == ',' || c == ';' || c == ':' || c == '!' || c == '?'
}

/// True for an opening bracket.
pub fn is_leading_wrapper(c: char) -> (b: bool)
    ensures
        b == leading_wrapper(c),
{
    c == '(' || c == '[' || c == '{'
}

/// True for a closing bracket or trailing punctuation.
pub fn is_trailing_wrapper(c: char) -> (b: bool)
    ensures
        b == trailing_wrapper(c),
{
    c == ')' || c == ']' || c == '}' || c == ',' || c == ';' || c == ':' || c == '!' || c == '?'
}

/// End of the run of opening brackets from `i`.
pub open spec fn leading_end(t: Seq<char>, i: int) -> int
    decreases t.len() - i,
{
    if 0 <= i < t.len() && leading_wrapper(t[i]) {
        leading_end(t, i + 1)
    } else {
        i
    }
}

/// Start of the run of trailing punctuation that ends at `j`, not going
/// below `lo`.
pub open spec fn trailing_start(t: Seq<char>, j: int, lo: int) -> int
    decreases j - lo,
{
    if lo < j && j <= t.len() && trailing_wrapper(t[j - 1]) {
        trailing_start(t, j - 1, lo)
    } else {
        j
    }
}

proof fn lemma_leading_end_bounds(t: Seq<char>, i: int)
    requires
        0 <= i <= t.len(),
    ensures
        i <= leading_end(t, i) <= t.len(),
    decreases t.len() - i,
{
    if i < t.len() && leading_wrapper(t[i]) {
        lemma_leading_end_bounds(t, i + 1);
    }
}

proof fn lemma_trailing_start_bounds(t: Seq<char>, j: int, lo: int)
    requires
        0 <= lo <= j <= t.len(),
    ensures
        lo <= trailing_start(t, j, lo) <= j,
    decreases j - lo,
{
    if lo < j && trailing_wrapper(t[j - 1]) {
        lemma_trailing_start_bounds(t, j - 1, lo);
    }
}

/// Where a word's core starts and ends once its opening brackets and
/// trailing punctuation are set apart.
pub open spec fn wrap_bounds(t: Seq<char>) -> (int, int) {
    let a = leading_end(t, 0);
    (a, trailing_start(t, t.len() as int, a))
}

/// Bounds of a word's core: after its opening brackets and before its
/// trailing punctuation.
pub fn split_wrapping_punctuation(token: &[char]) -> (bounds: (usize, usize))
    ensures
        bounds.0 as int == wrap_bounds(token@).0,
        bounds.1 as int == wrap_bounds(token@).1,
        bounds.0 <= bounds.1 <= token@.len(),
{
    let mut start: usize = 0;
    let mut end: usize = token.len();
    while start < end && is_leading_wrapper(token[start])
        invariant
            start <= end == token@.len(),
            leading_end(token@, 0) == leading_end(token@, start as int),
        decreases end - start,
    {
        start = start + 1;
    }
    proof {
        lemma_leading_end_bounds(token@, start as int);
    }
    let ghost a = start;
    while start < end && is_trailing_wrapper(token[end - 1])
        invariant
            a == start <= end <= token@.len(),
            start == leading_end(token@, 0),
            trailing_start(token@, token@.len() as int, a as int) == trailing_start(token@, end as int, a as int),
        decreases end - start,
    {
        end = end - 1;
    }
    (start, end)
}

/// ASCII letters and digits.
pub open spec fn ascii_alnum(c: char) -> bool {
    ('0' <= c && c <= '9') || ('a' <= c && c <= 'z') || ('A' <= c && c <= 'Z')
}

/// Characters allowed in a path that holds a separator.
pub open spec fn path_char(c: char) -> bool {
    ascii_alnum(c) || c == '/' || c == '\\' || c == '.' || c == '_' || c == '-' || c == '~' || c == ':' || c == ' '
}

/// Characters allowed in a file name before its extension (spaces only
/// inside quotes).
pub open spec fn name_char(c: char, quoted: bool) -> bool {
    ascii_alnum(c) || c == '_' || c == '-' || c == '.' || c == '~' || (quoted && c == ' ')
}

/// Position of the last `c` in `s`, or -1.
pub open spec fn last_pos(s: Seq<char>, c: char) -> int
    decreases s.len(),
{
    if s.len() == 0 {
        -1
    } else if s.last() == c {
        s.len() - 1
    } else {
        last_pos(s.drop_last(), c)
    }
}

/// True when a token reads as a file path: not an option, a URL or `.`/`..`;
/// with a separator, made only of path characters; without one, a name and
/// an extension of at most ten ASCII letters or digits.
pub open spec fn path_like(token: Seq<char>, quoted: bool) -> bool {
    let c = trim_seq(token);
    if c.len() == 0 || c == seq!['.'] || c == seq!['.', '.'] || c[0] == '-' {
        false
    } else if seq!['h', 't', 't', 'p', ':', '/', '/'].is_prefix_of(c) || seq![
        'h',
        't',
        't',
        'p',
        's',
        ':',
        '/',
        '/',
    ].is_prefix_of(c) {
        false
    } else if c.contains('/') || c.contains('\\') {
        forall|i: int| 0 <= i < c.len() ==> path_char(#[trigger] c[i])
    } else {
        let dot = last_pos(c, '.');
        let base = c.take(dot);
        let ext = c.skip(dot + 1);
        &&& dot >= 0
        &&& base.len() > 0
        &&& ext.len() > 0
        &&& ext.len() <= 10
        &&& forall|i: int| 0 <= i < ext.len() ==> ascii_alnum(#[trigger] ext[i])
        &&& forall|i: int| 0 <= i < base.len() ==> name_char(#[trigger] base[i], quoted)
    }
}

fn is_ascii_alnum(c: char) -> (b: bool)
    ensures
        b == ascii_alnum(c),
{
    ('0' <= c && c <= '9') || ('a' <= c && c <= 'z') || ('A' <= c && c <= 'Z')
}

fn has_prefix(s: &Vec<char>, prefix: &[char]) -> (b: bool)
    ensures
        b == prefix@.is_prefix_of(s@),
{
    if prefix.len() > s.len() {
        return false;
    }
    let mut i: usize = 0;
    while i < prefix.len()
        invariant
            i <= prefix@.len() <= s@.len(),
            forall|j: int| 0 <= j < i ==> prefix@[j] == s@[j],
        decreases prefix.len() - i,
    {
        if prefix[i] != s[i] {
            return false;
        }
        i = i + 1;
    }
    true
}

fn contains_char(s: &Vec<char>, c: char) -> (b: bool)
    ensures
        b == s@.contains(c),
{
    let mut i: usize = 0;
    while i < s.len()
        invariant
            i <= s@.len(),
            forall|j: int| 0 <= j < i ==> s@[j] != c,
        decreases s.len() - i,
    {
        if s[i] == c {
            return true;
        }
        i = i + 1;
    }
    false
}

/// True when `token` reads as a file path.
pub fn looks_like_path(token: &[char], quoted: bool) -> (b: bool)
    ensures
        b == path_like(token@, quoted),
{
    let mut text = String::new();
    let mut k: usize = 0;
    while k < token.len()
        invariant
            k <= token@.len(),
            text@ == token@.take(k as int),
        decreases token.len() - k,
    {
        text.push(token[k]);
        proof {
            assert(text@ =~= token@.take(k + 1));
        }
        k = k + 1;
    }
    proof {
        assert(token@.take(k as int) =~= token@);
    }
    let c = chars_of(trim_string(text.as_str()).as_str());
    let n = c.len();
    if n == 0 || (n == 1 && c[0] == '.') || (n == 2 && c[0] == '.' && c[1] == '.') || c[0] == '-' {
        proof {
            if n == 1 && c[0] == '.' {
                assert(c@ =~= seq!['.']);
            }
            if n == 2 && c[0] == '.' && c[1] == '.' {
                assert(c@ =~= seq!['.', '.']);
            }
        }
        return false;
    }
    proof {
        assert(c@ != seq!['.']);
        assert(c@ != seq!['.', '.']);
    }
    let http = ['h', 't', 't', 'p', ':', '/', '/'];
    let https = ['h', 't', 't', 'p', 's', ':', '/', '/'];
    let http_match = has_prefix(&c, http.as_slice());
    let https_match = has_prefix(&c, https.as_slice());
    proof {
        assert(http@ =~= seq!['h', 't', 't', 'p', ':', '/', '/']);
        assert(https@ =~= seq!['h', 't', 't', 'p', 's', ':', '/', '/']);
    }
    if http_match || https_match {
        return false;
    }
    if contains_char(&c, '/') || contains_char(&c, '\\') {
        return all_path_chars(&c);
    }
    let dot = match last_dot(&c) {
        Some(d) => d,
        None => return false,
    };
    if dot == 0 || dot + 1 >= n || n - (dot + 1) > 10 {
        return false;
    }
    let ext_ok = alnum_from(&c, dot + 1);
    let base_ok = name_chars_before(&c, dot, quoted);
    proof {
        let ext = c@.skip(dot + 1);
        let base = c@.take(dot as int);
        assert(ext_ok == forall|i: int| 0 <= i < ext.len() ==> ascii_alnum(#[trigger] ext[i])) by {
            if !ext_ok {
                let w = choose|i: int| dot + 1 <= i < c@.len() && !ascii_alnum(#[trigger] c@[i]);
                assert(ext[w - (dot + 1)] == c@[w]);
            }
        }
        assert(base_ok == forall|i: int| 0 <= i < base.len() ==> name_char(#[trigger] base[i], quoted)) by {
            if !base_ok {
                let w = choose|i: int| 0 <= i < dot && !name_char(#[trigger] c@[i], quoted);
                assert(base[w] == c@[w]);
            }
        }
    }
    ext_ok && base_ok
}

/// True when every character is a path character.
fn all_path_chars(c: &Vec<char>) -> (b: bool)
    ensures
        b == forall|i: int| 0 <= i < c@.len() ==> path_char(#[trigger] c@[i]),
{
    let mut i: usize = 0;
    while i < c.len()
        invariant
            i <= c@.len(),
            forall|j: int| 0 <= j < i ==> path_char(#[trigger] c@[j]),
        decreases c.len() - i,
    {
        let ch = c[i];
        if !(is_ascii_alnum(ch) || ch == '/' || ch == '\\' || ch == '.' || ch == '_' || ch == '-' || ch == '~'
            || ch == ':' || ch == ' ') {
            assert(!path_char(c@[i as int]));
            return false;
        }
        i = i + 1;
    }
    true
}

/// True when every character from `from` on is an ASCII letter or digit.
fn alnum_from(c: &Vec<char>, from: usize) -> (b: bool)
    ensures
        b == forall|i: int| from <= i < c@.len() ==> ascii_alnum(#[trigger] c@[i]),
{
    let mut i: usize = from;
    while i < c.len()
        invariant
            from <= i || i >= c@.len(),
            forall|j: int| from <= j < i && j < c@.len() ==> ascii_alnum(#[trigger] c@[j]),
        decreases c.len() - i,
    {
        if !is_ascii_alnum(c[i]) {
            assert(!ascii_alnum(c@[i as int]));
            return false;
        }
        i = i + 1;
    }
    true
}

/// True when every character before `upto` is a file-name character.
fn name_chars_before(c: &Vec<char>, upto: usize, quoted: bool) -> (b: bool)
    requires
        upto <= c@.len(),
    ensures
        b == forall|i: int| 0 <= i < upto ==> name_char(#[trigger] c@[i], quoted),
{
    let mut j: usize = 0;
    while j < upto
        invariant
            j <= upto <= c@.len(),
            forall|k: int| 0 <= k < j ==> name_char(#[trigger] c@[k], quoted),
        decreases upto - j,
    {
        let ch = c[j];
        if !(is_ascii_alnum(ch) || ch == '_' || ch == '-' || ch == '.' || ch == '~' || (quoted && ch == ' ')) {
            assert(!name_char(c@[j as int], quoted));
            return false;
        }
        j = j + 1;
    }
    true
}

/// Position of the last `.`.
fn last_dot(c: &Vec<char>) -> (pos: Option<usize>)
    ensures
        match pos {
            Some(p) => p as int == last_pos(c@, '.') && p < c@.len(),
            None => last_pos(c@, '.') == -1,
        },
{
    let mut i: usize = c.len();
    proof {
        assert(c@.take(i as int) =~= c@);
    }
    while i > 0
        invariant
            i <= c@.len(),
            last_pos(c@, '.') == last_pos(c@.take(i as int), '.'),
        decreases i,
    {
        proof {
            assert(c@.take(i as int).drop_last() =~= c@.take(i - 1));
        }
        if c[i - 1] == '.' {
            return Some(i - 1);
        }
        i = i - 1;
    }
    None
}

/// End of a quoted token whose text continues at `j`: just past the first
/// `"` not escaped by a backslash, or the end of the text.
pub open spec fn quote_end(s: Seq<char>, j: int, escaped: bool) -> int
    decreases s.len() - j,
{
    if j < 0 || j >= s.len() {
        j
    } else if s[j] == '"' && !escaped {
        j + 1
    } else {
        quote_end(s, j + 1, if s[j] == '\\' { !escaped } else { false })
    }
}

/// End of the run of whitespace from `j`.
pub open spec fn space_end(s: Seq<char>, j: int) -> int
    decreases s.len() - j,
{
    if 0 <= j < s.len() && is_white_space(s[j]) {
        space_end(s, j + 1)
    } else {
        j
    }
}

/// End of the word from `j`: up to whitespace or a `"`.
pub open spec fn word_end(s: Seq<char>, j: int) -> int
    decreases s.len() - j,
{
    if 0 <= j < s.len() && !is_white_space(s[j]) && s[j] != '"' {
        word_end(s, j + 1)
    } else {
        j
    }
}

pub proof fn lemma_quote_end_bounds(s: Seq<char>, j: int, escaped: bool)
    requires
        0 <= j <= s.len(),
    ensures
        j <= quote_end(s, j, escaped) <= s.len(),
    decreases s.len() - j,
{
    if j < s.len() && !(s[j] == '"' && !escaped) {
        lemma_quote_end_bounds(s, j + 1, if s[j] == '\\' { !escaped } else { false });
    }
}

pub proof fn lemma_space_end_bounds(s: Seq<char>, j: int)
    requires
        0 <= j <= s.len(),
    ensures
        j <= space_end(s, j) <= s.len(),
    decreases s.len() - j,
{
    if j < s.len() && is_white_space(s[j]) {
        lemma_space_end_bounds(s, j + 1);
    }
}

pub proof fn lemma_word_end_bounds(s: Seq<char>, j: int)
    requires
        0 <= j <= s.len(),
    ensures
        j <= word_end(s, j) <= s.len(),
    decreases s.len() - j,
{
    if j < s.len() && !is_white_space(s[j]) && s[j] != '"' {
        lemma_word_end_bounds(s, j + 1);
    }
}

/// End of the run of `"` from `j`.
pub open spec fn quotes_end(t: Seq<char>, j: int) -> int
    decreases t.len() - j,
{
    if 0 <= j < t.len() && t[j] == '"' {
        quotes_end(t, j + 1)
    } else {
        j
    }
}

/// Text inside a quoted token: between its quotes when it is closed, else
/// after its opening quotes.
pub open spec fn quoted_inner(t: Seq<char>) -> Seq<char> {
    if t.len() >= 2 && t.last() == '"' {
        t.subrange(1, t.len() - 1)
    } else {
        t.skip(quotes_end(t, 0))
    }
}

/// Segments of a word: its core marked as a path when it reads as one,
/// with its brackets and punctuation as plain text; else the whole word as
/// plain text.
pub open spec fn word_segments(acc: Seq<(Seq<char>, bool)>, w: Seq<char>) -> Seq<(Seq<char>, bool)> {
    let (a, b) = wrap_bounds(w);
    let core = w.subrange(a, b);
    if core.len() == 0 || !path_like(core, false) {
        pushed_segment(acc, w, false)
    } else {
        pushed_segment(pushed_segment(pushed_segment(acc, w.take(a), false), core, true), w.skip(b), false)
    }
}

/// Segments of a prompt from position `i`, after `acc`: quoted tokens
/// (marked when their inside reads as a path), whitespace runs (plain) and
/// words (see `word_segments`), with neighbours of the same mark joined.
pub open spec fn segments_from(s: Seq<char>, i: int, acc: Seq<(Seq<char>, bool)>) -> Seq<(Seq<char>, bool)>
    decreases s.len() - i,
{
    if i < 0 || i >= s.len() {
        acc
    } else if s[i] == '"' {
        let j = quote_end(s, i + 1, false);
        proof {
            lemma_quote_end_bounds(s, i + 1, false);
        }
        let t = s.subrange(i, j);
        segments_from(s, j, pushed_segment(acc, t, path_like(quoted_inner(t), true)))
    } else if is_white_space(s[i]) {
        let j = space_end(s, i + 1);
        proof {
            lemma_space_end_bounds(s, i + 1);
        }
        segments_from(s, j, pushed_segment(acc, s.subrange(i, j), false))
    } else {
        let j = word_end(s, i + 1);
        proof {
            lemma_word_end_bounds(s, i + 1);
        }
        segments_from(s, j, word_segments(acc, s.subrange(i, j)))
    }
}

fn quote_token_end(c: &Vec<char>, from: usize) -> (end: usize)
    requires
        from <= c@.len(),
    ensures
        end as int == quote_end(c@, from as int, false),
        from <= end <= c@.len(),
{
    let mut j = from;
    let mut escaped = false;
    proof {
        lemma_quote_end_bounds(c@, from as int, false);
    }
    while j < c.len()
        invariant
            from <= j <= c@.len(),
            quote_end(c@, from as int, false) == quote_end(c@, j as int, escaped),
        decreases c.len() - j,
    {
        let next = c[j];
        if next == '"' && !escaped {
            return j + 1;
        }
        escaped = if next == '\\' { !escaped } else { false };
        j = j + 1;
    }
    j
}

fn space_run_end(c: &Vec<char>, from: usize) -> (end: usize)
    requires
        from <= c@.len(),
    ensures
        end as int == space_end(c@, from as int),
        from <= end <= c@.len(),
{
    let mut j = from;
    while j < c.len() && is_whitespace_char(c[j])
        invariant
            from <= j <= c@.len(),
            space_end(c@, from as int) == space_end(c@, j as int),
        decreases c.len() - j,
    {
        j = j + 1;
    }
    j
}

fn word_run_end(c: &Vec<char>, from: usize) -> (end: usize)
    requires
        from <= c@.len(),
    ensures
        end as int == word_end(c@, from as int),
        from <= end <= c@.len(),
{
    let mut j = from;
    while j < c.len() && !is_whitespace_char(c[j]) && c[j] != '"'
        invariant
            from <= j <= c@.len(),
            word_end(c@, from as int) == word_end(c@, j as int),
        decreases c.len() - j,
    {
        j = j + 1;
    }
    j
}

/// Text inside a quoted token.
fn quoted_inner_chars(t: &Vec<char>) -> (inner: Vec<char>)
    ensures
        inner@ == quoted_inner(t@),
{
    let n = t.len();
    if n >= 2 && t[n - 1] == '"' {
        return crate::text::vec_range(t, 1, n - 1);
    }
    let mut k: usize = 0;
    while k < n && t[k] == '"'
        invariant
            k <= n == t@.len(),
            quotes_end(t@, 0) == quotes_end(t@, k as int),
        decreases n - k,
    {
        k = k + 1;
    }
    proof {
        assert(t@.subrange(k as int, n as int) =~= t@.skip(k as int));
    }
    crate::text::vec_range(t, k, n)
}

/// Adds the segments of word `w`.
fn push_word_segments(segments: &mut Vec<PromptSegment>, w: &Vec<char>)
    ensures
        segments_view(final(segments)@) == word_segments(segments_view(old(segments)@), w@),
{
    let (a, b) = split_wrapping_punctuation(w.as_slice());
    let core = crate::text::vec_range(w, a, b);
    if core.len() == 0 || !looks_like_path(core.as_slice(), false) {
        push_prompt_segment(segments, w.as_slice(), false);
        return;
    }
    let prefix = crate::text::vec_range(w, 0, a);
    let suffix = crate::text::vec_range(w, b, w.len());
    proof {
        assert(prefix@ =~= w@.take(a as int));
        assert(suffix@ =~= w@.skip(b as int));
    }
    push_prompt_segment(segments, prefix.as_slice(), false);
    push_prompt_segment(segments, core.as_slice(), true);
    push_prompt_segment(segments, suffix.as_slice(), false);
}

/// The segments' texts, one after another.
pub open spec fn joined_text(segments: Seq<(Seq<char>, bool)>) -> Seq<char>
    decreases segments.len(),
{
    if segments.len() == 0 {
        Seq::empty()
    } else {
        joined_text(segments.drop_last()) + segments.last().0
    }
}

/// No segment is empty and neighbours differ in mark: plain text and
/// paths alternate.
pub open spec fn alternating(segments: Seq<(Seq<char>, bool)>) -> bool {
    &&& forall|i: int| 0 <= i < segments.len() ==> (#[trigger] segments[i]).0.len() > 0
    &&& forall|i: int| 0 <= i < segments.len() - 1 ==> (#[trigger] segments[i]).1 != segments[i + 1].1
}

/// Adding text keeps the segments alternating and appends the text to
/// their joined text.
proof fn lemma_pushed_segment(segments: Seq<(Seq<char>, bool)>, text: Seq<char>, is_path: bool)
    requires
        alternating(segments),
    ensures
        alternating(pushed_segment(segments, text, is_path)),
        joined_text(pushed_segment(segments, text, is_path)) == joined_text(segments) + text,
{
    let r = pushed_segment(segments, text, is_path);
    if text.len() == 0 {
        assert(joined_text(segments) + text =~= joined_text(segments));
    } else if segments.len() > 0 && segments.last().1 == is_path {
        assert(r.drop_last() =~= segments.drop_last());
        assert(joined_text(segments.drop_last()) + (segments.last().0 + text) =~= joined_text(segments.drop_last())
            + segments.last().0 + text);
        assert forall|i: int| 0 <= i < r.len() - 1 implies (#[trigger] r[i]).1 != r[i + 1].1 by {
            assert(r[i] == segments[i]);
        }
    } else {
        assert(r.drop_last() =~= segments);
        assert forall|i: int| 0 <= i < r.len() - 1 implies (#[trigger] r[i]).1 != r[i + 1].1 by {
            assert(r[i] == segments[i]);
        }
    }
}

/// A word's segments keep the segments alternating and append the word.
proof fn lemma_word_segments(acc: Seq<(Seq<char>, bool)>, w: Seq<char>)
    requires
        alternating(acc),
    ensures
        alternating(word_segments(acc, w)),
        joined_text(word_segments(acc, w)) == joined_text(acc) + w,
{
    let (a, b) = wrap_bounds(w);
    lemma_leading_end_bounds(w, 0);
    lemma_trailing_start_bounds(w, w.len() as int, a);
    let core = w.subrange(a, b);
    if core.len() == 0 || !path_like(core, false) {
        lemma_pushed_segment(acc, w, false);
    } else {
        let p1 = pushed_segment(acc, w.take(a), false);
        let p2 = pushed_segment(p1, core, true);
        lemma_pushed_segment(acc, w.take(a), false);
        lemma_pushed_segment(p1, core, true);
        lemma_pushed_segment(p2, w.skip(b), false);
        assert(joined_text(acc) + w.take(a) + core + w.skip(b) =~= joined_text(acc) + w);
    }
}

/// Splitting from position `i` after segments that rejoin to the text
/// before `i` gives alternating segments that rejoin to the whole text.
proof fn lemma_segments_from_rejoin(s: Seq<char>, i: int, acc: Seq<(Seq<char>, bool)>)
    requires
        0 <= i <= s.len(),
        alternating(acc),
        joined_text(acc) == s.take(i),
    ensures
        alternating(segments_from(s, i, acc)),
        joined_text(segments_from(s, i, acc)) == s,
    decreases s.len() - i,
{
    if i >= s.len() {
        assert(s.take(i) =~= s);
    } else {
        let j = if s[i] == '"' {
            lemma_quote_end_bounds(s, i + 1, false);
            quote_end(s, i + 1, false)
        } else if is_white_space(s[i]) {
            lemma_space_end_bounds(s, i + 1);
            space_end(s, i + 1)
        } else {
            lemma_word_end_bounds(s, i + 1);
            word_end(s, i + 1)
        };
        let t = s.subrange(i, j);
        let next = if s[i] == '"' {
            pushed_segment(acc, t, path_like(quoted_inner(t), true))
        } else if is_white_space(s[i]) {
            pushed_segment(acc, t, false)
        } else {
            word_segments(acc, t)
        };
        if s[i] == '"' {
            lemma_pushed_segment(acc, t, path_like(quoted_inner(t), true));
        } else if is_white_space(s[i]) {
            lemma_pushed_segment(acc, t, false);
        } else {
            lemma_word_segments(acc, t);
        }
        assert(s.take(i) + t =~= s.take(j));
        lemma_segments_from_rejoin(s, j, next);
        assert(segments_from(s, i, acc) == segments_from(s, j, next));
    }
}

/// The segments of a prompt rejoin to the prompt, none is empty, and plain
/// text and paths alternate: splitting loses and adds nothing.
pub proof fn lemma_prompt_segments_rejoin(prompt: Seq<char>)
    ensures
        joined_text(segments_from(prompt, 0, Seq::empty())) == prompt,
        alternating(segments_from(prompt, 0, Seq::empty())),
{
    assert(joined_text(Seq::<(Seq<char>, bool)>::empty()) =~= prompt.take(0));
    lemma_segments_from_rejoin(prompt, 0, Seq::empty());
}

/// Splits a prompt into plain and path segments for highlighting.
pub fn prompt_segments_with_paths(prompt: &str) -> (segments: Vec<PromptSegment>)
    ensures
        segments_view(segments@) == segments_from(prompt@, 0, Seq::empty()),
{
    let c = chars_of(prompt);
    let mut segments: Vec<PromptSegment> = Vec::new();
    let mut index: usize = 0;
    proof {
        assert(segments_view(segments@) =~= Seq::<(Seq<char>, bool)>::empty());
    }
    while index < c.len()
        invariant
            index <= c@.len(),
            c@ == prompt@,
            segments_from(prompt@, 0, Seq::empty()) == segments_from(c@, index as int, segments_view(segments@)),
        decreases c.len() - index,
    {
        let ch = c[index];
        if ch == '"' {
            let end = quote_token_end(&c, index + 1);
            let token = crate::text::vec_range(&c, index, end);
            let inner = quoted_inner_chars(&token);
            let is_path = looks_like_path(inner.as_slice(), true);
            push_prompt_segment(&mut segments, token.as_slice(), is_path);
            index = end;
        } else if is_whitespace_char(ch) {
            let end = space_run_end(&c, index + 1);
            let run = crate::text::vec_range(&c, index, end);
            push_prompt_segment(&mut segments, run.as_slice(), false);
            index = end;
        } else {
            let end = word_run_end(&c, index + 1);
            let word = crate::text::vec_range(&c, index, end);
            push_word_segments(&mut segments, &word);
            index = end;
        }
    }
    segments
}

/// Preview of a prompt: trimmed, newlines as spaces, cut to 78 characters
/// followed by `...` when longer.
pub open spec fn preview_of(prompt: Seq<char>) -> Seq<char> {
    let normalized = trim_seq(prompt).map_values(|c: char| if c == '\n' { ' ' } else { c });
    if normalized.len() <= 78 {
        normalized
    } else {
        normalized.take(78) + seq!['.', '.', '.']
    }
}

/// One-line preview of a prompt.
pub fn prompt_preview(prompt: &str) -> (preview: String)
    ensures
        preview@ == preview_of(prompt@),
{
    let trimmed = chars_of(trim_string(prompt).as_str());
    let ghost normalized = trimmed@.map_values(|c: char| if c == '\n' { ' ' } else { c });
    let limit = if trimmed.len() <= 78 { trimmed.len() } else { 78 };
    let mut preview = String::new();
    let mut i: usize = 0;
    while i < limit
        invariant
            i <= limit <= trimmed@.len(),
            normalized == trimmed@.map_values(|c: char| if c == '\n' { ' ' } else { c }),
            preview@ == normalized.take(i as int),
        decreases limit - i,
    {
        let ch = trimmed[i];
        preview.push(if ch == '\n' { ' ' } else { ch });
        proof {
            assert(preview@ =~= normalized.take(i + 1));
        }
        i = i + 1;
    }
    if trimmed.len() > 78 {
        preview.push('.');
        preview.push('.');
        preview.push('.');
        proof {
            assert(preview@ =~= normalized.take(78) + seq!['.', '.', '.']);
        }
    } else {
        proof {
            assert(preview@ =~= normalized);
        }
    }
    preview
}

/// True when the panel should select its first command: nothing is
/// selected, no new draft is open and there are commands.
pub fn should_auto_select_first(selected_id: Option<CommandId>, is_new_draft: bool, has_commands: bool) -> (b: bool)
    ensures
        b == (selected_id is None && !is_new_draft && has_commands),
{
    selected_id.is_none() && !is_new_draft && has_commands
}

/// `items` joined with `sep` between consecutive items.
pub open spec fn joined(items: Seq<Seq<char>>, sep: Seq<char>) -> Seq<char>
    decreases items.len(),
{
    if items.len() == 0 {
        Seq::empty()
    } else if items.len() == 1 {
        items[0]
    } else {
        joined(items.drop_last(), sep) + sep + items.last()
    }
}

/// Text of each string.
pub open spec fn texts(items: Seq<String>) -> Seq<Seq<char>> {
    items.map_values(|s: String| s@)
}

/// The strings joined with `sep`.
pub fn join_strings(items: &[String], sep: &str) -> (out: String)
    ensures
        out@ == joined(texts(items@), sep@),
{
    let mut out = String::new();
    let mut i: usize = 0;
    while i < items.len()
        invariant
            i <= items@.len(),
            out@ == joined(texts(items@).take(i as int), sep@),
        decreases items.len() - i,
    {
        proof {
            assert(texts(items@).take(i + 1).drop_last() =~= texts(items@).take(i as int));
        }
        if i > 0 {
            out.append(sep);
        }
        out.append(items[i].as_str());
        proof {
            if i == 0 {
                assert(out@ =~= texts(items@).take(1)[0]);
            }
        }
        i = i + 1;
    }
    proof {
        assert(texts(items@).take(i as int) =~= texts(items@));
    }
    out
}

/// True when `needle` occurs in `hay`.
pub open spec fn text_contains(hay: Seq<char>, needle: Seq<char>) -> bool {
    find_from(hay, needle, 0) is Some
}

fn contains_text(hay: &str, needle: &Vec<char>) -> (b: bool)
    ensures
        b == text_contains(hay@, needle@),
{
    let h = chars_of(hay);
    find_in(&h, needle, 0).is_some()
}

/// True when the lowercase name, prompt, description or space-joined tags
/// of `command` contain `filter`.
pub open spec fn command_matches(command: InsertCommand, filter: Seq<char>) -> bool {
    ||| text_contains(lowercase(command.name@), filter)
    ||| text_contains(lowercase(command.prompt@), filter)
    ||| text_contains(lowercase(command.description@), filter)
    ||| text_contains(lowercase(joined(texts(command.tags@), seq![' '])), filter)
}

/// True when `command` matches the (lowercase) `filter`.
pub fn matches_filter(command: &InsertCommand, filter: &str) -> (b: bool)
    ensures
        b == command_matches(*command, filter@),
{
    let f = chars_of(filter);
    let name = to_lowercase_string(command.name.as_str());
    let prompt = to_lowercase_string(command.prompt.as_str());
    let description = to_lowercase_string(command.description.as_str());
    let tags = join_strings(command.tags.as_slice(), " ");
    proof {
        reveal_strlit(" ");
        assert(" "@ =~= seq![' ']);
    }
    let tags_lower = to_lowercase_string(tags.as_str());
    contains_text(name.as_str(), &f) || contains_text(prompt.as_str(), &f) || contains_text(
        description.as_str(),
        &f,
    ) || contains_text(tags_lower.as_str(), &f)
}

} // verus!
