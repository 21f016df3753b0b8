//! What the notes view shows: a note's markdown split around its snippet
//! references, the markdown parts rendered to HTML and the references
//! labelled from the snippets they name.
use vstd::prelude::*;
use vstd::string::StringExecFns;
use crate::state::{snippet_token_close, snippet_token_open, Snippet, SnippetId};
use crate::text::{
    chars_of, decimal_digits, find_from, find_in, lemma_find_from_bounds, parse_u64_range,
    parse_u64_seq, push_decimal, string_from_chars, string_from_range, trim_bounds, trim_seq,
    vec_range,
};

verus! {

/// A part of a note: markdown text, or a reference to a snippet.
#[derive(Clone, Debug)]
pub enum NoteSegment {
    Markdown(String),
    SnippetRef(SnippetId),
}

/// Value of a [`NoteSegment`].
pub enum NoteSegmentView {
    Markdown(Seq<char>),
    SnippetRef(SnippetId),
}

impl View for NoteSegment {
    type V = NoteSegmentView;

    open spec fn view(&self) -> NoteSegmentView {
        match self {
            NoteSegment::Markdown(s) => NoteSegmentView::Markdown(s@),
            NoteSegment::SnippetRef(id) => NoteSegmentView::SnippetRef(*id),
        }
    }
}

/// Values of a sequence of segments.
pub open spec fn segments_view(s: Seq<NoteSegment>) -> Seq<NoteSegmentView> {
    s.map_values(|x: NoteSegment| x@)
}

/// Segments of `s` from position `i` on: the text before each
/// `[[snippet:` (when not empty) as markdown; a complete reference whose
/// trimmed body parses as an identifier as a snippet reference, and one
/// that does not as markdown, as written; an opening without a closing,
/// with the rest of the text, as markdown; and the text after the last
/// reference (when not empty) as markdown.
pub open spec fn note_segments_from(s: Seq<char>, i: int) -> Seq<NoteSegmentView>
    decreases s.len() - i,
{
    match find_from(s, snippet_token_open(), i) {
        None => if 0 <= i < s.len() {
            seq![NoteSegmentView::Markdown(s.subrange(i, s.len() as int))]
        } else {
            seq![]
        },
        Some(p) => {
            let head: Seq<NoteSegmentView> = if p > i {
                seq![NoteSegmentView::Markdown(s.subrange(i, p))]
            } else {
                seq![]
            };
            let c = p + 10;
            match find_from(s, snippet_token_close(), c) {
                None => head + seq![NoteSegmentView::Markdown(snippet_token_open() + s.subrange(c, s.len() as int))],
                Some(e) => {
                    proof {
                        lemma_find_from_bounds(s, snippet_token_open(), i);
                        lemma_find_from_bounds(s, snippet_token_close(), c);
                    }
                    let raw = s.subrange(c, e);
                    let middle = match parse_u64_seq(trim_seq(raw)) {
                        Some(id) => NoteSegmentView::SnippetRef(id),
                        None => NoteSegmentView::Markdown(snippet_token_open() + raw + snippet_token_close()),
                    };
                    head + seq![middle] + note_segments_from(s, e + 2)
                },
            }
        },
    }
}

fn push_segment(segments: &mut Vec<NoteSegment>, segment: NoteSegment)
    ensures
        segments_view(final(segments)@) == segments_view(old(segments)@).push(segment@),
{
    let ghost before = segments@;
    segments.push(segment);
    proof {
        assert(segments_view(segments@) =~= segments_view(before).push(segment@));
    }
}

fn token_open_chars() -> (v: Vec<char>)
    ensures
        v@ == snippet_token_open(),
{
    let v: Vec<char> = vec!['[', '[', 's', 'n', 'i', 'p', 'p', 'e', 't', ':'];
    proof {
        assert(v@ =~= snippet_token_open());
    }
    v
}

/// Splits a note's markdown around its snippet references: see
/// [`note_segments_from`].
pub fn split_note_segments(markdown: &str) -> (segments: Vec<NoteSegment>)
    ensures
        segments_view(segments@) == note_segments_from(markdown@, 0),
{
    let v = chars_of(markdown);
    let open = token_open_chars();
    let close: Vec<char> = vec![']', ']'];
    proof {
        assert(close@ =~= snippet_token_close());
    }
    let mut segments: Vec<NoteSegment> = Vec::new();
    let mut pos: usize = 0;
    proof {
        assert(segments_view(segments@) =~= Seq::<NoteSegmentView>::empty());
    }
    loop
        invariant
            pos <= v.len(),
            v@ == markdown@,
            open@ == snippet_token_open(),
            close@ == snippet_token_close(),
            note_segments_from(v@, 0) == segments_view(segments@) + note_segments_from(v@, pos as int),
        decreases v.len() - pos,
    {
        let ghost before = segments_view(segments@);
        let p = match find_in(&v, &open, pos) {
            Some(p) => p,
            None => {
                if pos < v.len() {
                    push_segment(&mut segments, NoteSegment::Markdown(string_from_range(&v, pos, v.len())));
                }
                proof {
                    assert(segments_view(segments@) =~= before + note_segments_from(v@, pos as int));
                }
                return segments;
            },
        };
        proof {
            lemma_find_from_bounds(v@, open@, pos as int);
        }
        if p > pos {
            push_segment(&mut segments, NoteSegment::Markdown(string_from_range(&v, pos, p)));
        }
        let ghost with_head = segments_view(segments@);
        let c = p + 10;
        let e = match find_in(&v, &close, c) {
            Some(e) => e,
            None => {
                let mut text = string_from_chars(&open);
                let rest = string_from_range(&v, c, v.len());
                text.append(rest.as_str());
                push_segment(&mut segments, NoteSegment::Markdown(text));
                proof {
                    assert(segments_view(segments@) =~= before + note_segments_from(v@, pos as int));
                }
                return segments;
            },
        };
        proof {
            lemma_find_from_bounds(v@, close@, c as int);
        }
        let raw = vec_range(&v, c, e);
        let (a, b) = trim_bounds(&raw);
        let parsed = parse_u64_range(&raw, a, b);
        let middle = match parsed {
            Some(id) => NoteSegment::SnippetRef(id),
            None => {
                let mut text = string_from_chars(&open);
                let body = string_from_chars(&raw);
                text.append(body.as_str());
                text.append("]]");
                proof {
                    reveal_strlit("]]");
                    assert(text@ =~= snippet_token_open() + raw@ + snippet_token_close());
                }
                NoteSegment::Markdown(text)
            },
        };
        let ghost m = middle@;
        push_segment(&mut segments, middle);
        proof {
            assert(raw@.subrange(a as int, b as int) == trim_seq(raw@));
            let expected = match parse_u64_seq(trim_seq(v@.subrange(c as int, e as int))) {
                Some(id) => NoteSegmentView::SnippetRef(id),
                None => NoteSegmentView::Markdown(snippet_token_open() + v@.subrange(c as int, e as int) + snippet_token_close()),
            };
            assert(m == expected);
            let head: Seq<NoteSegmentView> = if p > pos {
                seq![NoteSegmentView::Markdown(v@.subrange(pos as int, p as int))]
            } else {
                seq![]
            };
            assert(with_head =~= before + head);
            assert(note_segments_from(v@, pos as int) == head + seq![expected] + note_segments_from(v@, e + 2));
            assert(segments_view(segments@) + note_segments_from(v@, e + 2) =~= before + note_segments_from(
                v@,
                pos as int,
            ));
        }
        pos = e + 2;
    }
}

/// `s` with each line break replaced by a space.
pub open spec fn newlines_to_spaces(s: Seq<char>) -> Seq<char> {
    s.map_values(|c: char| if c == '\n' { ' ' } else { c })
}

/// A snippet's text on one line, trimmed, and cut to `max_chars`
/// characters followed by `...` when longer.
pub open spec fn preview_text(text: Seq<char>, max_chars: nat) -> Seq<char> {
    let n = trim_seq(newlines_to_spaces(text));
    if n.len() <= max_chars {
        n
    } else {
        n.take(max_chars as int) + "..."@
    }
}

/// A snippet's text shortened for display: see [`preview_text`].
pub fn snippet_preview(text: &str, max_chars: usize) -> (preview: String)
    ensures
        preview@ == preview_text(text@, max_chars as nat),
{
    let chars = chars_of(text);
    let mut line: Vec<char> = Vec::new();
    let mut i: usize = 0;
    while i < chars.len()
        invariant
            i <= chars@.len(),
            line@ == newlines_to_spaces(chars@.take(i as int)),
        decreases chars.len() - i,
    {
        let c = chars[i];
        line.push(if c == '\n' { ' ' } else { c });
        proof {
            assert(line@ =~= newlines_to_spaces(chars@.take(i + 1)));
        }
        i = i + 1;
    }
    proof {
        assert(chars@.take(chars@.len() as int) =~= chars@);
    }
    let (a, b) = trim_bounds(&line);
    let ghost n = line@.subrange(a as int, b as int);
    proof {
        assert(n == trim_seq(newlines_to_spaces(text@)));
    }
    if b - a <= max_chars {
        return string_from_range(&line, a, b);
    }
    let mut preview = string_from_range(&line, a, a + max_chars);
    preview.append("...");
    proof {
        reveal_strlit("...");
        assert(line@.subrange(a as int, a + max_chars) =~= n.take(max_chars as int));
    }
    preview
}

/// Position of the first snippet with identifier `id`, or -1.
pub open spec fn first_snippet(snippets: Seq<Snippet>, id: SnippetId) -> int {
    if exists|i: int| 0 <= i < snippets.len() && (#[trigger] snippets[i]).id == id {
        choose|i: int|
            0 <= i < snippets.len() && (#[trigger] snippets[i]).id == id && forall|j: int| 0 <= j < i ==> snippets[j].id != id
    } else {
        -1
    }
}

fn find_snippet(snippets: &[Snippet], snippet_id: SnippetId) -> (found: Option<usize>)
    ensures
        match found {
            Some(i) => i == first_snippet(snippets@, snippet_id) && i < snippets@.len(),
            None => first_snippet(snippets@, snippet_id) == -1,
        },
{
    let mut i: usize = 0;
    while i < snippets.len()
        invariant
            i <= snippets@.len(),
            forall|j: int| 0 <= j < i ==> (#[trigger] snippets@[j]).id != snippet_id,
        decreases snippets.len() - i,
    {
        if snippets[i].id == snippet_id {
            proof {
                let k = first_snippet(snippets@, snippet_id);
                assert(0 <= k < snippets@.len() && snippets@[k].id == snippet_id && forall|j: int|
                    0 <= j < k ==> snippets@[j].id != snippet_id);
                if k < i {
                    assert(snippets@[k].id != snippet_id);
                }
                if i < k {
                    assert(snippets@[i as int].id != snippet_id);
                }
            }
            return Some(i);
        }
        i = i + 1;
    }
    None
}

/// True when a snippet has identifier `snippet_id`.
pub fn snippet_exists(snippets: &[Snippet], snippet_id: SnippetId) -> (exists: bool)
    ensures
        exists == (first_snippet(snippets@, snippet_id) >= 0),
{
    find_snippet(snippets, snippet_id).is_some()
}

/// Label of a snippet reference: `Snippet #ID: ` and the first snippet's
/// text shortened to 40 characters, or `Missing snippet #ID`.
pub open spec fn label_of(snippets: Seq<Snippet>, id: SnippetId) -> Seq<char> {
    let i = first_snippet(snippets, id);
    if i >= 0 {
        "Snippet #"@ + decimal_digits(id as nat) + ": "@ + preview_text(snippets[i].text_snapshot_plain@, 40)
    } else {
        "Missing snippet #"@ + decimal_digits(id as nat)
    }
}

/// Label of a snippet reference: see [`label_of`].
pub fn snippet_label(snippets: &[Snippet], snippet_id: SnippetId) -> (label: String)
    ensures
        label@ == label_of(snippets@, snippet_id),
{
    match find_snippet(snippets, snippet_id) {
        Some(i) => {
            let mut label = "Snippet #".to_string();
            push_decimal(&mut label, snippet_id);
            label.append(": ");
            let preview = snippet_preview(snippets[i].text_snapshot_plain.as_str(), 40);
            label.append(preview.as_str());
            proof {
                reveal_strlit("Snippet #");
                reveal_strlit(": ");
            }
            label
        },
        None => {
            let mut label = "Missing snippet #".to_string();
            push_decimal(&mut label, snippet_id);
            proof {
                reveal_strlit("Missing snippet #");
            }
            label
        },
    }
}

/// HTML that pulldown-cmark renders for a markdown text with all its
/// extensions on.
pub uninterp spec fn markdown_html(markdown: Seq<char>) -> Seq<char>;

/// `pulldown_cmark::html::push_html` of `Parser::new_ext(markdown,
/// Options::all())` into an empty string. The HTML is named, not stated.
#[verifier::external_body]
fn markdown_to_html(markdown: &str) -> (html: String)
    ensures
        html@ == markdown_html(markdown@),
{
    let mut html_output = String::new();
    pulldown_cmark::html::push_html(
        &mut html_output,
        pulldown_cmark::Parser::new_ext(markdown, pulldown_cmark::Options::all()),
    );
    html_output
}

/// One part of a note as the notes view draws it.
#[derive(Clone, Debug)]
pub enum RenderedNoteSegment {
    Blank,
    Html(String),
    Snippet { snippet_id: SnippetId, label: String, exists: bool },
}

/// True when `r` draws `segment`: blank markdown as nothing, other markdown
/// as its HTML, and a reference as its label, marked when the snippet is
/// missing.
pub open spec fn renders(r: RenderedNoteSegment, segment: NoteSegmentView, snippets: Seq<Snippet>) -> bool {
    match segment {
        NoteSegmentView::Markdown(m) => if trim_seq(m).len() == 0 {
            r is Blank
        } else {
            r matches RenderedNoteSegment::Html(h) && h@ == markdown_html(m)
        },
        NoteSegmentView::SnippetRef(id) => r matches RenderedNoteSegment::Snippet { snippet_id, label, exists }
            && snippet_id == id && label@ == label_of(snippets, id) && exists == (first_snippet(snippets, id) >= 0),
    }
}

/// The parts of a note as the notes view draws them, one per segment of
/// [`split_note_segments`].
pub fn render_note(markdown: &str, snippets: &[Snippet]) -> (rendered: Vec<RenderedNoteSegment>)
    ensures
        rendered@.len() == note_segments_from(markdown@, 0).len(),
        forall|i: int|
            0 <= i < rendered@.len() ==> renders(#[trigger] rendered@[i], note_segments_from(markdown@, 0)[i], snippets@),
{
    let segments = split_note_segments(markdown);
    let mut rendered: Vec<RenderedNoteSegment> = Vec::new();
    let mut i: usize = 0;
    while i < segments.len()
        invariant
            i <= segments@.len(),
            segments_view(segments@) == note_segments_from(markdown@, 0),
            rendered@.len() == i,
            forall|j: int|
                0 <= j < i ==> renders(#[trigger] rendered@[j], segments_view(segments@)[j], snippets@),
        decreases segments.len() - i,
    {
        let r = match &segments[i] {
            NoteSegment::Markdown(m) => {
                if crate::text::is_blank(m.as_str()) {
                    RenderedNoteSegment::Blank
                } else {
                    RenderedNoteSegment::Html(markdown_to_html(m.as_str()))
                }
            },
            NoteSegment::SnippetRef(id) => RenderedNoteSegment::Snippet {
                snippet_id: *id,
                label: snippet_label(snippets, *id),
                exists: snippet_exists(snippets, *id),
            },
        };
        rendered.push(r);
        i = i + 1;
    }
    rendered
}

} // verus!
