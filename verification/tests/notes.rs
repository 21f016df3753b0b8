use gestalt::notes::{
    render_note, snippet_exists, snippet_label, snippet_preview, split_note_segments, NoteSegment,
    RenderedNoteSegment,
};
use gestalt::state::{Snippet, SnippetEmbeddingStatus, SnippetLogRef};

fn snippet(id: u64, text: &str) -> Snippet {
    Snippet {
        id,
        created_at_unix_ms: 0,
        source_cwd: "/tmp".to_string(),
        text_snapshot_plain: text.to_string(),
        log_ref: SnippetLogRef {
            session_id: 1,
            stream_id: "s".to_string(),
            start_offset: 0,
            end_offset: 1,
            start_row: 0,
            end_row: 0,
        },
        embedding_status: SnippetEmbeddingStatus::Pending,
        embedding_object_id: None,
        embedding_profile_id: None,
        embedding_dimensions: None,
        embedding_error: None,
    }
}

fn describe(segments: &[NoteSegment]) -> Vec<String> {
    segments
        .iter()
        .map(|s| match s {
            NoteSegment::Markdown(m) => format!("md:{m}"),
            NoteSegment::SnippetRef(id) => format!("ref:{id}"),
        })
        .collect()
}

#[test]
fn note_segments_split_around_references() {
    let segments = split_note_segments("intro [[snippet: 7 ]] mid [[snippet:x]] end");
    assert_eq!(describe(&segments), vec!["md:intro ", "ref:7", "md: mid ", "md:[[snippet:x]]", "md: end"]);
    let open = split_note_segments("a[[snippet:3");
    assert_eq!(describe(&open), vec!["md:a", "md:[[snippet:3"]);
    assert!(split_note_segments("").is_empty());
}

#[test]
fn previews_flatten_and_cut_text() {
    assert_eq!(snippet_preview("  one\ntwo  ", 40), "one two");
    assert_eq!(snippet_preview("abcdef", 3), "abc...");
    assert_eq!(snippet_preview("abc", 3), "abc");
}

#[test]
fn labels_name_found_and_missing_snippets() {
    let snippets = vec![snippet(4, "hello\nworld")];
    assert_eq!(snippet_label(&snippets, 4), "Snippet #4: hello world");
    assert_eq!(snippet_label(&snippets, 5), "Missing snippet #5");
    assert!(snippet_exists(&snippets, 4));
    assert!(!snippet_exists(&snippets, 5));
}

#[test]
fn rendered_note_draws_markdown_and_references() {
    let snippets = vec![snippet(1, "log line")];
    let rendered = render_note("# Title\n[[snippet:1]]  [[snippet:2]]", &snippets);
    assert_eq!(rendered.len(), 4);
    match &rendered[0] {
        RenderedNoteSegment::Html(html) => assert!(html.contains("<h1>Title</h1>")),
        _ => panic!("expected html"),
    }
    match &rendered[1] {
        RenderedNoteSegment::Snippet { snippet_id, label, exists } => {
            assert_eq!(*snippet_id, 1);
            assert_eq!(label, "Snippet #1: log line");
            assert!(*exists);
        }
        _ => panic!("expected snippet"),
    }
    assert!(matches!(rendered[2], RenderedNoteSegment::Blank));
    match &rendered[3] {
        RenderedNoteSegment::Snippet { exists, .. } => assert!(!*exists),
        _ => panic!("expected snippet"),
    }
}
