use gestalt::commands::InsertCommand;
use gestalt::prompt_text::{
    join_strings, looks_like_path, matches_filter, prompt_preview, prompt_segments_with_paths,
    should_auto_select_first, split_wrapping_punctuation,
};

fn chars(text: &str) -> Vec<char> {
    text.chars().collect()
}

#[test]
fn auto_selects_when_no_selection_and_not_in_draft_mode() {
    assert!(should_auto_select_first(None, false, true));
}

#[test]
fn does_not_auto_select_while_new_draft_is_active() {
    assert!(!should_auto_select_first(None, true, true));
}

#[test]
fn does_not_auto_select_when_a_command_is_already_selected() {
    assert!(!should_auto_select_first(Some(42), false, true));
}

#[test]
fn highlights_unquoted_unix_paths() {
    let segments = prompt_segments_with_paths("cat src/ui/commands_panel.rs");
    assert!(segments.iter().any(|segment| segment.is_path && segment.text == "src/ui/commands_panel.rs"));
}

#[test]
fn highlights_quoted_paths_with_spaces() {
    let segments = prompt_segments_with_paths("open \"Linux Software/Gestalt/src/main.rs\"");
    assert!(segments
        .iter()
        .any(|segment| segment.is_path && segment.text == "\"Linux Software/Gestalt/src/main.rs\""));
}

#[test]
fn keeps_non_paths_plain() {
    let segments = prompt_segments_with_paths("cargo run --release");
    assert!(!segments.iter().any(|segment| segment.is_path));
}

#[test]
fn wrapped_path_keeps_punctuation_plain() {
    let segments = prompt_segments_with_paths("see (notes.md), then");
    let parts: Vec<(String, bool)> = segments.iter().map(|s| (s.text.clone(), s.is_path)).collect();
    assert_eq!(
        parts,
        vec![
            ("see (".to_string(), false),
            ("notes.md".to_string(), true),
            ("), then".to_string(), false),
        ]
    );
}

#[test]
fn wrapping_punctuation_bounds() {
    assert_eq!(split_wrapping_punctuation(&chars("([a.rs]);")), (2, 6));
    assert_eq!(split_wrapping_punctuation(&chars("plain")), (0, 5));
}

#[test]
fn path_detection_rules() {
    assert!(looks_like_path(&chars("README.md"), false));
    assert!(!looks_like_path(&chars("--release"), false));
    assert!(!looks_like_path(&chars("https://example.com/a"), false));
    assert!(!looks_like_path(&chars(".."), false));
    assert!(!looks_like_path(&chars("my file.txt"), false));
    assert!(looks_like_path(&chars("my file.txt"), true));
    assert!(!looks_like_path(&chars("archive.verylongextension"), false));
}

#[test]
fn preview_cuts_long_prompts() {
    assert_eq!(prompt_preview("  line one\nline two  "), "line one line two");
    let long = "x".repeat(80);
    let preview = prompt_preview(&long);
    assert_eq!(preview, format!("{}...", "x".repeat(78)));
    assert_eq!(prompt_preview(&"y".repeat(78)), "y".repeat(78));
}

#[test]
fn filter_matches_any_field() {
    let command = InsertCommand {
        id: 1,
        name: "Build".to_string(),
        prompt: "cargo build".to_string(),
        description: "Compile".to_string(),
        tags: vec!["rust".to_string(), "ci".to_string()],
    };
    assert!(matches_filter(&command, "build"));
    assert!(matches_filter(&command, "rust ci"));
    assert!(matches_filter(&command, "compile"));
    assert!(!matches_filter(&command, "deploy"));
    assert_eq!(join_strings(&command.tags, ", "), "rust, ci");
}

#[test]
fn prompt_segments_rejoin_to_the_prompt_and_alternate() {
    let prompt = "open \"./a b.txt\" and (src/main.rs), then  done";
    let segments = prompt_segments_with_paths(prompt);
    let joined: String = segments.iter().map(|s| s.text.as_str()).collect();
    assert_eq!(joined, prompt);
    assert!(segments.iter().all(|s| !s.text.is_empty()));
    assert!(segments.windows(2).all(|w| w[0].is_path != w[1].is_path));
    assert!(segments.iter().any(|s| s.is_path));
}
