use gestalt::app_state::AppState;
use gestalt::panels::{
    build_breadcrumb_items, host_open_request, lane_color, path_relative_to_root, select_group_terminal,
    summarize_round_preview, HostPlatform,
};

#[test]
fn host_open_request_uses_expected_launcher_for_current_platform() {
    let request = host_open_request("/tmp/example.txt", HostPlatform::Linux).expect("request");
    assert_eq!(request.program, "xdg-open");
    let request = host_open_request("/tmp/example.txt", HostPlatform::MacOs).expect("request");
    assert_eq!(request.program, "open");
    let request = host_open_request("/tmp/example.txt", HostPlatform::Windows).expect("request");
    assert_eq!(request.program, "explorer");
}

#[test]
fn host_open_request_passes_path_as_single_argument() {
    let target = "/tmp/example.txt";
    let request = host_open_request(target, HostPlatform::Linux).expect("request");
    assert_eq!(request.args.len(), 1);
    assert_eq!(request.args[0], target);
}

#[test]
fn host_open_request_fails_without_launcher() {
    let error = host_open_request("/tmp/example.txt", HostPlatform::Other).unwrap_err();
    assert_eq!(error, "Host default-open is not implemented on this platform.");
}

#[test]
fn breadcrumbs_walk_from_root_to_current_dir() {
    let items = build_breadcrumb_items("/home/me/repo", "/home/me/repo/src/ui");
    let labels = items.iter().map(|item| item.label.as_str()).collect::<Vec<_>>();
    let paths = items.iter().map(|item| item.path.as_str()).collect::<Vec<_>>();
    assert_eq!(labels, vec!["repo", "src", "ui"]);
    assert_eq!(paths, vec!["/home/me/repo", "/home/me/repo/src", "/home/me/repo/src/ui"]);

    let outside = build_breadcrumb_items("/home/me/repo", "/etc");
    assert_eq!(outside.len(), 1);
}

#[test]
fn relative_paths_fall_back_to_the_full_path() {
    assert_eq!(path_relative_to_root("/home/me/repo/src/main.rs", "/home/me/repo"), "src/main.rs");
    assert_eq!(path_relative_to_root("/etc/hosts", "/home/me/repo"), "/etc/hosts");
}

#[test]
fn group_terminal_prefers_selected_session() {
    let mut state = AppState::default();
    let (group_id, ids) = state.create_group_with_defaults("/tmp/other".to_string());
    assert_eq!(select_group_terminal(&state, group_id), Some(ids[0]));
    state.select_session(ids[1]);
    assert_eq!(select_group_terminal(&state, group_id), Some(ids[1]));
    assert_eq!(select_group_terminal(&state, 99), None);
}

#[test]
fn lane_colors_cycle() {
    assert_eq!(lane_color(0), "#71c6ff");
    assert_eq!(lane_color(7), "#c8ff7a");
    assert_eq!(lane_color(8), "#71c6ff");
}

#[test]
fn round_preview_keeps_two_nonblank_lines() {
    assert_eq!(summarize_round_preview(""), "(no output yet)");
    assert_eq!(summarize_round_preview("  \n\t\n"), "(no output yet)");
    assert_eq!(summarize_round_preview("first  \n\nsecond\nthird"), "first | second");
    let long = "x".repeat(200);
    let preview = summarize_round_preview(&long);
    assert_eq!(preview.chars().count(), 183);
    assert!(preview.ends_with("..."));
}
