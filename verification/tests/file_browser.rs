use gestalt::file_browser::{can_navigate_up, file_browser_entry_ordering, path_has_marker, FileBrowserEntry};

#[test]
fn marker_lookup_handles_ancestors_and_descendants() {
    let marked = vec!["target".to_string(), "src/lib.rs".to_string()];

    assert!(path_has_marker(&marked, "target", true));
    assert!(path_has_marker(&marked, "target/debug", true));
    assert!(path_has_marker(&marked, "target/debug/log.txt", false));
    assert!(path_has_marker(&marked, "src", true));
    assert!(path_has_marker(&marked, "src/lib.rs", false));
    assert!(!path_has_marker(&marked, "README.md", false));
}

#[test]
fn entry_sorting_groups_directories_first() {
    let mut entries = [
        FileBrowserEntry {
            name: "zeta.txt".to_string(),
            path: "zeta.txt".to_string(),
            is_dir: false,
            file_size_bytes: Some(1),
            modified: false,
            ignored: false,
        },
        FileBrowserEntry {
            name: "src".to_string(),
            path: "src".to_string(),
            is_dir: true,
            file_size_bytes: None,
            modified: false,
            ignored: false,
        },
        FileBrowserEntry {
            name: "alpha.txt".to_string(),
            path: "alpha.txt".to_string(),
            is_dir: false,
            file_size_bytes: Some(1),
            modified: false,
            ignored: false,
        },
    ];

    entries.sort_by(file_browser_entry_ordering);

    assert_eq!(entries[0].name, "src");
    assert_eq!(entries[1].name, "alpha.txt");
    assert_eq!(entries[2].name, "zeta.txt");
}

#[test]
fn navigate_up_only_within_root() {
    let root = "/tmp/gestalt-root";
    assert!(!can_navigate_up(root, root));
    assert!(can_navigate_up(root, "/tmp/gestalt-root/src"));
}
