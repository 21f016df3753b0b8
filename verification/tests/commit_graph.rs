use gestalt::commit_graph::{build_commit_graph_layout, GraphCommit};

fn commit(sha: &str, parents: &[&str], is_unpushed: bool) -> GraphCommit {
    GraphCommit {
        sha: sha.to_string(),
        parents: parents.iter().map(|value| (*value).to_string()).collect(),
        is_unpushed,
    }
}

#[test]
fn linear_history_uses_one_lane() {
    let commits = vec![commit("a", &["b"], false), commit("b", &["c"], false), commit("c", &[], false)];

    let layout = build_commit_graph_layout(&commits);
    assert_eq!(layout.lane_count, 1);
    assert_eq!(layout.nodes.len(), 3);
    assert!(layout.segments.iter().all(|segment| !segment.is_merge));
}

#[test]
fn merge_history_creates_multiple_lanes_and_diagonals() {
    let commits = vec![
        commit("m", &["a", "b"], false),
        commit("a", &["c"], false),
        commit("b", &["c"], false),
        commit("c", &[], false),
    ];

    let layout = build_commit_graph_layout(&commits);
    assert!(layout.lane_count >= 2);
    assert!(layout.segments.iter().any(|segment| segment.is_merge));
    assert!(layout.segments.iter().any(|segment| segment.from_lane != segment.to_lane));
}

#[test]
fn merge_layout_places_each_commit() {
    let commits = vec![
        commit("m", &["a", "b"], true),
        commit("a", &["c"], false),
        commit("b", &["c"], false),
        commit("c", &[], false),
    ];

    let layout = build_commit_graph_layout(&commits);
    let lanes: Vec<usize> = layout.nodes.iter().map(|node| node.lane).collect();
    let rows: Vec<usize> = layout.nodes.iter().map(|node| node.row).collect();
    assert_eq!(lanes, vec![0, 0, 1, 0]);
    assert_eq!(rows, vec![1, 2, 3, 4]);
    assert_eq!(layout.lane_count, 2);
    assert!(layout.nodes[0].is_unpushed);
    assert!(!layout.nodes[1].is_unpushed);
}

#[test]
fn merge_lines_stay_inside_the_lane_count() {
    let commits = vec![
        commit("m", &["a", "b"], false),
        commit("a", &["c"], false),
        commit("b", &["c", "d"], true),
        commit("c", &["e"], false),
        commit("d", &["e"], false),
        commit("e", &[], false),
    ];
    let layout = build_commit_graph_layout(&commits);
    assert!(!layout.segments.is_empty());
    for segment in &layout.segments {
        assert!(segment.from_lane < layout.lane_count);
        assert!(segment.to_lane < layout.lane_count);
    }
    for node in &layout.nodes {
        assert!(node.lane < layout.lane_count);
    }
}
