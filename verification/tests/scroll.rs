use gestalt::scroll::{plan_moves, plan_scroll_to, scroll_target_after_delta, ScrollPlan};

#[test]
fn scroll_targets_stay_within_history_and_hidden_rows() {
    assert_eq!(scroll_target_after_delta(3, 2, 10, 1, 0), 4);
    assert_eq!(scroll_target_after_delta(50, 2, 10, 1, 0), 12);
    assert_eq!(scroll_target_after_delta(-5, 2, 10, 1, 1), 0);
    assert_eq!(scroll_target_after_delta(-1, 2, 10, 3, 1), 3);
}

#[test]
fn scroll_plans_fill_local_rows_first() {
    assert_eq!(plan_scroll_to(1, 2, 10, 0), ScrollPlan { desired_local: 1, backend_delta: 0 });
    assert_eq!(plan_scroll_to(7, 2, 10, 3), ScrollPlan { desired_local: 2, backend_delta: 2 });
    assert_eq!(plan_scroll_to(100, 2, 10, 4), ScrollPlan { desired_local: 2, backend_delta: 6 });
    assert!(!plan_moves(ScrollPlan { desired_local: 2, backend_delta: 0 }, 2));
    assert!(plan_moves(ScrollPlan { desired_local: 1, backend_delta: 0 }, 2));
    assert!(plan_moves(ScrollPlan { desired_local: 2, backend_delta: -1 }, 2));
}
