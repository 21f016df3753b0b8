use gestalt::resize_poll::{ResizePoll, TERMINAL_MIN_RESIZE_COLS};

#[test]
fn resize_poll_raises_columns_and_skips_unchanged_sizes() {
    let mut poll = ResizePoll::new();
    poll.begin_round(Some(&[1, 2]));
    assert_eq!(poll.resize_target(1, 30, 10), Some((30, TERMINAL_MIN_RESIZE_COLS)));
    poll.record(1, 30, TERMINAL_MIN_RESIZE_COLS);
    assert_eq!(poll.resize_target(1, 30, 10), None);
    assert_eq!(poll.resize_target(1, 30, 100), Some((30, 100)));
    assert_eq!(poll.resize_target(2, 30, 100), Some((30, 100)));
}

#[test]
fn resize_poll_forgets_sessions_outside_the_active_group() {
    let mut poll = ResizePoll::new();
    poll.begin_round(Some(&[1, 2]));
    poll.record(1, 40, 120);
    poll.record(2, 40, 120);
    poll.begin_round(Some(&[2]));
    assert_eq!(poll.resize_target(1, 40, 120), Some((40, 120)));
    assert_eq!(poll.resize_target(2, 40, 120), None);
    poll.begin_round(None);
    assert_eq!(poll.resize_target(2, 40, 120), Some((40, 120)));
}
