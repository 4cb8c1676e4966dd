use gamepath_engine::replay::{ReplayWindow, MAX_REORDERING, WINDOW};

#[test]
fn a_sequence_is_accepted_once_and_never_again() {
    let mut window = ReplayWindow::default();
    assert!(window.accept(1));
    assert!(!window.accept(1));
    assert!(window.accept(2));
    assert!(!window.accept(2));
}

#[test]
fn reordering_inside_the_window_is_accepted() {
    let mut window = ReplayWindow::default();
    assert!(window.accept(100));
    for sequence in (1..100).rev() {
        assert!(
            window.accept(sequence),
            "{sequence} was rejected out of order"
        );
    }
    for sequence in 1..=100 {
        assert!(!window.accept(sequence), "{sequence} was accepted twice");
    }
}

/// A data frame is numbered when it is queued; a probe is numbered later but
/// sent immediately, so the probe lands first and the queued frames arrive
/// behind it. Everything still in the queue has to be accepted.
#[test]
fn queued_data_overtaken_by_a_probe_is_still_accepted() {
    let mut window = ReplayWindow::default();
    // A full outbound queue, matching PATH_QUEUE_DEPTH.
    let queued: Vec<u64> = (1..=1024).collect();
    let probe = 1025;
    assert!(window.accept(probe));
    for sequence in queued {
        assert!(
            window.accept(sequence),
            "queued frame {sequence} was rejected as a replay behind the probe"
        );
    }
}

/// Two paths with different latencies share one sequence space, so frames
/// sent earlier on the slow path land after later frames on the fast one.
#[test]
fn a_slow_path_lagging_a_fast_one_is_still_accepted() {
    let mut window = ReplayWindow::default();
    let mut fast = Vec::new();
    let mut slow = Vec::new();
    for sequence in 1..=4000_u64 {
        if sequence % 8 == 0 {
            slow.push(sequence);
        } else {
            fast.push(sequence);
        }
    }
    for sequence in fast {
        assert!(window.accept(sequence));
    }
    for sequence in slow {
        assert!(
            window.accept(sequence),
            "slow-path frame {sequence} was rejected"
        );
    }
}

#[test]
fn anything_older_than_the_window_is_rejected() {
    let mut window = ReplayWindow::default();
    assert!(window.accept(WINDOW * 2));
    assert!(!window.accept(WINDOW));
    assert!(!window.accept(1));
    // The oldest sequence still inside the window is accepted.
    assert!(window.accept(WINDOW + 1));
}

#[test]
fn a_large_jump_forward_forgets_everything_behind_it() {
    let mut window = ReplayWindow::default();
    assert!(window.accept(5));
    assert!(window.accept(5 + WINDOW * 3));
    assert!(!window.accept(5));
    assert_eq!(window.highest(), 5 + WINDOW * 3);
}

#[test]
fn a_gap_left_by_a_lost_frame_can_still_be_filled_later() {
    let mut window = ReplayWindow::default();
    assert!(window.accept(1));
    assert!(window.accept(500));
    assert!(window.accept(250));
    assert!(!window.accept(250));
}

#[test]
fn wrapping_the_circular_bitmap_does_not_confuse_two_sequences() {
    let mut window = ReplayWindow::default();
    assert!(window.accept(1));
    // Exactly one window later maps to the same bit as sequence 1.
    assert!(window.accept(1 + WINDOW));
    assert!(!window.accept(1 + WINDOW));
    // The original is outside the window now, not reported as unseen.
    assert!(!window.accept(1));
}

#[test]
fn asking_does_not_take_the_sequence() {
    let mut window = ReplayWindow::default();
    assert!(window.would_accept(9));
    assert!(window.would_accept(9));
    assert!(window.accept(9));
    assert!(!window.would_accept(9));
    assert!(window.would_accept(8));
}

#[test]
fn a_fresh_window_has_seen_nothing() {
    let mut window = ReplayWindow::default();
    assert_eq!(window.highest(), 0);
    assert!(window.accept(0));
    assert!(!window.accept(0));
}

#[test]
fn the_window_is_wider_than_any_reordering() {
    let mut window = ReplayWindow::default();
    assert!(window.accept(MAX_REORDERING + 7));
    assert!(window.accept(7));
}
