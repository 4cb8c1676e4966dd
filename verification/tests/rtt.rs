use gamepath_engine::rtt::{RttEstimator, MAX_TIMEOUT, MIN_TIMEOUT, STREAMED_MIN_TIMEOUT};
use gamepath_engine::time::MILLISECOND;

fn settled(rtt_ms: u64, jitter_ms: u64) -> RttEstimator {
    let mut estimator = RttEstimator::default();
    for index in 0..40 {
        let wobble = if index % 2 == 0 { jitter_ms } else { 0 };
        estimator.record((rtt_ms + wobble) * MILLISECOND);
    }
    estimator
}

#[test]
fn an_unmeasured_path_gets_the_benefit_of_the_doubt() {
    assert_eq!(RttEstimator::default().timeout(), MAX_TIMEOUT);
}

/// The case that mattered: a healthy 60 ms route was being given 1500 ms.
#[test]
fn a_fast_steady_path_gets_a_deadline_far_under_the_old_constant() {
    let estimator = settled(61, 3);
    let timeout = estimator.timeout();
    assert_eq!(timeout, MIN_TIMEOUT, "got {timeout:?}");
    assert!(timeout < MAX_TIMEOUT / 5);
}

/// And the case that stopped it being lowered by hand: real congestion.
#[test]
fn a_path_whose_round_trip_really_rises_gets_a_wider_deadline() {
    let mut estimator = settled(61, 3);
    let quiet = estimator.timeout();
    // The 1.2 s round trips seen during a live congestion event.
    for _ in 0..10 {
        estimator.record(1200 * MILLISECOND);
    }
    let congested = estimator.timeout();
    assert!(
        congested > quiet,
        "the deadline has to follow the path: {quiet:?} -> {congested:?}"
    );
    assert_eq!(congested, MAX_TIMEOUT);
}

#[test]
fn an_erratic_path_is_given_more_room_than_a_steady_one_at_the_same_speed() {
    let steady = settled(300, 0);
    let erratic = settled(300, 200);
    assert!(
        erratic.timeout() > steady.timeout(),
        "steady {:?} vs erratic {:?}",
        steady.timeout(),
        erratic.timeout()
    );
}

#[test]
fn the_deadline_never_leaves_its_bounds() {
    for rtt in [0_u64, 1, 50, 500, 5_000, 60_000] {
        for jitter in [0_u64, 10, 1_000] {
            let timeout = settled(rtt, jitter).timeout();
            assert!(
                (MIN_TIMEOUT..=MAX_TIMEOUT).contains(&timeout),
                "rtt {rtt} jitter {jitter} produced {timeout:?}"
            );
        }
    }
}

#[test]
fn a_single_outlier_does_not_move_the_deadline_much() {
    let mut estimator = settled(60, 2);
    let before = estimator.timeout();
    estimator.record(900 * MILLISECOND);
    let after = estimator.timeout();
    // It reacts, but one bad sample cannot swing the deadline to the cap.
    assert!(after >= before);
    assert!(after < MAX_TIMEOUT, "one outlier pinned it at the ceiling");
}

#[test]
fn the_estimate_converges_on_a_changed_path() {
    let mut estimator = settled(60, 0);
    for _ in 0..60 {
        estimator.record(200 * MILLISECOND);
    }
    let smoothed = estimator.smoothed().unwrap();
    assert!(
        smoothed >= 190 * MILLISECOND && smoothed <= 210 * MILLISECOND,
        "converged to {smoothed:?}"
    );
}

#[test]
fn the_first_two_samples_move_the_estimate_as_the_formula_says() {
    let mut estimator = RttEstimator::default();
    estimator.record(400 * MILLISECOND);
    assert_eq!(estimator.smoothed(), Some(400 * MILLISECOND));
    assert_eq!(estimator.variation, 200 * MILLISECOND);
    // 400 + 4 * 200
    assert_eq!(estimator.timeout(), 1200 * MILLISECOND);
    estimator.record(480 * MILLISECOND);
    // (3 * 200 + 80) / 4, and (7 * 400 + 480) / 8
    assert_eq!(estimator.variation, 170 * MILLISECOND);
    assert_eq!(estimator.smoothed(), Some(410 * MILLISECOND));
    assert_eq!(estimator.timeout(), 1090 * MILLISECOND);
}

#[test]
fn a_streamed_path_keeps_its_own_floor() {
    let mut estimator = RttEstimator::with_floor(STREAMED_MIN_TIMEOUT);
    for _ in 0..40 {
        estimator.record(20 * MILLISECOND);
    }
    assert_eq!(estimator.timeout(), STREAMED_MIN_TIMEOUT);
}
