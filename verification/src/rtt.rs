//! Round-trip time estimation for health probes.
//!
//! A probe needs a deadline, and a constant one cannot be right for both cases
//! it has to cover. Fixed high, a dead path takes seconds to notice; fixed low
//! it would call a path dead every time congestion pushed the real round trip
//! up, which is exactly when the measurement is least trustworthy.
//!
//! So the deadline follows the path. This is the estimator TCP uses for its
//! retransmission timeout (Jacobson/Karels, RFC 6298): a smoothed round trip
//! plus four times its variation, which widens on its own when a path becomes
//! erratic and tightens again when it settles.
//!
//! The payoff is that the *threshold* -- how many probes must go unanswered
//! before a path is declared down -- stops being a trade against detection
//! speed. Each probe cycle costs a few hundred milliseconds on a healthy path
//! instead of two seconds, so several can be required and still resolve
//! quickly.

use vstd::prelude::*;

verus! {

/// Shortest probe deadline.
///
/// Well above any plausible round trip on a working path, so ordinary jitter
/// never expires a probe.
pub const MIN_TIMEOUT: u64 = 200_000_000;

/// Longest probe deadline. A path slower than this is unusable for a game
/// whether or not the probe is still outstanding.
pub const MAX_TIMEOUT: u64 = 1_500_000_000;

/// Shortest probe deadline on a path that a stream carries.
///
/// A stream stalls for its own retransmission, whose timer starts at one second
/// (RFC 6298), and answering later than that is not the same as not answering.
pub const STREAMED_MIN_TIMEOUT: u64 = 1_000_000_000;

/// Tracks a path's round trip and derives a probe deadline from it.
#[derive(Clone, Copy, Debug, PartialEq, Eq, Structural)]
pub struct RttEstimator {
    pub smoothed: Option<u64>,
    pub variation: u64,
    pub floor: u64,
}

impl Default for RttEstimator {
    fn default() -> (r: Self)
        ensures
            r == RttEstimator::unmeasured(MIN_TIMEOUT),
            r.wf(),
    {
        RttEstimator { smoothed: None, variation: 0, floor: MIN_TIMEOUT }
    }
}

impl RttEstimator {
    /// The shortest deadline is no longer than the longest.
    pub open spec fn wf(self) -> bool {
        self.floor <= MAX_TIMEOUT
    }

    pub open spec fn unmeasured(floor: u64) -> RttEstimator {
        RttEstimator { smoothed: None, variation: 0, floor }
    }

    /// The estimate once one round trip has been folded in. The first one seeds
    /// both terms directly; after that a new sample weighs an eighth in the
    /// round trip and its deviation a quarter in the variation.
    pub open spec fn recorded(self, sample: u64) -> RttEstimator {
        match self.smoothed {
            None => RttEstimator { smoothed: Some(sample), variation: sample / 2, ..self },
            Some(smoothed) => {
                let deviation = if sample >= smoothed {
                    sample - smoothed
                } else {
                    smoothed - sample
                };
                RttEstimator {
                    smoothed: Some(((smoothed * 7 + sample) / 8) as u64),
                    variation: ((self.variation * 3 + deviation) / 4) as u64,
                    ..self
                }
            },
        }
    }

    /// The deadline that the estimate gives.
    pub open spec fn deadline(self) -> int {
        match self.smoothed {
            None => MAX_TIMEOUT as int,
            Some(smoothed) => {
                let wanted = smoothed + self.variation * 4;
                if wanted < self.floor {
                    self.floor as int
                } else if wanted > MAX_TIMEOUT {
                    MAX_TIMEOUT as int
                } else {
                    wanted
                }
            },
        }
    }

    /// An estimator whose deadline never goes below `floor`.
    pub fn with_floor(floor: u64) -> (r: Self)
        requires
            floor <= MAX_TIMEOUT,
        ensures
            r == RttEstimator::unmeasured(floor),
            r.wf(),
    {
        RttEstimator { smoothed: None, variation: 0, floor }
    }

    /// Folds in one measured round trip.
    pub fn record(&mut self, sample: u64)
        ensures
            *final(self) == old(self).recorded(sample),
            old(self).wf() ==> final(self).wf(),
    {
        match self.smoothed {
            // RFC 6298: the first measurement seeds both terms directly.
            None => {
                self.smoothed = Some(sample);
                self.variation = sample / 2;
            },
            Some(smoothed) => {
                let deviation: u64 = if sample >= smoothed {
                    sample - smoothed
                } else {
                    smoothed - sample
                };
                let variation: u128 = (self.variation as u128 * 3 + deviation as u128) / 4;
                let blended: u128 = (smoothed as u128 * 7 + sample as u128) / 8;
                self.variation = variation as u64;
                self.smoothed = Some(blended as u64);
            },
        }
    }

    /// How long the next probe may go unanswered before it counts as lost.
    ///
    /// Before any sample has arrived this is the ceiling, because nothing is
    /// known about the path yet and a new path deserves the benefit of doubt.
    pub fn timeout(&self) -> (r: u64)
        requires
            self.wf(),
        ensures
            r == self.deadline(),
            self.floor <= r <= MAX_TIMEOUT,
    {
        match self.smoothed {
            None => MAX_TIMEOUT,
            Some(smoothed) => {
                let wanted: u128 = smoothed as u128 + self.variation as u128 * 4;
                if wanted < self.floor as u128 {
                    self.floor
                } else if wanted > MAX_TIMEOUT as u128 {
                    MAX_TIMEOUT
                } else {
                    wanted as u64
                }
            },
        }
    }

    /// The smoothed round trip, once there is one.
    pub fn smoothed(&self) -> (r: Option<u64>)
        ensures
            r == self.smoothed,
    {
        self.smoothed
    }
}

/// The estimate once the same round trip has been measured `n` times.
pub open spec fn recorded_often(estimator: RttEstimator, sample: u64, n: nat) -> RttEstimator
    decreases n,
{
    if n == 0 {
        estimator
    } else {
        recorded_often(estimator, sample, (n - 1) as nat).recorded(sample)
    }
}

/// A new sample never takes the smoothed round trip outside the range between
/// it and the sample.
pub proof fn the_smoothed_round_trip_moves_towards_the_sample(
    estimator: RttEstimator,
    sample: u64,
)
    requires
        estimator.smoothed is Some,
    ensures
        estimator.smoothed->0 <= sample ==> estimator.smoothed->0 <= estimator.recorded(
            sample,
        ).smoothed->0 <= sample,
        sample <= estimator.smoothed->0 ==> sample <= estimator.recorded(sample).smoothed->0
            <= estimator.smoothed->0,
{
}

/// A path that keeps answering in the same time is always given at least that
/// time: once its round trip has been measured, a deadline covers it.
pub proof fn a_steady_path_is_never_timed_out(estimator: RttEstimator, sample: u64, n: nat)
    requires
        estimator.smoothed is None,
        n > 0,
        sample <= MAX_TIMEOUT,
    ensures
        recorded_often(estimator, sample, n).smoothed == Some(sample),
        recorded_often(estimator, sample, n).deadline() >= sample,
    decreases n,
{
    if n > 1 {
        a_steady_path_is_never_timed_out(estimator, sample, (n - 1) as nat);
        let before = recorded_often(estimator, sample, (n - 1) as nat);
        assert((sample * 7 + sample) / 8 == sample as int);
    } else {
        assert(recorded_often(estimator, sample, 0) == estimator);
    }
    lemma_often_keeps_floor(estimator, sample, n);
}

proof fn lemma_often_keeps_floor(estimator: RttEstimator, sample: u64, n: nat)
    ensures
        recorded_often(estimator, sample, n).floor == estimator.floor,
    decreases n,
{
    if n > 0 {
        lemma_often_keeps_floor(estimator, sample, (n - 1) as nat);
    }
}

/// The first answer is taken as it is; every later one moves the round trip an
/// eighth of the way and the variation a quarter of the way.
pub proof fn answers_are_weighed(estimator: RttEstimator, sample: u64)
    ensures
        ({
            let next = estimator.recorded(sample);
            &&& next.floor == estimator.floor
            &&& match estimator.smoothed {
                None => next.smoothed == Some(sample) && next.variation == sample / 2,
                Some(before) => {
                    let off = if sample >= before {
                        sample - before
                    } else {
                        before - sample
                    };
                    &&& next.smoothed is Some
                    &&& 7 * before + sample - 8 < 8 * next.smoothed->0 <= 7 * before + sample
                    &&& 3 * estimator.variation + off - 4 < 4 * next.variation <= 3
                        * estimator.variation + off
                },
            }
        }),
{
}

/// The deadline is the round trip and four times its variation, within the
/// floor and a second and a half; it is the latter where nothing was measured.
pub proof fn the_deadline_is_within_its_bounds(estimator: RttEstimator)
    requires
        estimator.wf(),
    ensures
        estimator.floor <= estimator.deadline() <= 1_500_000_000,
        estimator.smoothed is None ==> estimator.deadline() == 1_500_000_000,
        estimator.smoothed matches Some(smoothed) ==> {
            let wanted = smoothed + 4 * estimator.variation;
            &&& estimator.floor <= wanted <= 1_500_000_000 ==> estimator.deadline() == wanted
            &&& wanted < estimator.floor ==> estimator.deadline() == estimator.floor
            &&& wanted > 1_500_000_000 ==> estimator.deadline() == 1_500_000_000
        },
{
}

/// One late answer is enough for the next one just as late to be waited for.
pub proof fn a_late_answer_widens_the_deadline(estimator: RttEstimator, sample: u64)
    requires
        estimator.wf(),
        estimator.smoothed is Some,
        estimator.smoothed->0 <= sample <= 1_500_000_000,
    ensures
        estimator.recorded(sample).deadline() >= sample - 3,
{
}

} // verus!
