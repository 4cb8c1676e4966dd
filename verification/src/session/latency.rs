//! Edge-triggered latency diagnostics.
//!
//! A route that slows down mid-match is worth one log line, not one per probe,
//! so a rise has to be confirmed before it is reported and the baseline only
//! moves while the route is not already in an incident.
//!
//! The baseline and the peak are smoothed numbers that the caller keeps. What
//! comes in here is how a sample compares with them, and what goes out is what
//! becomes of them.

use vstd::prelude::*;

use crate::time;

verus! {

pub const LATENCY_BASELINE_SAMPLES: u64 = 4;

pub const LATENCY_RISE_SAMPLES: u8 = 2;

pub const LATENCY_RECOVERY_SAMPLES: u8 = 3;

/// How a sample compares with the baseline.
///
/// A 10-15 ms step is visible in a competitive game but ordinary sub-frame
/// jitter is not. Two consecutive samples confirm a modest rise; a severe spike
/// is reported immediately. Recovery also needs several samples so the log
/// contains one incident and one recovery instead of a line per probe.
#[derive(Debug, Clone, Copy, PartialEq, Eq, Structural)]
pub struct Reading {
    /// Within half the smallest rise of the baseline.
    pub settled: bool,
    /// Above the baseline by the smallest rise that counts, or more.
    pub risen: bool,
    /// Above it by so much that one sample is enough.
    pub severe: bool,
}

/// What a sample gives occasion to say.
#[derive(Debug, Clone, Copy, PartialEq, Eq, Structural)]
pub enum LatencyEvent {
    Degraded,
    Recovered { duration: u64 },
}

/// What becomes of the baseline.
#[derive(Debug, Clone, Copy, PartialEq, Eq, Structural)]
pub enum Baseline {
    /// It is the sample.
    Sample,
    /// It stays.
    Keep,
    /// It follows the sample slowly: that follows normal route drift but
    /// preserves enough history to spot a persistent step.
    Drift,
}

/// What becomes of the peak.
#[derive(Debug, Clone, Copy, PartialEq, Eq, Structural)]
pub enum Peak {
    /// It is forgotten.
    Clear,
    /// It stays.
    Keep,
    /// It is the sample where that is higher.
    Raise,
    /// It is the sample where that is higher, then reported and forgotten.
    Report,
}

/// What one sample comes to.
#[derive(Debug, Clone, Copy, PartialEq, Eq, Structural)]
pub struct Observation {
    pub event: Option<LatencyEvent>,
    pub baseline: Baseline,
    pub peak: Peak,
}

/// Per-worker state for edge-triggered latency diagnostics. The baseline only
/// moves while the route is not in an incident; otherwise a sustained rise
/// would teach the detector that the degraded value is normal before recovery.
#[derive(Debug, Clone, Copy, PartialEq, Eq, Structural)]
pub struct LatencyWatch {
    /// Samples that made the baseline. None yet where this is zero.
    pub samples: u64,
    pub elevated_samples: u8,
    pub recovery_samples: u8,
    pub incident_started: Option<u64>,
}

impl Default for LatencyWatch {
    fn default() -> (r: Self)
        ensures
            r == LatencyWatch::fresh(),
    {
        LatencyWatch {
            samples: 0,
            elevated_samples: 0,
            recovery_samples: 0,
            incident_started: None,
        }
    }
}

impl LatencyWatch {
    pub open spec fn fresh() -> LatencyWatch {
        LatencyWatch {
            samples: 0,
            elevated_samples: 0,
            recovery_samples: 0,
            incident_started: None,
        }
    }

    /// Where an incident is on, or a baseline has been made, the counts are
    /// below their limits.
    pub open spec fn wf(self) -> bool {
        self.recovery_samples < LATENCY_RECOVERY_SAMPLES && self.elevated_samples
            <= LATENCY_RISE_SAMPLES && (self.incident_started is None ==> self.elevated_samples
            < LATENCY_RISE_SAMPLES)
    }

    /// What one sample comes to, and the state it leaves.
    pub open spec fn observed(self, reading: Reading, now: u64) -> (LatencyWatch, Observation) {
        if self.samples == 0 {
            (
                LatencyWatch { samples: 1, ..self },
                Observation { event: None, baseline: Baseline::Sample, peak: Peak::Keep },
            )
        } else {
            match self.incident_started {
                Some(started) => {
                    let calm = if reading.settled {
                        (self.recovery_samples + 1) as u8
                    } else {
                        0u8
                    };
                    if calm >= LATENCY_RECOVERY_SAMPLES {
                        (
                            LatencyWatch { samples: 1, ..LatencyWatch::fresh() },
                            Observation {
                                event: Some(
                                    LatencyEvent::Recovered {
                                        duration: time::elapsed(now, started) as u64,
                                    },
                                ),
                                baseline: Baseline::Sample,
                                peak: Peak::Report,
                            },
                        )
                    } else {
                        (
                            LatencyWatch { recovery_samples: calm, ..self },
                            Observation { event: None, baseline: Baseline::Keep, peak: Peak::Raise },
                        )
                    }
                },
                None => {
                    if self.samples >= LATENCY_BASELINE_SAMPLES && reading.risen {
                        let high = (self.elevated_samples + 1) as u8;
                        if reading.severe || high >= LATENCY_RISE_SAMPLES {
                            (
                                LatencyWatch {
                                    elevated_samples: high,
                                    incident_started: Some(now),
                                    ..self
                                },
                                Observation {
                                    event: Some(LatencyEvent::Degraded),
                                    baseline: Baseline::Keep,
                                    peak: Peak::Raise,
                                },
                            )
                        } else {
                            (
                                LatencyWatch { elevated_samples: high, ..self },
                                Observation {
                                    event: None,
                                    baseline: Baseline::Keep,
                                    peak: Peak::Raise,
                                },
                            )
                        }
                    } else {
                        (
                            LatencyWatch {
                                elevated_samples: 0,
                                samples: if self.samples < u64::MAX {
                                    (self.samples + 1) as u64
                                } else {
                                    self.samples
                                },
                                ..self
                            },
                            Observation {
                                event: None,
                                baseline: Baseline::Drift,
                                peak: Peak::Clear,
                            },
                        )
                    }
                },
            }
        }
    }

    pub fn reset(&mut self)
        ensures
            *final(self) == LatencyWatch::fresh(),
            final(self).wf(),
    {
        self.samples = 0;
        self.elevated_samples = 0;
        self.recovery_samples = 0;
        self.incident_started = None;
    }

    pub fn observe(&mut self, reading: Reading, now: u64) -> (r: Observation)
        requires
            old(self).wf(),
        ensures
            final(self).wf(),
            (*final(self), r) == old(self).observed(reading, now),
    {
        if self.samples == 0 {
            self.samples = 1;
            return Observation { event: None, baseline: Baseline::Sample, peak: Peak::Keep };
        }
        if let Some(started) = self.incident_started {
            if reading.settled {
                self.recovery_samples = self.recovery_samples + 1;
            } else {
                self.recovery_samples = 0;
            }
            if self.recovery_samples >= LATENCY_RECOVERY_SAMPLES {
                let duration: u64 = time::since(now, started);
                self.samples = 1;
                self.elevated_samples = 0;
                self.recovery_samples = 0;
                self.incident_started = None;
                return Observation {
                    event: Some(LatencyEvent::Recovered { duration }),
                    baseline: Baseline::Sample,
                    peak: Peak::Report,
                };
            }
            return Observation { event: None, baseline: Baseline::Keep, peak: Peak::Raise };
        }
        if self.samples >= LATENCY_BASELINE_SAMPLES && reading.risen {
            self.elevated_samples = self.elevated_samples + 1;
            if reading.severe || self.elevated_samples >= LATENCY_RISE_SAMPLES {
                self.incident_started = Some(now);
                return Observation {
                    event: Some(LatencyEvent::Degraded),
                    baseline: Baseline::Keep,
                    peak: Peak::Raise,
                };
            }
            return Observation { event: None, baseline: Baseline::Keep, peak: Peak::Raise };
        }
        self.elevated_samples = 0;
        self.samples = self.samples.saturating_add(1);
        Observation { event: None, baseline: Baseline::Drift, peak: Peak::Clear }
    }
}

/// An incident is reported once: while it is on, nothing is reported but its
/// end, and its end is reported only while it is on.
pub proof fn an_incident_is_reported_once(watch: LatencyWatch, reading: Reading, now: u64)
    requires
        watch.wf(),
    ensures
        ({
            let (next, seen) = watch.observed(reading, now);
            &&& seen.event == Some(LatencyEvent::Degraded) ==> watch.incident_started is None
                && next.incident_started == Some(now)
            &&& seen.event matches Some(LatencyEvent::Recovered { .. }) ==> watch.samples > 0
                && watch.incident_started is Some && next.incident_started is None
            &&& watch.incident_started is Some && watch.samples > 0 && seen.event is None
                ==> next.incident_started == watch.incident_started
        }),
{
}

/// The baseline does not move during an incident, so a sustained rise never
/// becomes the normal that it is compared with.
pub proof fn an_incident_does_not_move_the_baseline(
    watch: LatencyWatch,
    reading: Reading,
    now: u64,
)
    requires
        watch.wf(),
        watch.samples > 0,
        watch.incident_started is Some,
        watch.observed(reading, now).1.event is None,
    ensures
        watch.observed(reading, now).1.baseline == Baseline::Keep,
{
}

/// One modest sample above a settled baseline is not an incident, a second in a
/// row is, and one severe sample is at once.
pub proof fn a_rise_has_to_be_confirmed(watch: LatencyWatch, now: u64, then: u64)
    requires
        watch.wf(),
        watch.samples >= LATENCY_BASELINE_SAMPLES,
        watch.elevated_samples == 0,
        watch.incident_started is None,
    ensures
        ({
            let modest = Reading { settled: false, risen: true, severe: false };
            let (next, seen) = watch.observed(modest, now);
            &&& seen.event is None
            &&& next.observed(modest, then).1.event == Some(LatencyEvent::Degraded)
            &&& watch.observed(
                Reading { settled: false, risen: true, severe: true },
                now,
            ).1.event == Some(LatencyEvent::Degraded)
        }),
{
}

/// An incident ends at the third sample in a row near the baseline, with the
/// time since it began, and not before; a sample that is not near it begins the
/// count anew.
pub proof fn three_calm_samples_end_an_incident(
    watch: LatencyWatch,
    started: u64,
    first: u64,
    second: u64,
    third: u64,
    rough: Reading,
)
    requires
        watch.wf(),
        watch.samples > 0,
        watch.incident_started == Some(started),
        watch.recovery_samples == 0,
        started <= first <= second <= third,
        !rough.settled,
    ensures
        ({
            let calm = Reading { settled: true, risen: false, severe: false };
            let (one, a) = watch.observed(calm, first);
            let (two, b) = one.observed(calm, second);
            let (three, c) = two.observed(calm, third);
            let (broken, d) = two.observed(rough, third);
            &&& a.event is None && b.event is None
            &&& c.event == Some(
                LatencyEvent::Recovered { duration: (third - started) as u64 },
            )
            &&& three.incident_started is None && three.elevated_samples == 0
            &&& c.baseline == Baseline::Sample && c.peak == Peak::Report
            &&& d.event is None && broken.recovery_samples == 0 && broken.incident_started == Some(
                started,
            )
        }),
{
}

/// Nothing is reported before four samples have made a baseline, however high
/// they are.
pub proof fn a_baseline_comes_first(watch: LatencyWatch, reading: Reading, now: u64)
    requires
        watch.wf(),
        watch.samples < 4,
        watch.incident_started is None,
    ensures
        ({
            let (next, seen) = watch.observed(reading, now);
            &&& seen.event is None
            &&& next.samples == watch.samples + 1
            &&& next.incident_started is None
            &&& watch.samples == 0 ==> seen.baseline == Baseline::Sample
            &&& watch.samples > 0 ==> seen.baseline == Baseline::Drift
        }),
{
}

/// Two rises that do not follow one another are not an incident: an ordinary
/// sample between them begins the count anew and moves the baseline a little.
pub proof fn separate_rises_are_not_an_incident(
    watch: LatencyWatch,
    ordinary: Reading,
    first: u64,
    second: u64,
    third: u64,
)
    requires
        watch.wf(),
        watch.samples >= 4,
        watch.elevated_samples == 0,
        watch.incident_started is None,
        !ordinary.risen,
    ensures
        ({
            let modest = Reading { settled: false, risen: true, severe: false };
            let (one, a) = watch.observed(modest, first);
            let (two, b) = one.observed(ordinary, second);
            let (three, c) = two.observed(modest, third);
            &&& a.event is None && b.event is None && c.event is None
            &&& a.baseline == Baseline::Keep && b.baseline == Baseline::Drift
            &&& b.peak == Peak::Clear
            &&& three.incident_started is None
        }),
{
}

} // verus!
