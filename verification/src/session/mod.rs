//! The multipath session: every enabled node, a worker per path, and the answers
//! the rest of the engine needs about it while it runs.
//!
//! The pieces are split by what they are responsible for: [`start`] brings a
//! session up, [`dataplane`] carries packets through one, [`status`] reports on
//! it, and this file admits it only once it can carry traffic. Each piece
//! decides; what owns the sockets, the threads and the clocks performs what was
//! decided and reports back.

pub mod dataplane;
pub mod dialer;
pub mod direct_worker;
pub mod health;
pub mod latency;
pub mod monitors;
pub mod relay_worker;
pub mod start;
pub mod state;
pub mod status;
pub mod worker;

use vstd::prelude::*;

use crate::relay_path::SessionMode;
use crate::session::state::PathSessionStatus;
use crate::text;
use crate::time;

verus! {

/// How long a session waits for a path to become usable before giving up.
pub const SESSION_READY_TIMEOUT: u64 = 12_000_000_000;

/// How long a relay session waits for every path before starting on the ones
/// that answered.
///
/// Only a slow route set pays this: a session whose paths are all up returns as
/// soon as the last one answers. A route that answers after capture has started
/// is not shut out either -- its first reply puts it back in the dispatcher --
/// so this trades a little completeness at startup for a session that connects
/// promptly instead of failing on one bad route.
pub const DEGRADED_START_SETTLE: u64 = 1_500_000_000;

/// Whether a session may start.
#[derive(Debug, Clone, Copy, PartialEq, Eq, Structural)]
pub enum Readiness {
    Waiting,
    Ready,
    TimedOut,
}

/// Whether a session that was brought up at `started` may start.
pub open spec fn readiness(statuses: Seq<PathSessionStatus>, started: u64, now: u64) -> Readiness {
    if now >= time::later(started, SESSION_READY_TIMEOUT) {
        Readiness::TimedOut
    } else if status::all_up(statuses) || (now >= time::later(started, DEGRADED_START_SETTLE)
        && status::any_up(statuses)) {
        Readiness::Ready
    } else {
        Readiness::Waiting
    }
}

/// Whether a session may start, so that nothing is captured into a session with
/// nowhere to send it.
///
/// A relay session needs one working path, not all of them: the point of
/// multipath is that an expired, blocked or offline route costs a route rather
/// than the session. Paths that are still down stay out of the scheduler's pick
/// and keep probing, and join in when they answer. A direct session has exactly
/// one path, so for it this is the same thing.
pub fn wait_until_ready(statuses: &Vec<PathSessionStatus>, started: u64, now: u64) -> (r: Readiness)
    ensures
        r == readiness(statuses@, started, now),
{
    if now >= time::after(started, SESSION_READY_TIMEOUT) {
        return Readiness::TimedOut;
    }
    if status::all_paths_reachable(statuses) {
        return Readiness::Ready;
    }
    if now >= time::after(started, DEGRADED_START_SETTLE) && status::any_path_reachable(statuses) {
        return Readiness::Ready;
    }
    Readiness::Waiting
}

/// The last errors of some paths.
pub open spec fn errors_of(statuses: Seq<PathSessionStatus>) -> Seq<Seq<char>>
    decreases statuses.len(),
{
    if statuses.len() == 0 {
        Seq::<Seq<char>>::empty()
    } else {
        let before = errors_of(statuses.drop_last());
        match statuses.last().last_error {
            Some(error) => before.push(error@),
            None => before,
        }
    }
}

/// What a session waits for.
pub open spec fn subject_of(mode: SessionMode) -> Seq<char> {
    match mode {
        SessionMode::Relay => "relay paths"@,
        SessionMode::Direct => "the node"@,
    }
}

/// Why a session did not become ready.
pub open spec fn not_ready_text(mode: SessionMode, statuses: Seq<PathSessionStatus>) -> Seq<char> {
    let detail = text::separated(errors_of(statuses), "; "@);
    if detail.len() == 0 {
        subject_of(mode) + " did not become ready before timeout"@
    } else {
        subject_of(mode) + " did not become ready: "@ + detail
    }
}

/// Why a session did not become ready.
pub fn not_ready(mode: SessionMode, statuses: &Vec<PathSessionStatus>) -> (r: String)
    ensures
        r@ == not_ready_text(mode, statuses@),
{
    let subject: &str = match mode {
        SessionMode::Relay => "relay paths",
        SessionMode::Direct => "the node",
    };
    let mut errors: Vec<String> = Vec::new();
    let mut at: usize = 0;
    assert(statuses@.take(0) =~= Seq::<PathSessionStatus>::empty());
    assert(text::string_views(errors@) =~= Seq::<Seq<char>>::empty());
    while at < statuses.len()
        invariant
            at <= statuses@.len(),
            text::string_views(errors@) == errors_of(statuses@.take(at as int)),
        decreases statuses@.len() - at,
    {
        assert(statuses@.take(at + 1).drop_last() =~= statuses@.take(at as int));
        match &statuses[at].last_error {
            Some(error) => {
                let ghost before = errors@;
                errors.push(error.clone());
                assert(text::string_views(errors@) =~= text::string_views(before).push(error@));
            },
            None => {},
        }
        at = at + 1;
    }
    assert(statuses@.take(at as int) =~= statuses@);
    let detail = text::join(&errors, "; ");
    if text::chars(detail.as_str()).len() == 0 {
        text::concat2(subject, " did not become ready before timeout")
    } else {
        text::concat3(subject, " did not become ready: ", detail.as_str())
    }
}

/// One bad route does not fail a session: once the settling time has passed, one
/// path that is up is enough, and a session whose paths are all up does not wait
/// at all.
pub proof fn one_working_path_is_enough(statuses: Seq<PathSessionStatus>, started: u64, now: u64)
    requires
        now < time::later(started, SESSION_READY_TIMEOUT),
    ensures
        status::any_up(statuses) && now >= time::later(started, DEGRADED_START_SETTLE)
            ==> readiness(statuses, started, now) == Readiness::Ready,
        status::all_up(statuses) ==> readiness(statuses, started, now) == Readiness::Ready,
        !status::any_up(statuses) ==> readiness(statuses, started, now) == Readiness::Waiting,
{
    if status::all_up(statuses) {
        assert(statuses[0].reachable);
    }
}

/// A session is ready at once where every path is up, and a second and a half
/// after it began where any is; it is given up after twelve seconds.
pub proof fn readiness_is_told_by_the_clock(
    statuses: Seq<PathSessionStatus>,
    started: u64,
    now: u64,
)
    requires
        started <= now,
        started + 12_000_000_000 <= u64::MAX,
    ensures
        ({
            let waited = now - started;
            let every = statuses.len() > 0 && forall|i: int|
                0 <= i < statuses.len() ==> (#[trigger] statuses[i]).reachable;
            let some = exists|i: int| 0 <= i < statuses.len() && (#[trigger] statuses[i]).reachable;
            readiness(statuses, started, now) == if waited >= 12_000_000_000 {
                Readiness::TimedOut
            } else if every || (some && waited >= 1_500_000_000) {
                Readiness::Ready
            } else {
                Readiness::Waiting
            }
        }),
{
}

/// What is said of a session that did not come up holds every error of its
/// paths, in order, and nothing else.
pub proof fn every_error_is_told(statuses: Seq<PathSessionStatus>, status: PathSessionStatus)
    ensures
        errors_of(statuses.push(status)) == match status.last_error {
            Some(error) => errors_of(statuses).push(error@),
            None => errors_of(statuses),
        },
        errors_of(Seq::<PathSessionStatus>::empty()).len() == 0,
{
    assert(statuses.push(status).drop_last() =~= statuses);
}

} // verus!
