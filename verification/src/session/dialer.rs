//! Reopening a path that stopped answering, and deciding when that is even
//! worth attempting.
//!
//! Redialling a path costs a handshake and, for L2TP/IPsec, up to twenty
//! seconds of play. The rules for escalating from a cheap reopen to a full
//! rebuild, for backing off, and for standing down when the evidence points at
//! this machine's uplink rather than the path all live here.

use vstd::prelude::*;

use crate::bits;
use crate::net::Endpoint;
use crate::relay_path;
use crate::relay_path::{NodeSpec, OpenPlan, ReopenEffort, L2TP_NOT_CONNECTED};
use crate::time;
use crate::uplink;
use crate::uplink::UplinkState;

verus! {

pub const NO_RESULT: &'static str = "reconnect worker stopped without a result";

/// What a path worker needs to open its transport again.
///
/// The transport is opened once when the session starts, and for WireGuard that
/// is enough: it re-initiates a handshake from its own timers, so a rekey or a
/// peer restart recovers on its own. A SOCKS5 association and an OpenVPN link
/// have no such mechanism -- once the proxy drops the control connection or the
/// tunnel dies, that path stays dead for the whole session unless something
/// dials it again. This is what does that.
#[derive(Clone)]
pub struct PathDialer {
    pub node: NodeSpec,
    pub relay: Endpoint,
    /// Whether the next reopen may take the cheap route.
    ///
    /// Set again every time the path answers a probe, so the cheap attempt is
    /// offered once per outage: if it does not hold, the next attempt is the
    /// full rebuild, and a path can never sit in a loop of cheap reopens that do
    /// not fix it.
    pub cheap_reopen: bool,
}

/// How much the next reopen replaces.
pub open spec fn effort_of(cheap_allowed: bool) -> ReopenEffort {
    if cheap_allowed {
        ReopenEffort::Cheap
    } else {
        ReopenEffort::Full
    }
}

/// Takes the cheap attempt if one is on offer, and withdraws the offer.
///
/// Separated from the dial because it is the part that has to be right: getting
/// it wrong in one direction costs twenty seconds of play and in the other loops
/// for ever on a rebuild that never helps.
pub fn choose_reopen_effort(cheap_allowed: &mut bool) -> (r: ReopenEffort)
    ensures
        r == effort_of(*old(cheap_allowed)),
        !*final(cheap_allowed),
{
    if *cheap_allowed {
        *cheap_allowed = false;
        ReopenEffort::Cheap
    } else {
        ReopenEffort::Full
    }
}

/// One cheap attempt per outage, then the real thing, until the path has
/// answered again.
pub proof fn a_reopen_escalates_until_the_path_answers(cheap_allowed: bool)
    ensures
        cheap_allowed ==> effort_of(cheap_allowed) == ReopenEffort::Cheap,
        effort_of(false) == ReopenEffort::Full,
{
}

impl PathDialer {
    /// What the next reopen comes to.
    pub fn open(&mut self) -> (r: Result<OpenPlan, String>)
        ensures
            final(self).node == old(self).node,
            final(self).relay == old(self).relay,
            !final(self).cheap_reopen,
            r is Err <==> old(self).node.unconnected(),
            r matches Err(message) ==> message@ == L2TP_NOT_CONNECTED@,
            r matches Ok(plan) ==> relay_path::plans(
                plan,
                old(self).node,
                !old(self).cheap_reopen,
            ),
    {
        let effort = choose_reopen_effort(&mut self.cheap_reopen);
        self.node.reopen(effort)
    }

    /// Lets the next recovery try the cheap route again. Called when the path
    /// has proved itself, which is what makes the offer safe to renew.
    pub fn allow_cheap_reopen(&mut self)
        ensures
            *final(self) == (PathDialer { cheap_reopen: true, ..*old(self) }),
    {
        self.cheap_reopen = true;
    }
}

/// What has come of a dial that runs on its own.
pub enum Dial<T> {
    /// Nothing yet.
    Running,
    /// It stopped without a word.
    Lost,
    /// It has a transport, or could not make one.
    Done(Result<T, String>),
}

/// What a worker makes of a dial.
pub enum ReconnectPoll<T> {
    Pending,
    Discarded,
    Finished(Result<T, String>),
}

/// Keeps an obsolete dial in its slot until it finishes, so recovery followed by
/// another outage cannot start overlapping connections to the same node.
#[derive(Debug, Clone, Copy, PartialEq, Eq, Structural)]
pub struct ReconnectAttempt {
    pub superseded: bool,
}

/// Whether a poll says what a dial came to.
pub open spec fn polled<T>(attempt: ReconnectAttempt, dial: Dial<T>, poll: ReconnectPoll<T>) -> bool {
    match dial {
        Dial::Running => poll is Pending,
        Dial::Lost => if attempt.superseded {
            poll is Discarded
        } else {
            poll matches ReconnectPoll::Finished(Err(message)) && message@ == NO_RESULT@
        },
        Dial::Done(result) => if attempt.superseded {
            poll is Discarded
        } else {
            poll == ReconnectPoll::Finished(result)
        },
    }
}

impl ReconnectAttempt {
    pub fn new() -> (r: Self)
        ensures
            !r.superseded,
    {
        ReconnectAttempt { superseded: false }
    }

    /// The path has come back by itself.
    pub fn recovered(&mut self)
        ensures
            final(self).superseded,
    {
        self.superseded = true;
    }

    pub fn poll<T>(&self, dial: Dial<T>) -> (r: ReconnectPoll<T>)
        ensures
            polled(*self, dial, r),
    {
        match dial {
            Dial::Running => ReconnectPoll::Pending,
            Dial::Lost => if self.superseded {
                ReconnectPoll::Discarded
            } else {
                ReconnectPoll::Finished(Err(NO_RESULT.to_owned()))
            },
            Dial::Done(result) => if self.superseded {
                ReconnectPoll::Discarded
            } else {
                ReconnectPoll::Finished(result)
            },
        }
    }
}

/// Consecutive failed health checks before a path's transport is redialled.
/// Three of them is a little over a second of silence, long enough that a
/// single lost probe or a brief stall does not tear down a working socket.
pub const RECONNECT_AFTER_FAILURES: u32 = 3;

/// Wait before the *first* redial once a path is judged dead.
///
/// Zero: by this point the path has missed several probes in a row and another
/// path is up, so the uplink is known good and there is nothing to gain by
/// waiting. Later attempts back off from [`RECONNECT_BACKOFF_STEP`].
pub const RECONNECT_BACKOFF_MIN: u64 = 0;

/// The wait the backoff grows from after the immediate first attempt.
pub const RECONNECT_BACKOFF_STEP: u64 = 1_000_000_000;

/// Longest wait between redial attempts. A provider that is down for an hour
/// is retried every half minute rather than hammered.
pub const RECONNECT_BACKOFF_MAX: u64 = 30_000_000_000;

/// The wait after a failed redial.
pub open spec fn backed_off(current: u64) -> u64 {
    if current == 0 {
        RECONNECT_BACKOFF_STEP
    } else if current * 2 < RECONNECT_BACKOFF_MAX {
        (current * 2) as u64
    } else {
        RECONNECT_BACKOFF_MAX
    }
}

/// The wait after a failed redial. The first attempt is immediate, so the
/// sequence grows from [`RECONNECT_BACKOFF_STEP`] rather than doubling zero.
pub fn next_backoff(current: u64) -> (r: u64)
    ensures
        r == backed_off(current),
{
    if current == 0 {
        RECONNECT_BACKOFF_STEP
    } else if current < RECONNECT_BACKOFF_MAX / 2 {
        current * 2
    } else {
        RECONNECT_BACKOFF_MAX
    }
}

/// The wait before redial `n`, the first being number zero.
pub open spec fn wait_before(n: nat) -> u64
    decreases n,
{
    if n == 0 {
        RECONNECT_BACKOFF_MIN
    } else {
        backed_off(wait_before((n - 1) as nat))
    }
}

/// The first redial waits for nothing, later ones wait longer and longer until
/// the ceiling, and no wait is ever above it.
pub proof fn redials_back_off(n: nat)
    ensures
        wait_before(0) == 0,
        wait_before(n) <= RECONNECT_BACKOFF_MAX,
        wait_before(n + 1) > wait_before(n) || wait_before(n + 1) == RECONNECT_BACKOFF_MAX,
        wait_before(n + 1) >= RECONNECT_BACKOFF_STEP,
    decreases n,
{
    if n > 0 {
        redials_back_off((n - 1) as nat);
    }
}

/// A provider that stays down is retried at the ceiling from the seventh attempt
/// on.
pub proof fn the_ceiling_is_reached(n: nat)
    requires
        n >= 6,
    ensures
        wait_before(n) == RECONNECT_BACKOFF_MAX,
    decreases n,
{
    if n == 6 {
        reveal_with_fuel(wait_before, 7);
    } else {
        the_ceiling_is_reached((n - 1) as nat);
    }
}

/// When the next redial is due once `failures` health checks have failed in a
/// row.
pub open spec fn armed(failures: u32, backoff: u64, next_redial: Option<u64>, now: u64) -> Option<
    u64,
> {
    if failures >= RECONNECT_AFTER_FAILURES && next_redial is None {
        Some(time::later(now, backoff))
    } else {
        next_redial
    }
}

/// Arms the next redial once a path has failed [`RECONNECT_AFTER_FAILURES`]
/// health checks in a row, leaving an already-armed one alone so the backoff
/// is not restarted by every further failure.
pub fn schedule_redial(failures: u32, backoff: u64, next_redial: &mut Option<u64>, now: u64)
    ensures
        *final(next_redial) == armed(failures, backoff, *old(next_redial), now),
{
    if failures >= RECONNECT_AFTER_FAILURES && next_redial.is_none() {
        *next_redial = Some(time::after(now, backoff));
    }
}

/// How long a path waits before reconsidering a redial while no other path is
/// up.
///
/// Independent providers do not fail in the same second. When every path stops
/// answering at once, the cause is the one thing they share -- this machine's
/// uplink -- and redialling cannot fix that: the dial has nowhere to go, and a
/// WireGuard redial throws away a working tunnel to negotiate a new handshake
/// over a link that is already struggling.
///
/// This only defers the *transport* redial. Probing continues throughout at its
/// normal cadence, so a path whose transport is still intact recovers the
/// instant the uplink does, without waiting for this at all. What it does bound
/// is recovery for a transport that genuinely cannot come back without a new
/// dial -- a dropped OpenVPN connection, where WireGuard would rehandshake on
/// its own -- so it is kept to three probe cycles, the same rhythm as
/// [`RECONNECT_AFTER_FAILURES`], rather than anything longer.
pub const UPLINK_DOWN_BACKOFF: u64 = 6_000_000_000;

/// Whether some path other than `index` is up.
pub open spec fn another_up(healthy: u64, index: usize) -> bool {
    exists|k: u64| k < 64 && k != index && #[trigger] bits::bit(healthy, k)
}

/// Whether any path other than `index` is currently carrying traffic.
///
/// One healthy path proves the uplink works, which is what makes a redial of a
/// different path worth attempting.
pub fn another_path_is_up(healthy: u64, index: usize) -> (r: bool)
    ensures
        r == another_up(healthy, index),
{
    let mut k: u64 = 0;
    while k < 64
        invariant
            k <= 64,
            forall|j: u64| j < k && j != index ==> !#[trigger] bits::bit(healthy, j),
        decreases 64 - k,
    {
        if k != index as u64 && (healthy >> k) & 1 == 1 {
            assert(bits::bit(healthy, k));
            return true;
        }
        k = k + 1;
    }
    false
}

/// How long every path being down at once is treated as evidence of a shared
/// cause while the uplink monitor still reports that the uplink is up.
///
/// Sized from how long the monitor needs to change its mind: up to one probe
/// interval before it probes again, then the probes that have to fail. A path
/// declares itself dead after three probes of its own, inside a second.
///
/// A real uplink stall shorter than the monitor's window -- a Wi-Fi hiccup, a
/// router pause, a congestion burst, which is the common case -- kills every
/// path at once while the monitor still says up, and without this all of them
/// would redial simultaneously into a link that could not carry the dials.
pub const COMMON_MODE_CONFIRM_WINDOW: u64 = uplink::PROBE_INTERVAL * (
    uplink::FAILURES_BEFORE_DOWN as u64 + 1);

/// Whether a failed path should hold its redial.
pub open spec fn holds_redial(uplink: UplinkState, common_mode_for: Option<u64>) -> bool {
    match uplink {
        UplinkState::Down => true,
        UplinkState::Up => common_mode_for matches Some(elapsed) && elapsed
            < COMMON_MODE_CONFIRM_WINDOW,
        UplinkState::Unknown => common_mode_for is Some,
    }
}

/// Whether a failed path should hold its redial because the evidence points at
/// something shared rather than at the path itself.
///
/// `common_mode_for` is how long every path in the session has been down at
/// once, having previously carried traffic. It is `None` when at least one path
/// is up, when none has ever been up -- a session still starting has not
/// collapsed, it has simply not arrived -- and when the session has a single
/// path, which has nothing to compare itself against and so always redials.
pub fn hold_redial_for_common_mode(uplink: UplinkState, common_mode_for: Option<u64>) -> (r: bool)
    ensures
        r == holds_redial(uplink, common_mode_for),
{
    match uplink {
        // Measured down. Nothing a dial could accomplish.
        UplinkState::Down => true,
        // Measured up -- but that measurement can be a probe interval old, and
        // promoting it to down takes several more probes. Inside that window
        // the health mask is the fresher evidence, because it moves the moment
        // a path fails, so simultaneous failure outranks a stale report. Past
        // the window the monitor has had every chance to agree and has not, so
        // these paths are down for their own reasons and must be allowed to
        // redial rather than wait for a verdict that is not coming.
        UplinkState::Up => match common_mode_for {
            Some(elapsed) => elapsed < COMMON_MODE_CONFIRM_WINDOW,
            None => false,
        },
        // No measurement to weigh against, so the inference is all there is and
        // gets no deadline: an uplink that is genuinely down would look exactly
        // like this for as long as it stayed down.
        UplinkState::Unknown => common_mode_for.is_some(),
    }
}

/// A path that is on its own in failing redials unless the uplink was measured
/// down; a collapse is held while the monitor could still be about to agree, and
/// a monitor that keeps reporting up wins in the end.
pub proof fn a_measured_uplink_overrides_the_inference(elapsed: u64)
    ensures
        holds_redial(UplinkState::Down, None),
        !holds_redial(UplinkState::Up, None),
        !holds_redial(UplinkState::Unknown, None),
        holds_redial(UplinkState::Unknown, Some(elapsed)),
        holds_redial(UplinkState::Up, Some(elapsed)) <==> elapsed < COMMON_MODE_CONFIRM_WINDOW,
{
}

/// The window outlasts what the monitor needs to call the uplink down, and one
/// episode of holding is no longer than fifteen seconds.
pub proof fn the_window_outlasts_the_monitor()
    ensures
        COMMON_MODE_CONFIRM_WINDOW >= uplink::PROBE_INTERVAL * uplink::FAILURES_BEFORE_DOWN,
        COMMON_MODE_CONFIRM_WINDOW <= 15_000_000_000,
        UPLINK_DOWN_BACKOFF > RECONNECT_BACKOFF_STEP,
{
}

/// The first redial of an outage is immediate, the second waits a second, and
/// each later one twice as long as the one before, up to half a minute.
pub proof fn each_redial_waits_twice_as_long(n: nat)
    ensures
        wait_before(0) == 0,
        wait_before(1) == 1_000_000_000,
        n > 0 ==> wait_before(n + 1) == if 2 * wait_before(n) < 30_000_000_000 {
            2 * wait_before(n)
        } else {
            30_000_000_000
        },
{
    reveal_with_fuel(wait_before, 3);
    redials_back_off(n);
    if n > 0 {
        redials_back_off((n - 1) as nat);
    }
}

/// A redial is set at the third failure in a row, a wait ahead of it, and then
/// stays where it is however many failures follow.
pub proof fn the_third_failure_sets_a_redial(
    failures: u32,
    backoff: u64,
    now: u64,
    then: u64,
    at: u64,
)
    requires
        now + backoff <= u64::MAX,
    ensures
        failures < 3 ==> armed(failures, backoff, None, now) is None,
        failures >= 3 ==> armed(failures, backoff, None, now) == Some((now + backoff) as u64),
        armed(failures, backoff, Some(at), then) == Some(at),
{
}

/// A dial that was overtaken is thrown away whatever came of it; any other is
/// handed over as it ended.
pub proof fn an_overtaken_dial_is_thrown_away<T>(
    attempt: ReconnectAttempt,
    dial: Dial<T>,
    poll: ReconnectPoll<T>,
)
    requires
        polled(attempt, dial, poll),
    ensures
        dial is Running <==> poll is Pending,
        attempt.superseded && !(dial is Running) ==> poll is Discarded,
        !attempt.superseded ==> !(poll is Discarded),
        !attempt.superseded ==> (dial matches Dial::Done(result) ==> poll
            == ReconnectPoll::Finished(result)),
{
}

} // verus!
