//! Whether a path is carrying traffic, and what the dispatcher does about it.
//!
//! Health and scheduling are published separately -- a mask the dispatcher reads
//! per packet, and the scheduler's own pick -- so this is also where the two are
//! reconciled. Bit `k` of a mask stands for path `k`.

use vstd::prelude::*;

use crate::bits;
use crate::protocol;
use crate::rtt::{MAX_TIMEOUT, MIN_TIMEOUT, STREAMED_MIN_TIMEOUT};
use crate::scheduler;
use crate::scheduler::{
    choose_paths_with_incumbent, Decision, Estimate, PathMetrics, Strategy,
};
use crate::session::state::{PathSessionStatus, StatusModel};
use crate::text;
use crate::time;

verus! {

/// Gap between health probes on a path that is answering. One small request
/// and reply per second keeps a route's RTT current without turning an idle
/// game session into meaningful background data usage. A route in doubt uses
/// the shorter degraded interval below, so recovery is still noticed quickly.
pub const PROBE_INTERVAL: u64 = 1_000_000_000;

/// Gap between probes on a path that has missed one.
///
/// This is a game client, so the time between a path coming back and that being
/// noticed is time the player spends on fewer routes than they have. At the
/// healthy cadence a recovered path waits up to half a second to be asked
/// again; probing hard while a path is in doubt cuts that to milliseconds, and
/// costs nothing the rest of the time because a healthy path never uses it.
pub const PROBE_INTERVAL_DEGRADED: u64 = 150_000_000;

/// Gap between probes on a healthy path the scheduler is not currently using.
///
/// A standby path is measured so it can be trusted in a failover, and at one
/// probe a second it is measured cold: a provider exit lets an idle session go
/// cold, and the same route reports a far worse round trip in the minutes it
/// carries nothing than in those it does. That is self-reinforcing, which is
/// what makes it worth spending packets on: the score decides what carries
/// traffic, so a route that measures badly while idle stays idle and keeps
/// measuring badly.
///
/// Probes are the right thing to send. They are control frames the relay
/// answers rather than forwards, so nothing reaches the Internet, and the
/// extra samples sharpen the estimate they are keeping warm.
///
/// It stays no more aggressive than [`PROBE_INTERVAL_DEGRADED`], because a
/// path that has actually missed a reply is the one that deserves the hardest
/// probing.
pub const PROBE_INTERVAL_STANDBY: u64 = 250_000_000;

/// Consecutive unanswered probes before a path is declared down.
///
/// One lost probe is not a failure. The control probe is a bare UDP datagram on
/// a real network, and losing one occasionally is ordinary. Acting on the first
/// loss takes a route out of the dispatcher and shows it offline every time,
/// which reads as the tunnel dropping and reconnecting when nothing of the sort
/// happened.
///
/// The probe deadline follows the path's own round trip, so on a healthy route a
/// cycle costs a few hundred milliseconds rather than two seconds. That is what
/// lets this be a real threshold instead of a trade against detection speed.
///
/// The scheduler still sees the first loss immediately, so a path that starts
/// dropping packets is de-prioritised by its score straight away. This governs
/// only the harder decision to stop using it.
pub const HEALTH_FAILURE_THRESHOLD: u32 = 3;

/// How long a timed-out probe is remembered so a reply arriving late can still
/// correct the deadline estimate.
///
/// Twice the longest deadline. Past that the path has already been taken out of
/// service and a redial matters more than another sample, and a reply that late
/// produces the ceiling deadline either way.
pub const LATE_REPLY_WINDOW: u64 = 3_000_000_000;

/// Most written-off probes held at once. A degraded path probes every
/// [`PROBE_INTERVAL_DEGRADED`], which fits comfortably inside this, so
/// [`LATE_REPLY_WINDOW`] is what actually expires an entry and this only bounds
/// the memory.
pub const LATE_REPLY_CAPACITY: usize = 32;

/// A standby path is measured more often than one carrying traffic, but never
/// harder than one that has actually missed a reply; and one lost probe is not a
/// path failure.
pub proof fn a_path_in_doubt_is_probed_hardest()
    ensures
        PROBE_INTERVAL_DEGRADED <= PROBE_INTERVAL_STANDBY < PROBE_INTERVAL,
        PROBE_INTERVAL / PROBE_INTERVAL_STANDBY <= 8,
        HEALTH_FAILURE_THRESHOLD >= 2,
{
}

/// A dead path on a settled fast route is noticed within two seconds, one that
/// a stream carries within four, and the slowest one within six.
pub proof fn a_dead_path_is_noticed_in_time()
    ensures
        (MIN_TIMEOUT + PROBE_INTERVAL_DEGRADED) * HEALTH_FAILURE_THRESHOLD <= 2 * time::SECOND,
        (STREAMED_MIN_TIMEOUT + PROBE_INTERVAL_DEGRADED) * HEALTH_FAILURE_THRESHOLD <= 4
            * time::SECOND,
        (MAX_TIMEOUT + PROBE_INTERVAL_DEGRADED) * HEALTH_FAILURE_THRESHOLD <= 6 * time::SECOND,
{
}

/// The window outlasts the widest deadline a probe can be given, and it, not the
/// capacity, is what expires an entry even on a path that probes as fast as one
/// ever does.
pub proof fn the_late_reply_window_outlasts_the_widest_deadline()
    ensures
        LATE_REPLY_WINDOW >= MAX_TIMEOUT * 2,
        LATE_REPLY_WINDOW / PROBE_INTERVAL_DEGRADED < LATE_REPLY_CAPACITY,
{
}

/// The gap before the next probe on a healthy path, given whether the
/// scheduler currently has it carrying traffic.
///
/// A carrying path is already warm and already measured by its own traffic, so
/// it keeps the slow cadence; a standby path pays for its own accuracy.
pub fn healthy_probe_interval(carrying: bool) -> (r: u64)
    ensures
        r == if carrying {
            PROBE_INTERVAL
        } else {
            PROBE_INTERVAL_STANDBY
        },
{
    if carrying {
        PROBE_INTERVAL
    } else {
        PROBE_INTERVAL_STANDBY
    }
}

/// A mask with one path's health recorded in it. A path beyond the last bit is
/// left out.
pub open spec fn published(mask: u64, index: usize, healthy: bool) -> u64 {
    if index >= 64 {
        mask
    } else if healthy {
        mask | (1u64 << (index as u64))
    } else {
        mask & !(1u64 << (index as u64))
    }
}

/// Records whether `index` is carrying traffic, so the dispatcher can leave a
/// dead path out of the pick. Out of range is ignored rather than corrupting the
/// mask.
pub fn publish_path_health(mask: &mut u64, index: usize, healthy: bool)
    ensures
        *final(mask) == published(*old(mask), index, healthy),
{
    if index >= 64 {
        return;
    }
    let bit: u64 = 1u64 << (index as u64);
    if healthy {
        *mask = *mask | bit;
    } else {
        *mask = *mask & !bit;
    }
}

/// Publishing the health of one path sets exactly its own bit and leaves every
/// other path's as it was.
pub proof fn each_path_is_tracked_on_its_own(mask: u64, index: usize, healthy: bool, k: u64)
    requires
        k < 64,
    ensures
        bits::bit(published(mask, index, healthy), k) == if k == index {
            healthy
        } else {
            bits::bit(mask, k)
        },
{
    if index < 64 {
        bits::lemma_bit_set(mask, index as u64, k);
        bits::lemma_bit_clear(mask, index as u64, k);
    }
}

/// The paths a packet is dispatched to.
pub open spec fn selection(decision: u64, healthy: u64) -> u64 {
    if decision & healthy != 0 {
        decision & healthy
    } else if healthy != 0 {
        healthy
    } else {
        decision
    }
}

/// The paths a packet is actually dispatched to: the scheduler's pick,
/// narrowed to the ones known to be carrying traffic.
///
/// If the scheduler's pick has gone down, the healthy routes are used
/// immediately. Health and scheduling are published separately, so their
/// snapshots can disagree during failure or recovery. The original pick is kept
/// only when no route has proved healthy, including startup before the first
/// probe reply.
pub fn selected_paths(decision: u64, healthy: u64) -> (r: u64)
    ensures
        r == selection(decision, healthy),
{
    if decision & healthy != 0 {
        decision & healthy
    } else if healthy != 0 {
        healthy
    } else {
        decision
    }
}

/// Dispatch never chooses a dead route while a healthy one exists, never goes
/// beyond the pick while any of it is healthy, and is never left empty while
/// there is anything to choose.
pub proof fn a_dead_route_is_not_chosen_while_another_is_healthy(
    decision: u64,
    healthy: u64,
    k: u64,
)
    requires
        k < 64,
    ensures
        healthy != 0 && bits::bit(selection(decision, healthy), k) ==> bits::bit(healthy, k),
        decision & healthy != 0 && bits::bit(selection(decision, healthy), k) ==> bits::bit(
            decision,
            k,
        ),
        healthy != 0 || decision != 0 ==> selection(decision, healthy) != 0,
        bits::bit(decision, k) && bits::bit(healthy, k) ==> bits::bit(
            selection(decision, healthy),
            k,
        ),
{
    bits::lemma_bit_and(decision, healthy, k);
    bits::lemma_bit_and(decision & healthy, 0, k);
}

/// The bit of the path that has this id.
pub open spec fn path_bit(id: Seq<char>) -> u64 {
    match text::parsed_number(id, u32::MAX as nat) {
        Some(n) => if n < 64 {
            1u64 << (n as u64)
        } else {
            0
        },
        None => 0,
    }
}

/// A path id is its route index, which is also its bit in every mask the data
/// plane reads. One conversion so the masks and the incumbent set cannot drift.
pub fn bit_for_path(path_id: &str) -> (r: u64)
    ensures
        r == path_bit(path_id@),
{
    match text::parse_number(text::chars(path_id).as_slice(), u32::MAX as u64) {
        Some(n) => if n < 64 {
            1u64 << n
        } else {
            0
        },
        None => 0,
    }
}

/// The id of path `i` stands for its own bit, and for no other.
pub proof fn a_path_id_is_its_bit(i: nat, k: u64)
    requires
        i < 64,
        k < 64,
    ensures
        path_bit(text::decimal(i)) == 1u64 << (i as u64),
        bits::bit(path_bit(text::decimal(i)), k) == (k == i),
{
    text::lemma_decimal_reads_back(i);
    bits::lemma_bit_set(0, i as u64, k);
    bits::lemma_bit_and(0, 0, k);
    let one = 1u64 << (i as u64);
    assert(0u64 | one == one) by (bit_vector);
}

/// The bits of some paths.
pub open spec fn ids_mask(ids: Seq<Seq<char>>) -> u64
    decreases ids.len(),
{
    if ids.len() == 0 {
        0
    } else {
        ids_mask(ids.drop_last()) | path_bit(ids.last())
    }
}

/// The bits of the paths that a decision names, and of the fallback where it
/// names none.
pub open spec fn decided_mask(decision: Decision, fallback: u64) -> u64 {
    let mask = match decision {
        Decision::Drop => 0u64,
        Decision::Single { path_id } => path_bit(path_id@),
        Decision::Duplicate { path_ids } => ids_mask(text::string_views(path_ids@)),
    };
    if mask == 0 {
        fallback
    } else {
        mask
    }
}

pub fn mask_for_decision(decision: &Decision, fallback_mask: u64) -> (r: u64)
    ensures
        r == decided_mask(*decision, fallback_mask),
{
    let mask: u64 = match decision {
        Decision::Drop => 0,
        Decision::Single { path_id } => bit_for_path(path_id.as_str()),
        Decision::Duplicate { path_ids } => {
            let ghost all = text::string_views(path_ids@);
            let mut mask: u64 = 0;
            let mut at: usize = 0;
            assert(all.take(0) =~= Seq::<Seq<char>>::empty());
            while at < path_ids.len()
                invariant
                    at <= path_ids@.len(),
                    all == text::string_views(path_ids@),
                    mask == ids_mask(all.take(at as int)),
                decreases path_ids@.len() - at,
            {
                assert(all.take(at + 1).drop_last() =~= all.take(at as int));
                assert(all.take(at + 1).last() == path_ids@[at as int]@);
                mask = mask | bit_for_path(path_ids[at].as_str());
                at = at + 1;
            }
            assert(all.take(at as int) =~= all);
            mask
        },
    };
    if mask == 0 {
        fallback_mask
    } else {
        mask
    }
}

/// The numbers of the routes in a mask from `k` on, each behind a plus.
pub open spec fn routes_from(mask: u64, k: u64) -> Seq<char>
    decreases 64 - k,
{
    if k >= 64 {
        Seq::<char>::empty()
    } else if bits::bit(mask, k) {
        "+"@ + text::decimal((k + 1) as nat) + routes_from(mask, (k + 1) as u64)
    } else {
        routes_from(mask, (k + 1) as u64)
    }
}

/// The routes in a mask, for a log.
pub open spec fn route_names(mask: u64) -> Seq<char> {
    let routes = routes_from(mask, 0);
    if routes.len() == 0 {
        "none"@
    } else {
        routes.skip(1)
    }
}

/// The routes in a mask, for a log.
pub fn route_mask(mask: u64) -> (r: String)
    ensures
        r@ == route_names(mask),
{
    let mut all: Vec<char> = Vec::new();
    let mut k: u64 = 0;
    assert(all@ + routes_from(mask, 0) =~= routes_from(mask, 0));
    while k < 64
        invariant
            k <= 64,
            all@ + routes_from(mask, k) == routes_from(mask, 0),
        decreases 64 - k,
    {
        let ghost before = all@;
        if (mask >> k) & 1 == 1 {
            all.push('+');
            let mut number = text::decimal_chars(k + 1);
            let ghost digits = number@;
            all.append(&mut number);
            proof {
                reveal_strlit("+");
                assert(all@ =~= before + "+"@ + digits);
                assert(all@ + routes_from(mask, (k + 1) as u64) =~= before + routes_from(mask, k));
            }
        } else {
            assert(routes_from(mask, k) == routes_from(mask, (k + 1) as u64));
        }
        k = k + 1;
    }
    assert(all@ =~= routes_from(mask, 0));
    if all.len() == 0 {
        "none".to_owned()
    } else {
        let rest = vstd::slice::slice_subrange(all.as_slice(), 1, all.len());
        assert(rest@ =~= all@.skip(1));
        text::string(rest)
    }
}

/// What a probe came to, and what the measurements of the path are since.
#[derive(Debug, Clone, Copy, PartialEq, Eq, Structural)]
pub enum ProbeResult {
    Answered(Estimate),
    Lost(Estimate),
}

/// The ids of the paths in a mask.
pub open spec fn ids_in(metrics: Seq<PathMetrics>, mask: u64) -> Seq<Seq<char>>
    decreases metrics.len(),
{
    if metrics.len() == 0 {
        Seq::<Seq<char>>::empty()
    } else {
        let before = ids_in(metrics.drop_last(), mask);
        if mask & path_bit(metrics.last().id@) != 0 {
            before.push(metrics.last().id@)
        } else {
            before
        }
    }
}

/// The measurements once a probe has come to something.
pub open spec fn measured(path: PathMetrics, result: ProbeResult) -> PathMetrics {
    match result {
        ProbeResult::Answered(estimate) => path.after_probe(estimate),
        ProbeResult::Lost(estimate) => path.after_loss(estimate),
    }
}

/// The scheduler's pick, as the paths' places and as a mask.
pub open spec fn choice_mask(
    metrics: Seq<PathMetrics>,
    choice: scheduler::Choice,
    fallback: u64,
) -> u64 {
    let mask = match choice {
        scheduler::Choice::Drop => 0u64,
        scheduler::Choice::Single(i) => path_bit(metrics[i].id@),
        scheduler::Choice::Duplicate(places) => ids_mask(scheduler::ids_of(metrics, places)),
    };
    if mask == 0 {
        fallback
    } else {
        mask
    }
}

/// The paths once a probe on one of them has come to something.
pub open spec fn after_result(
    metrics: Seq<PathMetrics>,
    index: usize,
    result: ProbeResult,
) -> Seq<PathMetrics> {
    if index < metrics.len() {
        metrics.update(index as int, measured(metrics[index as int], result))
    } else {
        metrics
    }
}

/// The scheduler's pick once a probe has come to something. The paths that carry
/// traffic are the ones it may keep.
pub open spec fn repicked(
    metrics: Seq<PathMetrics>,
    previous: u64,
    fallback: u64,
    index: usize,
    result: ProbeResult,
    strategy: Strategy,
) -> u64 {
    if index < metrics.len() {
        let after = after_result(metrics, index, result);
        choice_mask(after, scheduler::chosen(after, strategy, ids_in(after, previous)), fallback)
    } else {
        previous
    }
}

/// The pick before and after, where it changed.
pub open spec fn moved_pick(previous: u64, next: u64) -> Option<(u64, u64)> {
    if previous != next {
        Some((previous, next))
    } else {
        None
    }
}

/// Records a probe and lets the scheduler pick again.
///
/// The routes already carrying traffic are handed to the scheduler, so it can
/// keep them through a tie instead of re-deciding the whole set on every probe.
/// What comes back is the pick before and after, where it changed.
pub fn update_scheduler_probe(
    metrics: &mut Vec<PathMetrics>,
    decision_mask: &mut u64,
    fallback_mask: u64,
    index: usize,
    result: ProbeResult,
    strategy: Strategy,
) -> (r: Option<(u64, u64)>)
    ensures
        final(metrics)@ == after_result(old(metrics)@, index, result),
        *final(decision_mask) == repicked(
            old(metrics)@,
            *old(decision_mask),
            fallback_mask,
            index,
            result,
            strategy,
        ),
        r == moved_pick(*old(decision_mask), *final(decision_mask)),
{
    if index >= metrics.len() {
        return None;
    }
    let ghost before = metrics@;
    match result {
        ProbeResult::Answered(estimate) => metrics[index].record_probe(estimate),
        ProbeResult::Lost(estimate) => metrics[index].record_loss(estimate),
    }
    assert(metrics@ =~= before.update(index as int, measured(before[index as int], result)));
    let previous: u64 = *decision_mask;
    let mut incumbent: Vec<&str> = Vec::new();
    let mut at: usize = 0;
    assert(metrics@.take(0) =~= Seq::<PathMetrics>::empty());
    assert(text::str_views(incumbent@) =~= Seq::<Seq<char>>::empty());
    while at < metrics.len()
        invariant
            at <= metrics@.len(),
            text::str_views(incumbent@) == ids_in(metrics@.take(at as int), previous),
        decreases metrics@.len() - at,
    {
        assert(metrics@.take(at + 1).drop_last() =~= metrics@.take(at as int));
        if previous & bit_for_path(metrics[at].id.as_str()) != 0 {
            let ghost so_far = incumbent@;
            incumbent.push(metrics[at].id.as_str());
            assert(text::str_views(incumbent@) =~= text::str_views(so_far).push(
                metrics@[at as int].id@,
            ));
        }
        at = at + 1;
    }
    assert(metrics@.take(at as int) =~= metrics@);
    let decision = choose_paths_with_incumbent(
        metrics.as_slice(),
        strategy,
        incumbent.as_slice(),
    );
    let next: u64 = mask_for_decision(&decision, fallback_mask);
    *decision_mask = next;
    if previous != next {
        Some((previous, next))
    } else {
        None
    }
}

/// A status once the path has answered, or why it has not.
pub open spec fn status_updated(status: StatusModel, result: Result<u64, Seq<char>>) -> StatusModel {
    match result {
        Ok(latency) => StatusModel {
            reachable: true,
            latency: Some(latency),
            packets_received: scheduler::counted(status.packets_received),
            last_error: None,
            ..status
        },
        Err(error) => StatusModel { reachable: false, last_error: Some(error), ..status },
    }
}

/// A result with its message as text.
pub open spec fn result_view(result: Result<u64, String>) -> Result<u64, Seq<char>> {
    match result {
        Ok(latency) => Ok(latency),
        Err(error) => Err(error@),
    }
}

/// The path answered in so many nanoseconds, or did not and this is why.
pub fn update_path_status(status: &mut PathSessionStatus, result: Result<u64, String>)
    ensures
        final(status)@ == status_updated(old(status)@, result_view(result)),
{
    match result {
        Ok(latency) => {
            status.reachable = true;
            status.latency = Some(latency);
            status.packets_received = status.packets_received.saturating_add(1);
            status.last_error = None;
        },
        Err(error) => {
            status.reachable = false;
            status.last_error = Some(error);
        },
    }
}

/// A sum, up to the greatest number there is.
pub open spec fn summed(a: u64, b: nat) -> u64 {
    if a + b <= u64::MAX {
        (a + b) as u64
    } else {
        u64::MAX
    }
}

/// A packet of so many bytes was handed to the transport.
pub fn record_path_send(
    status: &mut PathSessionStatus,
    sent_bytes: usize,
    result: Result<(), String>,
)
    ensures
        final(status)@ == (StatusModel {
            packets_sent: scheduler::counted(old(status)@.packets_sent),
            bytes_sent: summed(old(status)@.bytes_sent, sent_bytes as nat),
            last_error: match result {
                Ok(_) => old(status)@.last_error,
                Err(error) => Some(error@),
            },
            ..old(status)@
        }),
{
    status.packets_sent = status.packets_sent.saturating_add(1);
    status.bytes_sent = status.bytes_sent.saturating_add(sent_bytes as u64);
    if let Err(error) = result {
        status.last_error = Some(error);
    }
}

/// A packet of so many bytes arrived.
pub fn record_path_receive(status: &mut PathSessionStatus, received_bytes: usize)
    ensures
        final(status)@ == (StatusModel {
            packets_received: scheduler::counted(old(status)@.packets_received),
            bytes_received: summed(old(status)@.bytes_received, received_bytes as nat),
            ..old(status)@
        }),
{
    status.packets_received = status.packets_received.saturating_add(1);
    status.bytes_received = status.bytes_received.saturating_add(received_bytes as u64);
}

/// The written-off probes that are still worth remembering.
pub open spec fn recent(expired: Seq<(u64, u64)>, now: u64) -> Seq<(u64, u64)>
    decreases expired.len(),
{
    if expired.len() == 0 {
        expired
    } else {
        let before = recent(expired.drop_last(), now);
        if time::elapsed(now, expired.last().1) < LATE_REPLY_WINDOW {
            before.push(expired.last())
        } else {
            before
        }
    }
}

/// The written-off probes once one more has been written off.
pub open spec fn remembered(
    expired: Seq<(u64, u64)>,
    sequence: u64,
    started: u64,
    now: u64,
) -> Seq<(u64, u64)> {
    let kept = recent(expired, now);
    let room = if kept.len() >= LATE_REPLY_CAPACITY {
        kept.skip(1)
    } else {
        kept
    };
    room.push((sequence, started))
}

/// Remembers a probe that missed its deadline, so its reply is still
/// recognisable if it turns up.
pub fn remember_expired_probe(
    expired: &mut Vec<(u64, u64)>,
    sequence: u64,
    started: u64,
    now: u64,
)
    ensures
        final(expired)@ == remembered(old(expired)@, sequence, started, now),
{
    let ghost all = expired@;
    let mut kept: Vec<(u64, u64)> = Vec::new();
    let mut at: usize = 0;
    assert(all.take(0) =~= Seq::<(u64, u64)>::empty());
    assert(kept@ =~= recent(all.take(0), now));
    while at < expired.len()
        invariant
            at <= expired@.len(),
            all == expired@,
            kept@ == recent(all.take(at as int), now),
        decreases expired@.len() - at,
    {
        assert(all.take(at + 1).drop_last() =~= all.take(at as int));
        let entry: (u64, u64) = expired[at];
        if time::since(now, entry.1) < LATE_REPLY_WINDOW {
            kept.push(entry);
        }
        at = at + 1;
    }
    assert(all.take(at as int) =~= all);
    let ghost room = kept@;
    if kept.len() >= LATE_REPLY_CAPACITY {
        kept.remove(0);
        assert(kept@ =~= room.skip(1));
    }
    kept.push((sequence, started));
    *expired = kept;
}

/// Where the first written-off probe that a reply answers stands.
pub open spec fn answered_at(expired: Seq<(u64, u64)>, reply: Seq<u8>) -> nat
    decreases expired.len(),
{
    if expired.len() == 0 || protocol::answers(reply, expired[0].0, false) {
        0
    } else {
        1 + answered_at(expired.skip(1), reply)
    }
}

proof fn lemma_answered_at(expired: Seq<(u64, u64)>, reply: Seq<u8>, n: nat)
    requires
        n <= expired.len(),
        forall|i: int| 0 <= i < n ==> !protocol::answers(reply, (#[trigger] expired[i]).0, false),
        n < expired.len() ==> protocol::answers(reply, expired[n as int].0, false),
    ensures
        answered_at(expired, reply) == n,
    decreases n,
{
    if n > 0 {
        assert(!protocol::answers(reply, expired[0].0, false));
        assert forall|i: int| 0 <= i < n - 1 implies !protocol::answers(
            reply,
            (#[trigger] expired.skip(1)[i]).0,
            false,
        ) by {
            assert(expired.skip(1)[i] == expired[i + 1]);
        }
        lemma_answered_at(expired.skip(1), reply, (n - 1) as nat);
    }
}

/// Matches a control frame against probes already written off, returning how
/// long that probe really took and forgetting it.
///
/// The probe stays lost. It missed its deadline, the scheduler has scored it
/// that way, and none of the health accounting is revisited. What this recovers
/// is the *measurement*.
///
/// Without it the estimator only ever sees replies that beat the current
/// deadline, which holds its smoothed round trip and variation below the truth
/// and keeps the deadline pinned near its floor -- on exactly the paths whose
/// replies are slow enough to need it widened, so the next probe times out for
/// the same reason.
///
/// A legacy untagged `pong` is deliberately not matched: it cannot say which
/// probe it answers, so crediting it to one would invent a round trip rather
/// than measure one.
pub fn take_late_probe_reply(expired: &mut Vec<(u64, u64)>, reply: &[u8], now: u64) -> (r: Option<
    u64,
>)
    ensures
        ({
            let at = answered_at(old(expired)@, reply@) as int;
            if at < old(expired)@.len() {
                &&& r == Some(time::elapsed(now, old(expired)@[at].1) as u64)
                &&& final(expired)@ == old(expired)@.remove(at)
            } else {
                &&& r is None
                &&& final(expired)@ == old(expired)@
            }
        }),
{
    let mut at: usize = 0;
    while at < expired.len()
        invariant
            at <= expired@.len(),
            expired@ == old(expired)@,
            forall|i: int|
                0 <= i < at ==> !protocol::answers(reply@, (#[trigger] expired@[i]).0, false),
        decreases expired@.len() - at,
    {
        if protocol::probe_reply_matches(reply, expired[at].0, false) {
            proof {
                lemma_answered_at(expired@, reply@, at as nat);
            }
            let entry: (u64, u64) = expired.remove(at);
            return Some(time::since(now, entry.1));
        }
        at = at + 1;
    }
    proof {
        lemma_answered_at(expired@, reply@, at as nat);
    }
    None
}

proof fn lemma_recent_bound(expired: Seq<(u64, u64)>, now: u64)
    ensures
        recent(expired, now).len() <= expired.len(),
        forall|i: int|
            0 <= i < recent(expired, now).len() ==> time::elapsed(
                now,
                (#[trigger] recent(expired, now)[i]).1,
            ) < LATE_REPLY_WINDOW,
    decreases expired.len(),
{
    if expired.len() > 0 {
        lemma_recent_bound(expired.drop_last(), now);
    }
}

/// Written-off probes never grow beyond the capacity, the newest one is always
/// among them, and of the others none is older than the window.
pub proof fn written_off_probes_are_bounded(
    expired: Seq<(u64, u64)>,
    sequence: u64,
    started: u64,
    now: u64,
    i: int,
)
    requires
        expired.len() <= LATE_REPLY_CAPACITY,
        0 <= i < remembered(expired, sequence, started, now).len() - 1,
    ensures
        remembered(expired, sequence, started, now).len() <= LATE_REPLY_CAPACITY,
        remembered(expired, sequence, started, now).last() == (sequence, started),
        time::elapsed(now, remembered(expired, sequence, started, now)[i].1) < LATE_REPLY_WINDOW,
{
    lemma_recent_bound(expired, now);
    let kept = recent(expired, now);
    if kept.len() >= LATE_REPLY_CAPACITY {
        assert(remembered(expired, sequence, started, now)[i] == kept[i + 1]);
    } else {
        assert(remembered(expired, sequence, started, now)[i] == kept[i]);
    }
}

/// An untagged reply is never credited to a written-off probe.
pub proof fn an_untagged_reply_is_never_credited(expired: Seq<(u64, u64)>)
    ensures
        answered_at(expired, protocol::pong_word()) == expired.len(),
    decreases expired.len(),
{
    if expired.len() > 0 {
        protocol::a_tagged_peer_is_never_downgraded(expired[0].0);
        an_untagged_reply_is_never_credited(expired.skip(1));
    }
}

/// Which paths carry a packet, path by path: those that were decided on and are
/// up; where none of those is up, all that are up; where none is up at all,
/// those that were decided on.
pub proof fn a_selection_is_made_path_by_path(decision: u64, healthy: u64, k: u64)
    requires
        k < 64,
    ensures
        bits::bit(selection(decision, healthy), k) == if exists|j: u64|
            j < 64 && bits::bit(decision, j) && #[trigger] bits::bit(healthy, j) {
            bits::bit(decision, k) && bits::bit(healthy, k)
        } else if exists|j: u64| j < 64 && #[trigger] bits::bit(healthy, j) {
            bits::bit(healthy, k)
        } else {
            bits::bit(decision, k)
        },
{
    bits::lemma_bit_and(decision, healthy, k);
    if decision & healthy != 0 {
        let j = bits::lemma_some_bit(decision & healthy);
        bits::lemma_bit_and(decision, healthy, j);
        assert(bits::bit(decision, j) && bits::bit(healthy, j));
    } else {
        assert forall|j: u64| j < 64 && bits::bit(decision, j) implies !#[trigger] bits::bit(
            healthy,
            j,
        ) by {
            bits::lemma_bit_and(decision, healthy, j);
            bits::lemma_bit_and(decision & healthy, 0, j);
        }
        if healthy != 0 {
            let j = bits::lemma_some_bit(healthy);
            assert(bits::bit(healthy, j));
        } else {
            assert forall|j: u64| j < 64 implies !#[trigger] bits::bit(healthy, j) by {
                bits::lemma_bit_and(healthy, 0, j);
            }
        }
    }
}

proof fn lemma_ids_mask(ids: Seq<Seq<char>>, k: u64)
    requires
        k < 64,
    ensures
        bits::bit(ids_mask(ids), k) <==> exists|i: int|
            0 <= i < ids.len() && text::parsed_number(#[trigger] ids[i], u32::MAX as nat) == Some(
                k as nat,
            ),
    decreases ids.len(),
{
    if ids.len() == 0 {
        bits::lemma_bit_and(0, 0, k);
    } else {
        let less = ids.drop_last();
        let last = ids[ids.len() - 1];
        assert(ids.last() == last);
        lemma_ids_mask(less, k);
        bits::lemma_bit_and(ids_mask(less), path_bit(last), k);
        lemma_path_bit(last, k);
        if bits::bit(ids_mask(less), k) {
            let i = choose|i: int|
                0 <= i < less.len() && text::parsed_number(#[trigger] less[i], u32::MAX as nat)
                    == Some(k as nat);
            assert(ids[i] == less[i]);
        }
        if exists|i: int|
            0 <= i < ids.len() && text::parsed_number(#[trigger] ids[i], u32::MAX as nat) == Some(
                k as nat,
            ) {
            let i = choose|i: int|
                0 <= i < ids.len() && text::parsed_number(#[trigger] ids[i], u32::MAX as nat)
                    == Some(k as nat);
            if i < less.len() {
                assert(less[i] == ids[i]);
            }
        }
    }
}

proof fn lemma_path_bit(id: Seq<char>, k: u64)
    requires
        k < 64,
    ensures
        bits::bit(path_bit(id), k) <==> text::parsed_number(id, u32::MAX as nat) == Some(k as nat),
{
    bits::lemma_bit_and(0, 0, k);
    if let Some(n) = text::parsed_number(id, u32::MAX as nat) {
        if n < 64 {
            bits::lemma_bit_set(0, n as u64, k);
            let one = 1u64 << (n as u64);
            assert(0u64 | one == one) by (bit_vector);
        }
    }
}

/// Whether each path is named by its place in the list, as a session names them.
pub open spec fn named_by_place(metrics: Seq<PathMetrics>) -> bool {
    metrics.len() <= 64 && forall|i: int|
        0 <= i < metrics.len() ==> (#[trigger] metrics[i]).id@ == text::decimal(i as nat)
}

/// The mask of a choice holds the paths that were chosen and no others.
pub proof fn a_mask_holds_what_was_chosen(
    metrics: Seq<PathMetrics>,
    choice: scheduler::Choice,
    fallback: u64,
    k: u64,
)
    requires
        named_by_place(metrics),
        k < 64,
        forall|i: int| scheduler::uses(choice, i) ==> 0 <= i < metrics.len(),
    ensures
        scheduler::used(choice) > 0 ==> (bits::bit(choice_mask(metrics, choice, fallback), k) <==>
            scheduler::uses(choice, k as int)),
        scheduler::used(choice) == 0 ==> choice_mask(metrics, choice, fallback) == fallback,
{
    match choice {
        scheduler::Choice::Drop => {},
        scheduler::Choice::Single(i) => {
            assert(scheduler::uses(choice, i));
            a_path_id_is_its_bit(i as nat, k);
            a_path_id_is_its_bit(i as nat, i as u64);
            bits::lemma_bit_and(path_bit(metrics[i].id@), 0, i as u64);
        },
        scheduler::Choice::Duplicate(places) => {
            let ids = scheduler::ids_of(metrics, places);
            lemma_ids_mask(ids, k);
            assert forall|i: int| 0 <= i < places.len() implies text::parsed_number(
                #[trigger] ids[i],
                u32::MAX as nat,
            ) == Some(places[i] as nat) && 0 <= places[i] < metrics.len() by {
                assert(scheduler::uses(choice, places[i]));
                text::lemma_decimal_reads_back(places[i] as nat);
            }
            if scheduler::uses(choice, k as int) {
                let i = choose|i: int| 0 <= i < places.len() && places[i] == k;
                assert(text::parsed_number(ids[i], u32::MAX as nat) == Some(k as nat));
            }
            if places.len() > 0 {
                let first = places[0] as u64;
                assert(text::parsed_number(ids[0], u32::MAX as nat) == Some(first as nat));
                lemma_ids_mask(ids, first);
                bits::lemma_bit_and(ids_mask(ids), 0, first);
            } else {
                assert(ids_mask(ids) == 0);
            }
        },
    }
}

/// The paths that carried traffic are handed to the next choice as those to be
/// favoured: each path of the mask by its name, and no other.
pub proof fn the_incumbents_are_those_in_use(metrics: Seq<PathMetrics>, mask: u64, i: int)
    requires
        named_by_place(metrics),
        0 <= i < metrics.len(),
    ensures
        ids_in(metrics, mask).contains(metrics[i].id@) <==> bits::bit(mask, i as u64),
{
    lemma_ids_in(metrics, metrics.len(), mask, i);
    assert(metrics.take(metrics.len() as int) =~= metrics);
}

proof fn lemma_ids_in(metrics: Seq<PathMetrics>, n: nat, mask: u64, i: int)
    requires
        named_by_place(metrics),
        0 <= i < metrics.len(),
        n <= metrics.len(),
    ensures
        ids_in(metrics.take(n as int), mask).contains(metrics[i].id@) <==> i < n && bits::bit(
            mask,
            i as u64,
        ),
    decreases n,
{
    let front = metrics.take(n as int);
    if n > 0 {
        let less = metrics.take(n - 1);
        assert(front.drop_last() =~= less);
        assert(front.last() == metrics[n - 1]);
        lemma_ids_in(metrics, (n - 1) as nat, mask, i);
        let id = metrics[n - 1].id@;
        let last = (n - 1) as u64;
        a_path_id_is_its_bit((n - 1) as nat, last);
        let one = 1u64 << last;
        assert((mask & one != 0) == bits::bit(mask, last)) by {
            bits::lemma_bit_set(mask, last, last);
        }
        let before = ids_in(less, mask);
        let all = ids_in(front, mask);
        let sought = metrics[i].id@;
        if id == sought {
            text::lemma_decimal_reads_back(i as nat);
            text::lemma_decimal_reads_back((n - 1) as nat);
            assert(i == n - 1);
        }
        if all != before {
            assert(all == before.push(id));
            if before.contains(sought) {
                let m = choose|m: int| 0 <= m < before.len() && before[m] == sought;
                assert(all[m] == sought);
            }
            if i == n - 1 {
                assert(all[before.len() as int] == sought);
            }
            if all.contains(sought) && !before.contains(sought) {
                let m = choose|m: int| 0 <= m < all.len() && all[m] == sought;
                if m < before.len() {
                    assert(before[m] == sought);
                }
            }
        }
    }
}

/// An answer makes a path reachable, by its latency and with no error; a loss
/// makes it unreachable and says why, and neither touches what else is known.
pub proof fn a_status_follows_its_probes(status: StatusModel, latency: u64, error: Seq<char>)
    requires
        status.packets_received < u64::MAX,
    ensures
        ({
            let up = status_updated(status, Ok(latency));
            let down = status_updated(status, Err(error));
            &&& up.reachable && up.latency == Some(latency) && up.last_error is None
            &&& up.packets_received == status.packets_received + 1
            &&& !down.reachable && down.last_error == Some(error)
            &&& down.latency == status.latency && down.packets_received == status.packets_received
            &&& up.route == status.route && down.route == status.route
            &&& up.packets_sent == status.packets_sent && down.packets_sent == status.packets_sent
            &&& up.probes_lost == status.probes_lost && down.probes_lost == status.probes_lost
        }),
{
}

/// A written-off probe is kept for three seconds, in order, and no longer.
pub proof fn a_written_off_probe_is_kept_for_three_seconds(
    expired: Seq<(u64, u64)>,
    probe: (u64, u64),
    now: u64,
)
    requires
        probe.1 <= now,
    ensures
        recent(expired.push(probe), now) == if now - probe.1 < 3_000_000_000 {
            recent(expired, now).push(probe)
        } else {
            recent(expired, now)
        },
        recent(Seq::<(u64, u64)>::empty(), now).len() == 0,
{
    assert(expired.push(probe).drop_last() =~= expired);
}

/// A late answer is credited to the probe it answers.
pub proof fn a_late_answer_finds_its_probe(expired: Seq<(u64, u64)>, i: int)
    requires
        0 <= i < expired.len(),
        forall|j: int| 0 <= j < i ==> (#[trigger] expired[j]).0 != expired[i].0,
    ensures
        answered_at(
            expired,
            protocol::response_bytes(protocol::request_bytes(expired[i].0))->0,
        ) == i,
    decreases i,
{
    let reply = protocol::response_bytes(protocol::request_bytes(expired[i].0))->0;
    protocol::a_tagged_reply_answers_only_its_own_probe(expired[i].0, expired[0].0, false);
    if i > 0 {
        assert(expired[0].0 != expired[i].0);
        let rest = expired.skip(1);
        assert(rest[i - 1] == expired[i]);
        assert forall|j: int| 0 <= j < i - 1 implies (#[trigger] rest[j]).0 != rest[i - 1].0 by {
            assert(rest[j] == expired[j + 1]);
        }
        a_late_answer_finds_its_probe(rest, i - 1);
    }
}

/// What a probe's result leads to: the paths that the strategy chooses among the
/// measurements with the result in them, with those in use favoured, and the
/// fallback where it chooses none. With duplication asked for and two paths up,
/// that is two paths.
pub proof fn a_result_leads_to_the_scheduler_s_choice(
    metrics: Seq<PathMetrics>,
    previous: u64,
    fallback: u64,
    index: usize,
    result: ProbeResult,
    strategy: Strategy,
    k: u64,
)
    requires
        named_by_place(metrics),
        index < metrics.len(),
        k < 64,
    ensures
        ({
            let after = after_result(metrics, index, result);
            let choice = scheduler::chosen(after, strategy, ids_in(after, previous));
            let mask = repicked(metrics, previous, fallback, index, result, strategy);
            &&& after.len() == metrics.len()
            &&& forall|i: int|
                0 <= i < metrics.len() && i != index ==> #[trigger] after[i] == metrics[i]
            &&& result matches ProbeResult::Answered(estimate) ==> after[index as int].active
                && after[index as int].estimate == Some(estimate)
                && after[index as int].consecutive_losses == 0
            &&& result is Lost && metrics[index as int].consecutive_losses >= 2
                ==> !after[index as int].active
            &&& scheduler::used(choice) > 0 ==> (bits::bit(mask, k) <==> scheduler::uses(
                choice,
                k as int,
            ))
            &&& scheduler::used(choice) == 0 ==> mask == fallback
        }),
{
    let after = after_result(metrics, index, result);
    assert forall|i: int| 0 <= i < after.len() implies (#[trigger] after[i]).id@ == text::decimal(
        i as nat,
    ) by {
        assert(metrics[i].id@ == text::decimal(i as nat));
    }
    let incumbent = ids_in(after, previous);
    let choice = scheduler::chosen(after, strategy, incumbent);
    assert forall|i: int| scheduler::uses(choice, i) implies 0 <= i < after.len() by {
        scheduler::a_choice_is_among_the_paths(after, strategy, incumbent, i);
    }
    a_mask_holds_what_was_chosen(after, choice, fallback, k);
}

/// Two masks that differ are reported as a move, from the one to the other.
pub proof fn a_move_is_reported(previous: u64, next: u64)
    ensures
        previous == next ==> moved_pick(previous, next) is None,
        previous != next ==> moved_pick(previous, next) == Some((previous, next)),
{
}

/// A decision that names no path falls back; any other is the mask of the paths
/// it names, each by its number.
pub proof fn a_decision_is_the_mask_of_its_paths(
    decision: Decision,
    fallback: u64,
    k: u64,
)
    requires
        k < 64,
    ensures
        decision is Drop ==> decided_mask(decision, fallback) == fallback,
        decision matches Decision::Single { path_id } ==> (text::parsed_number(
            path_id@,
            u32::MAX as nat,
        ) matches Some(n) ==> n < 64 ==> (bits::bit(decided_mask(decision, fallback), k) <==> k
            == n)),
        decision matches Decision::Duplicate { path_ids } ==> ids_mask(
            text::string_views(path_ids@),
        ) != 0 ==> (bits::bit(decided_mask(decision, fallback), k) <==> exists|i: int|
            0 <= i < path_ids@.len() && text::parsed_number(
                text::string_views(path_ids@)[i],
                u32::MAX as nat,
            ) == Some(k as nat)),
{
    match decision {
        Decision::Drop => {},
        Decision::Single { path_id } => {
            lemma_path_bit(path_id@, k);
            if let Some(n) = text::parsed_number(path_id@, u32::MAX as nat) {
                if n < 64 {
                    lemma_path_bit(path_id@, n as u64);
                    bits::lemma_bit_and(path_bit(path_id@), 0, n as u64);
                }
            }
        },
        Decision::Duplicate { path_ids } => {
            lemma_ids_mask(text::string_views(path_ids@), k);
        },
    }
}

/// The routes of a mask are named in order, by their numbers counted from one,
/// with a plus between two.
pub proof fn routes_are_named_in_order(mask: u64, k: u64)
    requires
        k < 64,
    ensures
        routes_from(mask, k) == if bits::bit(mask, k) {
            seq!['+'] + text::decimal(k as nat + 1) + routes_from(mask, (k + 1) as u64)
        } else {
            routes_from(mask, (k + 1) as u64)
        },
        routes_from(mask, 64).len() == 0,
        route_names(mask) == if routes_from(mask, 0).len() == 0 {
            "none"@
        } else {
            routes_from(mask, 0).skip(1)
        },
{
    reveal_strlit("+");
    assert("+"@ =~= seq!['+']);
}

/// No more than 32 written-off probes are kept: one more makes room by giving up
/// the oldest of those that still count.
pub proof fn the_oldest_written_off_probe_makes_room(
    expired: Seq<(u64, u64)>,
    sequence: u64,
    started: u64,
    now: u64,
)
    ensures
        ({
            let kept = recent(expired, now);
            let next = remembered(expired, sequence, started, now);
            &&& next.last() == (sequence, started)
            &&& kept.len() < 32 ==> next.drop_last() == kept
            &&& kept.len() >= 32 ==> next.drop_last() == kept.skip(1)
        }),
        forall|a: u64, b: nat| a + b <= u64::MAX ==> #[trigger] summed(a, b) == a + b,
        forall|a: u64, b: nat| a + b > u64::MAX ==> #[trigger] summed(a, b) == u64::MAX,
{
    let kept = recent(expired, now);
    let next = remembered(expired, sequence, started, now);
    if kept.len() >= 32 {
        assert(next.drop_last() =~= kept.skip(1));
    } else {
        assert(next.drop_last() =~= kept);
    }
}

} // verus!
