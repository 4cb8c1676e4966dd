//! What both path workers share: what the dispatcher hands them, the counters
//! they publish, and the bounded send that keeps a burst from starving the
//! probes and timers that decide whether a path is still alive.

use std::collections::VecDeque;
use vstd::prelude::*;

use crate::replay::MAX_REORDERING;
use crate::time;

verus! {

/// A packet on its way to a path.
#[derive(Debug, Clone)]
pub struct PathCommand {
    pub frame: Vec<u8>,
    /// When the scheduler handed this packet over. A packet that waited longer
    /// than [`PATH_QUEUE_MAX_AGE`] is worth less than the latency it would add
    /// to everything behind it, so the worker drops it instead of sending it.
    pub queued_at: u64,
}

/// The counters that the worker of one path publishes.
#[derive(Debug, Clone, Copy, PartialEq, Eq, Structural)]
pub struct PathCounters {
    pub iterations: u64,
    pub queue_depth: u64,
    /// Highest dispatcher queue depth observed during this session. The
    /// current depth is commonly back at zero by the time a periodic summary
    /// runs, so without a peak a short burst is invisible in the log.
    pub queue_peak: u64,
    pub dropped: u64,
    /// Why `dropped` moved. Kept separately so the next incident distinguishes
    /// dispatcher saturation, packets that became stale in a worker, and a
    /// saturated receive queue.
    pub queue_full_dropped: u64,
    pub stale_dropped: u64,
    pub inbound_dropped: u64,
    /// Longest interval between two worker iterations. A one-second CPU stall
    /// or a transport call that blocks past its deadline otherwise leaves no
    /// trace once the worker resumes.
    pub worker_gap_peak_ms: u64,
}

/// Counters that have counted nothing.
pub open spec fn no_counts() -> PathCounters {
    PathCounters {
        iterations: 0,
        queue_depth: 0,
        queue_peak: 0,
        dropped: 0,
        queue_full_dropped: 0,
        stale_dropped: 0,
        inbound_dropped: 0,
        worker_gap_peak_ms: 0,
    }
}

impl Default for PathCounters {
    fn default() -> (r: Self)
        ensures
            r == no_counts(),
    {
        PathCounters {
            iterations: 0,
            queue_depth: 0,
            queue_peak: 0,
            dropped: 0,
            queue_full_dropped: 0,
            stale_dropped: 0,
            inbound_dropped: 0,
            worker_gap_peak_ms: 0,
        }
    }
}

/// How long a worker waits on its socket per iteration. Short, because an
/// outbound packet handed over during the wait is only sent once it ends.
pub const WORKER_RECEIVE_TIMEOUT: u64 = 1_000_000;

/// Outbound packets a path worker sends before it goes back to servicing
/// inbound frames, probes and timers. Draining the whole queue first is what
/// lets a burst delay the replies that decide whether the path is still alive.
///
/// Sized so the cap bounds starvation without bounding throughput. A worker
/// iterates at least once per [`WORKER_RECEIVE_TIMEOUT`], so this is a floor of
/// ~128k packets per second per path -- well past any line rate this runs on --
/// while the batch itself is a few hundred microseconds of sending, an order of
/// magnitude under the wait it sits next to.
pub const PATH_SEND_BATCH: usize = 128;

/// Outbound queue depth per path. At [`PATH_SEND_BATCH`] this drains in about
/// 8 ms, which is the most latency the queue itself can add before
/// [`PATH_QUEUE_MAX_AGE`] starts shedding. Past that, holding a packet costs
/// more latency than dropping it saves.
pub const PATH_QUEUE_DEPTH: usize = 1024;

/// Inbound queue depth shared by every path worker.
pub const INBOUND_QUEUE_DEPTH: usize = 2048;

/// How long a queued packet stays worth sending.
pub const PATH_QUEUE_MAX_AGE: u64 = 50_000_000;

/// A worker normally returns to its loop every millisecond. Only gaps big enough
/// to be felt in a game are reported, and the warning is rate-limited here
/// because a persistently blocked transport would otherwise produce a new value
/// (and defeat identical-message collapsing) on every iteration.
pub const WORKER_GAP_WARN: u64 = 100_000_000;

pub const WORKER_GAP_LOG_INTERVAL: u64 = 30_000_000_000;

/// A frame is numbered when it is queued, but a probe is numbered later and sent
/// immediately, so a probe overtakes everything still in the queue. The relay
/// still remembers the oldest of those when it arrives.
pub proof fn a_full_queue_reorders_no_further_than_is_remembered()
    ensures
        PATH_QUEUE_DEPTH <= MAX_REORDERING,
{
}

/// Whether a packet has waited too long.
pub open spec fn is_stale(command: PathCommand, now: u64) -> bool {
    time::elapsed(now, command.queued_at) > PATH_QUEUE_MAX_AGE
}

/// The frames of some packets that are still worth sending, each judged by the
/// time it is taken.
pub open spec fn fresh_frames(commands: Seq<PathCommand>, readings: Seq<u64>) -> Seq<Seq<u8>>
    decreases commands.len(),
{
    if commands.len() == 0 {
        Seq::<Seq<u8>>::empty()
    } else {
        let before = fresh_frames(commands.drop_last(), readings);
        if is_stale(commands.last(), readings[commands.len() - 1]) {
            before
        } else {
            before.push(commands.last().frame@)
        }
    }
}

/// How many of one batch are taken.
pub open spec fn batch_size(queued: nat) -> nat {
    if queued < PATH_SEND_BATCH {
        queued
    } else {
        PATH_SEND_BATCH as nat
    }
}

/// A counter that wraps, as the counters shared by the workers do.
#[verifier::opaque]
pub open spec fn plus(counter: u64, n: nat) -> u64 {
    ((counter + n) % 0x1_0000_0000_0000_0000) as u64
}

/// A counter that wraps, counted down.
#[verifier::opaque]
pub open spec fn minus(counter: u64, n: nat) -> u64 {
    ((counter - n) % 0x1_0000_0000_0000_0000) as u64
}

/// Counts up.
pub fn count_up(counter: u64, n: u64) -> (r: u64)
    ensures
        r == plus(counter, n as nat),
{
    reveal(plus);
    counter.wrapping_add(n)
}

/// Counts one down.
pub fn count_down(counter: u64) -> (r: u64)
    ensures
        r == minus(counter, 1),
{
    reveal(minus);
    counter.wrapping_sub(1)
}

proof fn lemma_counting(counter: u64, n: nat)
    ensures
        plus(plus(counter, n), 1) == plus(counter, n + 1),
        minus(minus(counter, n), 1) == minus(counter, n + 1),
        plus(counter, 0) == counter,
        minus(counter, 0) == counter,
{
    reveal(plus);
    reveal(minus);
}

proof fn lemma_fresh_bound(commands: Seq<PathCommand>, readings: Seq<u64>)
    ensures
        fresh_frames(commands, readings).len() <= commands.len(),
    decreases commands.len(),
{
    if commands.len() > 0 {
        lemma_fresh_bound(commands.drop_last(), readings);
    }
}

/// What taking one packet of a batch comes to.
pub enum Drained {
    /// It is to be sent before the next one is taken.
    Frame(Vec<u8>),
    /// It waited too long and is shed.
    Stale,
    /// The batch is over: it is full, or nothing is queued.
    Over,
}

/// A batch on its way out.
#[verifier::ext_equal]
pub struct BatchState {
    pub queue: Seq<PathCommand>,
    pub counters: PathCounters,
    /// How many packets the batch has taken.
    pub taken: nat,
    /// What was sent, in order.
    pub sent: Seq<Seq<u8>>,
}

impl BatchState {
    pub open spec fn is_over(self) -> bool {
        self.taken >= PATH_SEND_BATCH || self.queue.len() == 0
    }

    /// The batch once its next packet was taken at `now`.
    pub open spec fn stepped(self, now: u64) -> BatchState {
        if self.is_over() {
            self
        } else if is_stale(self.queue[0], now) {
            BatchState {
                queue: self.queue.skip(1),
                counters: PathCounters {
                    queue_depth: minus(self.counters.queue_depth, 1),
                    dropped: plus(self.counters.dropped, 1),
                    stale_dropped: plus(self.counters.stale_dropped, 1),
                    ..self.counters
                },
                taken: self.taken + 1,
                sent: self.sent,
            }
        } else {
            BatchState {
                queue: self.queue.skip(1),
                counters: PathCounters {
                    queue_depth: minus(self.counters.queue_depth, 1),
                    ..self.counters
                },
                taken: self.taken + 1,
                sent: self.sent.push(self.queue[0].frame@),
            }
        }
    }

    /// The batch once a packet was taken at each of some times.
    pub open spec fn run(self, readings: Seq<u64>) -> BatchState
        decreases readings.len(),
    {
        if readings.len() == 0 {
            self
        } else {
            self.run(readings.drop_last()).stepped(readings.last())
        }
    }
}

/// Takes the next packet of a batch that has taken `taken` so far: at most
/// [`PATH_SEND_BATCH`] go out before the caller services inbound frames, probes
/// and timers. One that has waited past [`PATH_QUEUE_MAX_AGE`] by now is shed,
/// so a packet that goes stale behind a slow send is not sent late.
pub fn drain_send_queue(
    queue: &mut VecDeque<PathCommand>,
    counters: &mut PathCounters,
    taken: usize,
    now: u64,
) -> (r: Drained)
    ensures
        ({
            let before = BatchState {
                queue: old(queue)@,
                counters: *old(counters),
                taken: taken as nat,
                sent: Seq::<Seq<u8>>::empty(),
            };
            let after = before.stepped(now);
            &&& final(queue)@ == after.queue
            &&& *final(counters) == after.counters
            &&& r is Over <==> before.is_over()
            &&& r is Stale <==> !before.is_over() && is_stale(old(queue)@[0], now)
            &&& r matches Drained::Frame(frame) ==> frame@ == old(queue)@[0].frame@
        }),
{
    if taken >= PATH_SEND_BATCH {
        return Drained::Over;
    }
    let ghost all = queue@;
    match queue.pop_front() {
        Some(command) => {
            assert(all.subrange(1, all.len() as int) =~= all.skip(1));
            counters.queue_depth = count_down(counters.queue_depth);
            if time::since(now, command.queued_at) > PATH_QUEUE_MAX_AGE {
                counters.dropped = count_up(counters.dropped, 1);
                counters.stale_dropped = count_up(counters.stale_dropped, 1);
                Drained::Stale
            } else {
                Drained::Frame(command.frame)
            }
        },
        None => Drained::Over,
    }
}

/// Puts a packet into a queue that has room, and hands it back otherwise: a
/// full queue means the path is already behind. Shedding the newest packet keeps
/// the backlog bounded: game traffic is stale by the time it would drain, and
/// TCP retransmits.
pub fn try_send(queue: &mut VecDeque<PathCommand>, capacity: usize, command: PathCommand) -> (r:
    Result<(), PathCommand>)
    ensures
        r is Ok <==> old(queue)@.len() < capacity,
        r is Ok ==> final(queue)@ == old(queue)@.push(command),
        r matches Err(back) ==> back == command && final(queue)@ == old(queue)@,
{
    if queue.len() < capacity {
        queue.push_back(command);
        Ok(())
    } else {
        Err(command)
    }
}

/// Shared by the workers: how long ago the last iteration began.
#[derive(Debug, Clone, Copy, PartialEq, Eq, Structural)]
pub struct GapWatch {
    pub last_iteration: u64,
    pub last_log: Option<u64>,
}

impl GapWatch {
    /// Whether a gap is worth a line now.
    pub open spec fn reports(self, now: u64) -> bool {
        time::elapsed(now, self.last_iteration) >= WORKER_GAP_WARN && match self.last_log {
            Some(logged) => time::elapsed(now, logged) >= WORKER_GAP_LOG_INTERVAL,
            None => true,
        }
    }

    pub open spec fn begun(self, now: u64) -> GapWatch {
        GapWatch {
            last_iteration: now,
            last_log: if self.reports(now) {
                Some(now)
            } else {
                self.last_log
            },
        }
    }

    pub fn new(now: u64) -> (r: Self)
        ensures
            r == (GapWatch { last_iteration: now, last_log: None }),
    {
        GapWatch { last_iteration: now, last_log: None }
    }

    /// An iteration begins. The gap since the last one, in milliseconds, where
    /// it is worth a line.
    pub fn begin(&mut self, counters: &mut PathCounters, now: u64) -> (r: Option<u64>)
        ensures
            *final(self) == old(self).begun(now),
            ({
                let gap = time::elapsed(now, old(self).last_iteration) / 1_000_000;
                &&& r == if old(self).reports(now) {
                    Some(gap as u64)
                } else {
                    None
                }
                &&& *final(counters) == (PathCounters {
                    iterations: plus(old(counters).iterations, 1),
                    worker_gap_peak_ms: if gap > old(counters).worker_gap_peak_ms {
                        gap as u64
                    } else {
                        old(counters).worker_gap_peak_ms
                    },
                    ..*old(counters)
                })
            }),
    {
        let gap: u64 = time::since(now, self.last_iteration);
        let gap_ms: u64 = gap / 1_000_000;
        if gap_ms > counters.worker_gap_peak_ms {
            counters.worker_gap_peak_ms = gap_ms;
        }
        counters.iterations = count_up(counters.iterations, 1);
        let quiet: bool = match self.last_log {
            Some(logged) => time::since(now, logged) < WORKER_GAP_LOG_INTERVAL,
            None => false,
        };
        self.last_iteration = now;
        if gap >= WORKER_GAP_WARN && !quiet {
            self.last_log = Some(now);
            Some(gap_ms)
        } else {
            None
        }
    }
}

/// A burst never keeps a worker from its probes and timers: however often it is
/// asked for the next packet, a batch takes no more than its share of what was
/// queued and leaves the rest in order. Each packet it takes is sent unless it
/// was stale at the very time it was taken, and is counted.
pub proof fn a_burst_does_not_starve_the_probes(
    queue: Seq<PathCommand>,
    counters: PathCounters,
    readings: Seq<u64>,
)
    ensures
        ({
            let start = BatchState { queue, counters, taken: 0, sent: Seq::<Seq<u8>>::empty() };
            let end = start.run(readings);
            let n = if readings.len() < batch_size(queue.len()) {
                readings.len()
            } else {
                batch_size(queue.len())
            };
            let stale = (n - end.sent.len()) as nat;
            &&& end.taken == n
            &&& n <= PATH_SEND_BATCH
            &&& end.queue == queue.skip(n as int)
            &&& end.sent == fresh_frames(queue.take(n as int), readings)
            &&& end.counters == (PathCounters {
                queue_depth: minus(counters.queue_depth, n),
                dropped: plus(counters.dropped, stale),
                stale_dropped: plus(counters.stale_dropped, stale),
                ..counters
            })
        }),
    decreases readings.len(),
{
    let start = BatchState { queue, counters, taken: 0, sent: Seq::<Seq<u8>>::empty() };
    if readings.len() == 0 {
        lemma_counting(counters.queue_depth, 0);
        lemma_counting(counters.dropped, 0);
        lemma_counting(counters.stale_dropped, 0);
        assert(queue.take(0) =~= Seq::<PathCommand>::empty());
        assert(queue.skip(0) =~= queue);
    } else {
        let earlier = readings.drop_last();
        a_burst_does_not_starve_the_probes(queue, counters, earlier);
        let before = start.run(earlier);
        let n = before.taken;
        lemma_same_frames(queue.take(n as int), earlier, readings);
        lemma_fresh_bound(queue.take(n as int), readings);
        if !before.is_over() {
            assert(n == earlier.len());
            assert(before.queue[0] == queue[n as int]);
            assert(before.queue.skip(1) =~= queue.skip(n as int + 1));
            assert(queue.take(n as int + 1).drop_last() =~= queue.take(n as int));
            assert(queue.take(n as int + 1).last() == queue[n as int]);
            lemma_counting(counters.queue_depth, n);
            lemma_counting(counters.dropped, (n - before.sent.len()) as nat);
            lemma_counting(counters.stale_dropped, (n - before.sent.len()) as nat);
        }
    }
}

/// Times past the last packet do not matter.
proof fn lemma_same_frames(commands: Seq<PathCommand>, a: Seq<u64>, b: Seq<u64>)
    requires
        commands.len() <= a.len() <= b.len(),
        a == b.take(a.len() as int),
    ensures
        fresh_frames(commands, a) == fresh_frames(commands, b),
    decreases commands.len(),
{
    if commands.len() > 0 {
        lemma_same_frames(commands.drop_last(), a, b);
        assert(a[commands.len() - 1] == b[commands.len() - 1]);
    }
}

/// A queued packet is sent while it has waited no more than 50 milliseconds and
/// is shed, and counted as shed, once it has waited longer; a batch ends after
/// 128 packets.
pub proof fn a_packet_is_sent_while_it_is_fresh(batch: BatchState, now: u64)
    requires
        batch.queue.len() > 0,
        batch.queue[0].queued_at <= now,
        batch.counters.queue_depth > 0,
        batch.counters.dropped < u64::MAX,
        batch.counters.stale_dropped < u64::MAX,
    ensures
        ({
            let next = batch.stepped(now);
            let waited = now - batch.queue[0].queued_at;
            &&& batch.taken >= 128 ==> next == batch
            &&& batch.taken < 128 ==> {
                &&& next.queue == batch.queue.skip(1)
                &&& next.taken == batch.taken + 1
                &&& next.counters.queue_depth == batch.counters.queue_depth - 1
                &&& waited <= 50_000_000 ==> next.sent == batch.sent.push(batch.queue[0].frame@)
                    && next.counters.dropped == batch.counters.dropped
                    && next.counters.stale_dropped == batch.counters.stale_dropped
                &&& waited > 50_000_000 ==> next.sent == batch.sent && next.counters.dropped
                    == batch.counters.dropped + 1 && next.counters.stale_dropped
                    == batch.counters.stale_dropped + 1
            }
        }),
{
    lemma_counts_by_one(batch.counters.queue_depth);
    lemma_counts_by_one(batch.counters.dropped);
    lemma_counts_by_one(batch.counters.stale_dropped);
}

/// A gap of 100 milliseconds or more is reported, but no second one within 30
/// seconds of a report.
pub proof fn a_gap_is_reported_now_and_then(watch: GapWatch, now: u64, again: u64)
    requires
        watch.last_iteration <= now <= again,
    ensures
        watch.last_log is None ==> (watch.reports(now) <==> now - watch.last_iteration
            >= 100_000_000),
        watch.reports(now) && again - now < 30_000_000_000 ==> !watch.begun(now).reports(again),
        watch.reports(now) && again - now >= 30_000_000_000 ==> watch.begun(now).reports(again),
        watch.begun(now).last_iteration == now,
{
}

/// A counter that has room counts as numbers do.
pub proof fn lemma_counts_by_one(counter: u64)
    ensures
        counter < u64::MAX ==> plus(counter, 1) == counter + 1,
        counter > 0 ==> minus(counter, 1) == counter - 1,
{
    reveal(plus);
    reveal(minus);
    if counter < u64::MAX {
        vstd::arithmetic::div_mod::lemma_small_mod(
            (counter + 1) as nat,
            0x1_0000_0000_0000_0000,
        );
    }
    if counter > 0 {
        vstd::arithmetic::div_mod::lemma_small_mod(
            (counter - 1) as nat,
            0x1_0000_0000_0000_0000,
        );
    }
}

} // verus!
