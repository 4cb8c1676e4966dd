//! Replay protection for sealed frames.
//!
//! A session numbers every frame from one counter so the relay can recognise
//! the same packet arriving down two paths and forward only the first copy. The
//! receiver therefore needs a window: accept a sequence once, reject it if it
//! comes back, and reject anything so old it has fallen out of memory.
//!
//! The window has to be wide, because in this system a frame's sequence says
//! very little about when it will arrive:
//!
//! - A data frame is numbered when the capture layer hands it over, then waits
//!   in its path's send queue. A control probe is numbered later but sent
//!   straight away, so it overtakes every frame still queued ahead of it.
//! - Paths have different latencies, so a frame sent earlier on a slow path can
//!   land well after frames sent later on a fast one.
//!
//! With a 64-entry window either of those silently drops real traffic as soon
//! as a queue is more than 64 deep, which shows up as unexplained packet loss
//! and unanswered health probes rather than as anything to do with replay.

use vstd::prelude::*;

use crate::bits;

verus! {

/// Sequences the window remembers.
///
/// Sized for the worst reordering the transport can produce: a full outbound
/// queue on one path overtaken by a probe from another. It is a power of two so
/// the index is a mask, and costs 1 KiB per window.
pub const WINDOW: u64 = 8192;

/// Most out-of-order sequences the sending side can produce.
///
/// The sender's deepest outbound queue sets this: a probe numbered after every
/// frame in that queue is transmitted before them, so the window has to still
/// remember the oldest of them when it arrives.
pub const MAX_REORDERING: u64 = 2048;

/// Sliding replay window over a monotonically allocated sequence space.
///
/// The bitmap is circular and indexed by the sequence itself, so advancing does
/// not shift anything: only the range being skipped over is cleared, which is a
/// single bit in the common case.
#[derive(Clone, Copy)]
pub struct ReplayWindow {
    highest: u64,
    seen: [u64; 128],
    initialized: bool,
}

/// Whether the slot of `sequence` is marked in a circular bitmap.
spec fn marked(seen: Seq<u64>, sequence: u64) -> bool {
    bits::bit(seen[(sequence % WINDOW / 64) as int], sequence % 64)
}

impl ReplayWindow {
    /// The newest sequence accepted so far.
    pub closed spec fn newest(&self) -> u64 {
        self.highest
    }

    /// Whether any sequence has been accepted yet.
    pub closed spec fn started(&self) -> bool {
        self.initialized
    }

    /// Whether the window remembers having accepted `sequence`.
    pub closed spec fn holds(&self, sequence: u64) -> bool {
        self.initialized && sequence <= self.highest && self.highest - sequence < WINDOW && marked(
            self.seen@,
            sequence,
        )
    }

    /// A window that has seen nothing remembers nothing.
    pub closed spec fn wf(&self) -> bool {
        !self.initialized ==> self.highest == 0 && forall|i: int|
            0 <= i < 128 ==> self.seen@[i] == 0
    }

    /// Whether the window would accept `sequence`: it is the first, newer than
    /// all so far, or inside the window and not seen before.
    pub open spec fn accepts(&self, sequence: u64) -> bool {
        !self.started() || sequence > self.newest() || (self.newest() - sequence < WINDOW
            && !self.holds(sequence))
    }

    /// What the window is once `sequence` has been offered to it.
    pub open spec fn offered(&self, sequence: u64, next: &ReplayWindow) -> bool {
        if self.accepts(sequence) {
            &&& next.started()
            &&& next.newest() == if !self.started() || sequence > self.newest() {
                sequence
            } else {
                self.newest()
            }
            &&& forall|x: u64| #[trigger]
                next.holds(x) <==> (x == sequence || self.holds(x)) && x <= next.newest()
                    && next.newest() - x < WINDOW
        } else {
            next == self
        }
    }
}

impl Default for ReplayWindow {
    fn default() -> (window: Self)
        ensures
            window.wf(),
            !window.started(),
            window.newest() == 0,
            forall|x: u64| !window.holds(x),
    {
        ReplayWindow { highest: 0, seen: [0u64; 128], initialized: false }
    }
}

proof fn lemma_slots_differ(x: u64, y: u64)
    requires
        x != y,
        x - y < WINDOW,
        y - x < WINDOW,
    ensures
        x % WINDOW / 64 != y % WINDOW / 64 || x % 64 != y % 64,
{
    if x % WINDOW / 64 == y % WINDOW / 64 && x % 64 == y % 64 {
        assert(x % WINDOW % 64 == x % 64);
        assert(y % WINDOW % 64 == y % 64);
        assert(x % WINDOW == y % WINDOW);
        assert(false);
    }
}

impl ReplayWindow {
    fn is_set(&self, sequence: u64) -> (r: bool)
        ensures
            r == marked(self.seen@, sequence),
    {
        let word: usize = (sequence % WINDOW / 64) as usize;
        let b: u64 = sequence % 64;
        proof {
            bits::lemma_bit_set(self.seen@[word as int], b, 0);
        }
        self.seen[word] & (1u64 << b) != 0
    }

    fn set(&mut self, sequence: u64)
        ensures
            final(self).highest == old(self).highest,
            final(self).initialized == old(self).initialized,
            marked(final(self).seen@, sequence),
            forall|x: u64|
                x != sequence && x - sequence < WINDOW && sequence - x < WINDOW
                    ==> #[trigger] marked(final(self).seen@, x) == marked(old(self).seen@, x),
    {
        let word: usize = (sequence % WINDOW / 64) as usize;
        let b: u64 = sequence % 64;
        let ghost before = self.seen@;
        let value: u64 = self.seen[word] | (1u64 << b);
        self.seen[word] = value;
        proof {
            bits::lemma_bit_set(before[word as int], b, b);
            assert forall|x: u64|
                x != sequence && x - sequence < WINDOW && sequence - x
                    < WINDOW implies #[trigger] marked(self.seen@, x) == marked(before, x) by {
                lemma_slots_differ(x, sequence);
                bits::lemma_bit_set(before[word as int], b, x % 64);
            }
        }
    }

    fn clear(&mut self, sequence: u64)
        ensures
            final(self).highest == old(self).highest,
            final(self).initialized == old(self).initialized,
            !marked(final(self).seen@, sequence),
            forall|x: u64|
                x != sequence && x - sequence < WINDOW && sequence - x < WINDOW
                    ==> #[trigger] marked(final(self).seen@, x) == marked(old(self).seen@, x),
    {
        let word: usize = (sequence % WINDOW / 64) as usize;
        let b: u64 = sequence % 64;
        let ghost before = self.seen@;
        let value: u64 = self.seen[word] & !(1u64 << b);
        self.seen[word] = value;
        proof {
            bits::lemma_bit_clear(before[word as int], b, b);
            assert forall|x: u64|
                x != sequence && x - sequence < WINDOW && sequence - x
                    < WINDOW implies #[trigger] marked(self.seen@, x) == marked(before, x) by {
                lemma_slots_differ(x, sequence);
                bits::lemma_bit_clear(before[word as int], b, x % 64);
            }
        }
    }

    /// Whether `sequence` would be accepted, without recording it.
    pub fn would_accept(&self, sequence: u64) -> (r: bool)
        requires
            self.wf(),
        ensures
            r == self.accepts(sequence),
    {
        !self.initialized || sequence > self.highest || (self.highest - sequence < WINDOW
            && !self.is_set(sequence))
    }

    /// Records `sequence` and reports whether it is the first time it has been
    /// seen. A repeat, or anything [`WINDOW`] or more behind the newest sequence
    /// so far, is rejected.
    pub fn accept(&mut self, sequence: u64) -> (accepted: bool)
        requires
            old(self).wf(),
        ensures
            final(self).wf(),
            accepted == old(self).accepts(sequence),
            old(self).offered(sequence, final(self)),
    {
        let ghost before = *self;
        if !self.initialized {
            self.initialized = true;
            self.highest = sequence;
            self.set(sequence);
            proof {
                assert forall|x: u64| #[trigger]
                    self.holds(x) <==> (x == sequence || before.holds(x)) && x <= self.newest()
                        && self.newest() - x < WINDOW by {
                    if x != sequence && x <= sequence && sequence - x < WINDOW {
                        bits::lemma_bit_set(0, 0, x % 64);
                        assert(marked(self.seen@, x) == marked(before.seen@, x));
                    }
                }
            }
            return true;
        }
        if sequence > self.highest {
            let advance: u64 = sequence - self.highest;
            if advance >= WINDOW {
                // Nothing recorded is still inside the window.
                self.seen = [0u64; 128];
                proof {
                    assert forall|x: u64| !#[trigger] marked(self.seen@, x) by {
                        bits::lemma_bit_set(0, 0, x % 64);
                    }
                }
            } else {
                // Only the skipped sequences need forgetting; every other slot
                // still refers to a sequence inside the new window.
                let mut skipped: u64 = self.highest + 1;
                while skipped < sequence
                    invariant
                        before.highest < skipped <= sequence,
                        sequence - before.highest < WINDOW,
                        self.highest == before.highest,
                        self.initialized,
                        before.initialized,
                        forall|x: u64|
                            before.highest < x < skipped ==> !#[trigger] marked(self.seen@, x),
                        forall|x: u64|
                            x <= before.highest && sequence - x < WINDOW ==> #[trigger] marked(
                                self.seen@,
                                x,
                            ) == marked(before.seen@, x),
                    decreases sequence - skipped,
                {
                    let ghost previous = self.seen@;
                    self.clear(skipped);
                    proof {
                        assert forall|x: u64|
                            before.highest < x < skipped + 1 implies !#[trigger] marked(
                            self.seen@,
                            x,
                        ) by {
                            if x < skipped {
                                assert(!marked(previous, x));
                            }
                        }
                        assert forall|x: u64|
                            x <= before.highest && sequence - x < WINDOW implies #[trigger] marked(
                            self.seen@,
                            x,
                        ) == marked(before.seen@, x) by {
                            assert(marked(previous, x) == marked(before.seen@, x));
                        }
                    }
                    skipped = skipped + 1;
                }
            }
            let ghost cleared = *self;
            self.highest = sequence;
            self.set(sequence);
            proof {
                assert forall|x: u64| #[trigger]
                    self.holds(x) <==> (x == sequence || before.holds(x)) && x <= self.newest()
                        && self.newest() - x < WINDOW by {
                    if x < sequence && sequence - x < WINDOW {
                        assert(marked(self.seen@, x) == marked(cleared.seen@, x));
                        if x > before.highest {
                            assert(!marked(cleared.seen@, x));
                        }
                    }
                }
            }
            return true;
        }
        if self.highest - sequence >= WINDOW || self.is_set(sequence) {
            return false;
        }
        self.set(sequence);
        proof {
            assert forall|x: u64| #[trigger]
                self.holds(x) <==> (x == sequence || before.holds(x)) && x <= self.newest()
                    && self.newest() - x < WINDOW by {
                if x != sequence && x <= self.highest && self.highest - x < WINDOW {
                    assert(marked(self.seen@, x) == marked(before.seen@, x));
                }
            }
        }
        true
    }

    /// The newest sequence accepted so far.
    pub fn highest(&self) -> (r: u64)
        ensures
            r == self.newest(),
    {
        self.highest
    }
}

/// Whether `windows` are the states of a replay window to which `sequences` are
/// offered in turn.
pub open spec fn window_run(windows: Seq<ReplayWindow>, sequences: Seq<u64>) -> bool {
    &&& windows.len() == sequences.len() + 1
    &&& forall|i: int|
        #![trigger windows[i]]
        0 <= i < sequences.len() ==> windows[i].offered(sequences[i], &windows[i + 1])
}

proof fn lemma_window_remembers(windows: Seq<ReplayWindow>, sequences: Seq<u64>, i: int, j: int)
    requires
        window_run(windows, sequences),
        0 <= i < j < windows.len(),
        windows[i].accepts(sequences[i]),
    ensures
        windows[j].started(),
        sequences[i] <= windows[j].newest(),
        windows[j].holds(sequences[i]) || windows[j].newest() - sequences[i] >= WINDOW,
    decreases j - i,
{
    assert(windows[j - 1].offered(sequences[j - 1], &windows[j]));
    if j > i + 1 {
        lemma_window_remembers(windows, sequences, i, j - 1);
    }
    assert(windows[j].holds(sequences[i]) || true);
}

/// A sequence is accepted once and never again, whatever comes in between.
pub proof fn a_sequence_is_accepted_at_most_once(
    windows: Seq<ReplayWindow>,
    sequences: Seq<u64>,
    i: int,
    j: int,
)
    requires
        window_run(windows, sequences),
        0 <= i < j < sequences.len(),
        sequences[i] == sequences[j],
        windows[i].accepts(sequences[i]),
    ensures
        !windows[j].accepts(sequences[j]),
{
    lemma_window_remembers(windows, sequences, i, j);
}

/// A run of a fresh window holds only sequences that were offered to it, and
/// its newest sequence is one of them.
proof fn lemma_holds_only_offered(windows: Seq<ReplayWindow>, sequences: Seq<u64>, n: int, x: u64)
    requires
        window_run(windows, sequences),
        !windows[0].started(),
        forall|y: u64| !windows[0].holds(y),
        0 <= n < windows.len(),
        windows[n].holds(x),
    ensures
        sequences.take(n).contains(x),
    decreases n,
{
    if n > 0 {
        assert(windows[n - 1].offered(sequences[n - 1], &windows[n]));
        if x == sequences[n - 1] && windows[n - 1].accepts(sequences[n - 1]) {
            assert(sequences.take(n)[n - 1] == x);
        } else {
            lemma_holds_only_offered(windows, sequences, n - 1, x);
            let earlier = sequences.take(n - 1);
            let k = choose|k: int| 0 <= k < earlier.len() && earlier[k] == x;
            assert(sequences.take(n)[k] == x);
        }
    }
}

/// Reordering inside the window costs nothing: a sequence that has not been
/// offered before is accepted as long as it is less than [`WINDOW`] behind the
/// newest one.
pub proof fn a_late_sequence_is_accepted_if_it_is_new(
    windows: Seq<ReplayWindow>,
    sequences: Seq<u64>,
    n: int,
)
    requires
        window_run(windows, sequences),
        !windows[0].started(),
        forall|y: u64| !windows[0].holds(y),
        0 <= n < sequences.len(),
        !sequences.take(n).contains(sequences[n]),
        windows[n].newest() - sequences[n] < WINDOW,
    ensures
        windows[n].accepts(sequences[n]),
{
    if windows[n].holds(sequences[n]) {
        lemma_holds_only_offered(windows, sequences, n, sequences[n]);
    }
}

/// The window leaves room above the worst reordering the sender can produce.
pub proof fn the_window_outlasts_the_worst_reordering()
    ensures
        WINDOW >= MAX_REORDERING * 2,
{
}

/// A sequence that is 8192 or more behind the newest is refused; the first one
/// there is and any newer than the newest are taken.
pub proof fn only_the_near_past_is_taken(window: ReplayWindow, sequence: u64)
    ensures
        window.started() && sequence <= window.newest() && window.newest() - sequence >= 8192
            ==> !window.accepts(sequence),
        !window.started() ==> window.accepts(sequence),
        sequence > window.newest() ==> window.accepts(sequence),
        window.started() && sequence <= window.newest() && window.newest() - sequence < 8192 ==> (
        window.accepts(sequence) <==> !window.holds(sequence)),
{
}

/// Taking a sequence remembers it and, as long as they are near, all that were
/// taken before; refusing one changes nothing.
pub proof fn what_was_taken_is_remembered(
    window: ReplayWindow,
    next: ReplayWindow,
    sequence: u64,
    other: u64,
)
    requires
        window.offered(sequence, &next),
    ensures
        !window.accepts(sequence) ==> next == window,
        window.accepts(sequence) ==> {
            &&& next.newest() >= sequence
            &&& next.newest() - sequence < 8192 ==> next.holds(sequence)
            &&& window.holds(other) && other <= next.newest() && next.newest() - other < 8192
                ==> next.holds(other)
            &&& next.holds(other) ==> other == sequence || window.holds(other)
            &&& window.started() ==> next.newest() >= window.newest()
            &&& next.newest() == sequence || (window.started() && next.newest()
                == window.newest())
        },
{
    if window.accepts(sequence) {
        assert(next.holds(sequence) <==> (sequence == sequence || window.holds(sequence))
            && sequence <= next.newest() && next.newest() - sequence < WINDOW);
        assert(next.holds(other) <==> (other == sequence || window.holds(other)) && other
            <= next.newest() && next.newest() - other < WINDOW);
    }
}

} // verus!
