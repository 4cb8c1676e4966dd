//! The stream underneath an OpenVPN session: framing, and the queue in front of
//! the socket.
//!
//! OpenVPN is a datagram protocol whichever transport carries it. Over UDP each
//! packet is a datagram; over TCP each is preceded by its length, so the stream
//! can be cut back into the same packets. Everything above this module is
//! written once and works either way.

use std::collections::VecDeque;
use vstd::prelude::*;
use vstd::slice::{slice_subrange, slice_to_vec};
use vstd::string::StringExecFns;

use crate::bytes;
use crate::time;

verus! {

/// A receive buffer large enough that a burst of inbound traffic is not dropped
/// while the engine is between reads.
///
/// This preserves bursts between reads; it does not bound receive-side latency.
pub const RECEIVE_BUFFER: usize = 4 * 1024 * 1024;

/// How much unsent data the kernel is allowed to hold for a TCP link.
///
/// This is deliberately small, and the reasoning is the opposite of the receive
/// side. Whatever the kernel has accepted is beyond reach: it goes out at
/// whatever rate congestion control allows, in order, and cannot be reordered or
/// discarded. So the kernel gets a small fixed budget and the rest of the
/// backlog stays in [`StreamQueue`], where it can still be shed.
pub const SEND_BUFFER: usize = 256 * 1024;

/// The most unsent data [`StreamQueue`] will hold before it refuses more.
///
/// A backstop against unbounded growth rather than the working limit: with a
/// stalled socket the age rule below empties the queue long before this.
pub const MAX_OUTBOUND_BYTES: usize = 256 * 1024;

/// How long a real-time packet is worth sending.
///
/// A game packet that has waited this long describes a world that has moved on,
/// and delivering it late is worse than not delivering it at all: it costs
/// bandwidth that the packet behind it needs.
pub const MAX_OUTBOUND_AGE: u64 = 50_000_000;

/// The largest packet either transport will accept, which bounds what a
/// malformed length prefix can cost.
pub const MAX_PACKET: usize = 65_535;

/// Whether a packet may be dropped when the link is backed up.
#[derive(Clone, Copy, Debug, PartialEq, Eq, Structural)]
pub enum Urgency {
    /// Tunnelled traffic. The overlay already treats loss on a path as
    /// ordinary - it is what every datagram transport does under congestion -
    /// so shedding a stale packet here is better than delivering it late behind
    /// a stalled stream.
    Realtime,
    /// Control traffic: TLS, rekeys, keepalives and overlay health probes.
    /// Shedding these can stall a session or falsely report a path as dead.
    Reliable,
}

/// One length-prefixed packet waiting for the socket to accept it.
pub struct Outbound {
    pub bytes: Vec<u8>,
    pub queued: u64,
    pub urgency: Urgency,
}

/// A waiting packet, by its contents.
pub struct Frame {
    pub bytes: Seq<u8>,
    pub queued: u64,
    pub urgency: Urgency,
}

impl Outbound {
    pub open spec fn frame(&self) -> Frame {
        Frame { bytes: self.bytes@, queued: self.queued, urgency: self.urgency }
    }
}

pub open spec fn frames(list: Seq<Outbound>) -> Seq<Frame> {
    Seq::new(list.len(), |i: int| list[i].frame())
}

/// All the bytes of a queue.
pub open spec fn total(list: Seq<Frame>) -> nat
    decreases list.len(),
{
    if list.len() == 0 {
        0
    } else {
        list[0].bytes.len() + total(list.skip(1))
    }
}

/// Whether a packet is one to drop, while the queue holds `backlog` bytes.
pub open spec fn droppable(frame: Frame, backlog: int, now: u64) -> bool {
    frame.urgency == Urgency::Realtime && (time::elapsed(now, frame.queued) > MAX_OUTBOUND_AGE
        || backlog > MAX_OUTBOUND_BYTES)
}

/// The packets that stay when a queue of `backlog` unsent bytes is walked oldest
/// first, each droppable packet lightening the backlog for the ones behind it.
pub open spec fn survivors(list: Seq<Frame>, backlog: int, now: u64) -> Seq<Frame>
    decreases list.len(),
{
    if list.len() == 0 {
        list
    } else if droppable(list[0], backlog, now) {
        survivors(list.skip(1), backlog - list[0].bytes.len(), now)
    } else {
        seq![list[0]] + survivors(list.skip(1), backlog, now)
    }
}

/// The backlog once the droppable packets are gone.
pub open spec fn backlog_after(list: Seq<Frame>, backlog: int, now: u64) -> int
    decreases list.len(),
{
    if list.len() == 0 {
        backlog
    } else if droppable(list[0], backlog, now) {
        backlog_after(list.skip(1), backlog - list[0].bytes.len(), now)
    } else {
        backlog_after(list.skip(1), backlog, now)
    }
}

/// The queue once it has been shed. The packet at the head is spared whenever
/// part of it is already on the wire.
pub open spec fn shed_frames(list: Seq<Frame>, written: usize, backlog: int, now: u64) -> Seq<
    Frame,
> {
    if written > 0 && list.len() > 0 {
        seq![list[0]] + survivors(list.skip(1), backlog, now)
    } else {
        survivors(list, backlog, now)
    }
}

pub open spec fn shed_backlog(list: Seq<Frame>, written: usize, backlog: int, now: u64) -> int {
    if written > 0 && list.len() > 0 {
        backlog_after(list.skip(1), backlog, now)
    } else {
        backlog_after(list, backlog, now)
    }
}

/// Whether `written` bytes of the head are on the wire and `backlog` bytes are
/// still to go.
pub open spec fn in_step(list: Seq<Frame>, written: int, backlog: int) -> bool {
    &&& backlog + written == total(list)
    &&& 0 <= written
    &&& written > 0 ==> list.len() > 0 && written < list[0].bytes.len()
}

proof fn lemma_total_append(a: Seq<Frame>, b: Seq<Frame>)
    ensures
        total(a + b) == total(a) + total(b),
    decreases a.len(),
{
    if a.len() == 0 {
        assert(a + b =~= b);
    } else {
        assert((a + b).skip(1) =~= a.skip(1) + b);
        lemma_total_append(a.skip(1), b);
    }
}

proof fn lemma_survivors_total(list: Seq<Frame>, backlog: int, now: u64)
    ensures
        backlog - backlog_after(list, backlog, now) == total(list) - total(
            survivors(list, backlog, now),
        ),
        total(survivors(list, backlog, now)) <= total(list),
    decreases list.len(),
{
    if list.len() > 0 {
        let rest = list.skip(1);
        if droppable(list[0], backlog, now) {
            lemma_survivors_total(rest, backlog - list[0].bytes.len(), now);
        } else {
            lemma_survivors_total(rest, backlog, now);
            let kept = seq![list[0]] + survivors(rest, backlog, now);
            assert(kept.skip(1) =~= survivors(rest, backlog, now));
        }
    }
}

/// Drops real-time packets that are no longer worth sending, oldest first.
///
/// The packet at the head is spared whenever part of it is already on the wire.
/// The stream is length-prefixed, so removing a packet the reader has begun to
/// see would desynchronise it permanently - far worse than the delay being
/// avoided.
pub fn shed(outbound: &mut VecDeque<Outbound>, written: usize, queued_bytes: &mut usize, now: u64)
    requires
        in_step(frames(old(outbound)@), written as int, *old(queued_bytes) as int),
    ensures
        frames(final(outbound)@) == shed_frames(
            frames(old(outbound)@),
            written,
            *old(queued_bytes) as int,
            now,
        ),
        *final(queued_bytes) == shed_backlog(
            frames(old(outbound)@),
            written,
            *old(queued_bytes) as int,
            now,
        ),
        in_step(frames(final(outbound)@), written as int, *final(queued_bytes) as int),
{
    let ghost list = frames(outbound@);
    let mut index: usize = 0;
    if written > 0 {
        index = 1;
    }
    let ghost head = list.take(index as int);
    let ghost mut kept = Seq::<Frame>::empty();
    let ghost mut seen: int = index as int;
    let ghost start = *queued_bytes as int;
    let ghost tail = list.skip(index as int);
    proof {
        assert(head + kept + list.skip(seen) =~= list);
        assert(kept + survivors(list.skip(seen), start, now) =~= survivors(tail, start, now));
    }
    while index < outbound.len()
        invariant
            0 <= seen <= list.len(),
            head.len() <= index,
            index == head.len() + kept.len(),
            frames(outbound@) == head + kept + list.skip(seen),
            frames(outbound@).len() == outbound@.len(),
            kept + survivors(list.skip(seen), *queued_bytes as int, now) == survivors(
                tail,
                start,
                now,
            ),
            backlog_after(list.skip(seen), *queued_bytes as int, now) == backlog_after(
                tail,
                start,
                now,
            ),
            in_step(frames(outbound@), written as int, *queued_bytes as int),
            written > 0 ==> head.len() > 0,
        decreases list.len() - seen,
    {
        let ghost before = outbound@;
        let ghost rest = list.skip(seen);
        let ghost backlog = *queued_bytes as int;
        proof {
            assert(frames(before)[index as int] == before[index as int].frame());
            assert(rest[0] == before[index as int].frame());
            assert(rest.skip(1) =~= list.skip(seen + 1));
            assert(frames(before) =~= (head + kept) + rest);
            lemma_total_append(head + kept, rest);
        }
        let stale: bool = time::since(now, outbound[index].queued) > MAX_OUTBOUND_AGE;
        if outbound[index].urgency == Urgency::Realtime && (stale || *queued_bytes
            > MAX_OUTBOUND_BYTES) {
            let size: usize = outbound[index].bytes.len();
            proof {
                if head.len() > 0 {
                    assert((head + kept)[0] == frames(before)[0]);
                    assert(total(head + kept) >= written) by {
                        assert((head + kept)[0].bytes.len() > written || written == 0);
                    }
                }
            }
            *queued_bytes = *queued_bytes - size;
            let _ = outbound.remove(index);
            proof {
                assert(outbound@ =~= before.remove(index as int));
                assert forall|i: int| 0 <= i < outbound@.len() implies frames(outbound@)[i] == ((head
                    + kept) + list.skip(seen + 1))[i] by {
                    if i < index {
                        assert(frames(before)[i] == before[i].frame());
                    } else {
                        assert(frames(before)[i + 1] == before[i + 1].frame());
                    }
                }
                assert(frames(outbound@) =~= (head + kept) + list.skip(seen + 1));
                lemma_total_append(head + kept, list.skip(seen + 1));
                if head.len() > 0 {
                    assert(frames(outbound@)[0] == (head + kept)[0]);
                }
            }
        } else {
            proof {
                let next = kept.push(rest[0]);
                assert(kept + (seq![rest[0]] + survivors(rest.skip(1), backlog, now)) =~= next
                    + survivors(rest.skip(1), backlog, now));
                assert(head + kept + rest =~= head + next + list.skip(seen + 1));
                kept = next;
            }
            index = index + 1;
        }
        proof {
            seen = seen + 1;
        }
    }
    proof {
        assert(list.skip(seen).len() == 0);
        assert(frames(outbound@) =~= head + kept);
        assert(kept =~= survivors(tail, start, now));
        if written == 0 {
            assert(tail =~= list);
            assert(head + kept =~= kept);
        } else {
            assert(head =~= seq![list[0]]);
        }
    }
}

/// Control traffic is never shed: the reliable packets of a queue all stay, in
/// their order.
pub proof fn control_traffic_is_spared(list: Seq<Frame>, backlog: int, now: u64)
    ensures
        survivors(list, backlog, now).filter(|f: Frame| f.urgency == Urgency::Reliable)
            == list.filter(|f: Frame| f.urgency == Urgency::Reliable),
    decreases list.len(),
{
    let reliable = |f: Frame| f.urgency == Urgency::Reliable;
    if list.len() > 0 {
        let first = seq![list[0]];
        let rest = list.skip(1);
        assert(list =~= first + rest);
        Seq::filter_distributes_over_add(first, rest, reliable);
        reveal(Seq::filter);
        assert(first.drop_last() =~= Seq::<Frame>::empty());
        assert(first.drop_last().filter(reliable) =~= Seq::<Frame>::empty());
        if droppable(list[0], backlog, now) {
            control_traffic_is_spared(rest, backlog - list[0].bytes.len(), now);
            assert(first.filter(reliable) =~= Seq::<Frame>::empty());
            assert(first.filter(reliable) + rest.filter(reliable) =~= rest.filter(reliable));
        } else {
            control_traffic_is_spared(rest, backlog, now);
            Seq::filter_distributes_over_add(first, survivors(rest, backlog, now), reliable);
        }
    }
}

/// Shedding leaves the queue within its budget, unless nothing but control
/// traffic is left.
pub proof fn shedding_meets_the_budget(list: Seq<Frame>, backlog: int, now: u64)
    ensures
        backlog_after(list, backlog, now) > MAX_OUTBOUND_BYTES ==> forall|i: int|
            0 <= i < survivors(list, backlog, now).len() ==> (#[trigger] survivors(
                list,
                backlog,
                now,
            )[i]).urgency == Urgency::Reliable,
    decreases list.len(),
{
    if list.len() > 0 {
        let rest = list.skip(1);
        if droppable(list[0], backlog, now) {
            shedding_meets_the_budget(rest, backlog - list[0].bytes.len(), now);
        } else {
            shedding_meets_the_budget(rest, backlog, now);
            lemma_survivors_total(rest, backlog, now);
            let kept = survivors(list, backlog, now);
            if backlog_after(list, backlog, now) > MAX_OUTBOUND_BYTES {
                assert forall|i: int| 0 <= i < kept.len() implies (#[trigger] kept[i]).urgency
                    == Urgency::Reliable by {
                    if i > 0 {
                        assert(kept[i] == survivors(rest, backlog, now)[i - 1]);
                    }
                }
            }
        }
    }
}

/// After shedding, no real-time packet that is left is too old to send.
pub proof fn nothing_stale_is_left(list: Seq<Frame>, backlog: int, now: u64)
    ensures
        forall|i: int|
            0 <= i < survivors(list, backlog, now).len() ==> (#[trigger] survivors(
                list,
                backlog,
                now,
            )[i]).urgency == Urgency::Reliable || time::elapsed(
                now,
                survivors(list, backlog, now)[i].queued,
            ) <= MAX_OUTBOUND_AGE,
    decreases list.len(),
{
    if list.len() > 0 {
        let rest = list.skip(1);
        if droppable(list[0], backlog, now) {
            nothing_stale_is_left(rest, backlog - list[0].bytes.len(), now);
        } else {
            nothing_stale_is_left(rest, backlog, now);
            let kept = survivors(list, backlog, now);
            assert forall|i: int| 0 <= i < kept.len() implies (#[trigger] kept[i]).urgency
                == Urgency::Reliable || time::elapsed(now, kept[i].queued) <= MAX_OUTBOUND_AGE by {
                if i > 0 {
                    assert(kept[i] == survivors(rest, backlog, now)[i - 1]);
                }
            }
        }
    }
}

/// Shedding is oldest first: in a queue of game packets the newest one survives
/// as long as it is fresh and fits the budget by itself.
pub proof fn the_newest_packet_survives(list: Seq<Frame>, backlog: int, now: u64)
    requires
        list.len() > 0,
        backlog == total(list),
        time::elapsed(now, list.last().queued) <= MAX_OUTBOUND_AGE,
        list.last().bytes.len() <= MAX_OUTBOUND_BYTES,
        forall|i: int| 0 <= i < list.len() ==> (#[trigger] list[i]).urgency == Urgency::Realtime,
    ensures
        survivors(list, backlog, now).len() > 0,
        survivors(list, backlog, now).last() == list.last(),
{
    lemma_newest(list, backlog, now, 0);
}

proof fn lemma_newest(list: Seq<Frame>, backlog: int, now: u64, kept: int)
    requires
        list.len() > 0,
        0 <= kept,
        kept > 0 ==> backlog <= MAX_OUTBOUND_BYTES,
        backlog == kept + total(list),
        time::elapsed(now, list.last().queued) <= MAX_OUTBOUND_AGE,
        list.last().bytes.len() <= MAX_OUTBOUND_BYTES,
        forall|i: int| 0 <= i < list.len() ==> (#[trigger] list[i]).urgency == Urgency::Realtime,
    ensures
        survivors(list, backlog, now).len() > 0,
        survivors(list, backlog, now).last() == list.last(),
    decreases list.len(),
{
    let rest = list.skip(1);
    if list.len() == 1 {
        assert(rest.len() == 0);
        assert(total(list) == list[0].bytes.len());
        assert(!droppable(list[0], backlog, now));
        assert(survivors(rest, backlog, now) =~= rest);
    } else {
        assert(rest.last() == list.last());
        assert(list[0].urgency == Urgency::Realtime);
        assert forall|i: int| 0 <= i < rest.len() implies (#[trigger] rest[i]).urgency
            == Urgency::Realtime by {
            assert(rest[i] == list[i + 1]);
        }
        let size = list[0].bytes.len() as int;
        if droppable(list[0], backlog, now) {
            lemma_newest(rest, backlog - size, now, kept);
        } else {
            if size > 0 {
                lemma_newest(rest, backlog, now, kept + size);
            } else {
                lemma_newest(rest, backlog, now, kept);
            }
            assert(survivors(list, backlog, now).last() == survivors(rest, backlog, now).last());
        }
    }
}

/// A packet behind its length.
pub open spec fn framed(packet: Seq<u8>) -> Seq<u8> {
    bytes::be_bytes(packet.len(), 2) + packet
}

/// How reading one packet off the front of a stream goes.
pub enum Cut {
    /// There is not a whole packet yet.
    Partial,
    /// The stream cannot be a sequence of packets.
    Malformed,
    /// One packet, and the stream behind it.
    Packet(Seq<u8>, Seq<u8>),
}

/// Cuts one length-prefixed packet off the front of a stream.
pub open spec fn cut(stream: Seq<u8>) -> Cut {
    if stream.len() < 2 {
        Cut::Partial
    } else {
        let length = bytes::be_value(stream.take(2)) as int;
        if length == 0 {
            Cut::Malformed
        } else if stream.len() < 2 + length {
            Cut::Partial
        } else {
            Cut::Packet(stream.subrange(2, 2 + length), stream.skip(2 + length))
        }
    }
}

/// Cuts one length-prefixed packet off the front of a buffer.
pub fn take_framed(pending: &mut Vec<u8>) -> (r: Result<Option<Vec<u8>>, String>)
    ensures
        match cut(old(pending)@) {
            Cut::Partial => final(pending)@ == old(pending)@ && (r matches Ok(found)
                && found is None),
            Cut::Malformed => final(pending)@ == old(pending)@ && (r matches Err(message)
                && message@ == "the OpenVPN server framed a zero-length packet"@),
            Cut::Packet(packet, rest) => final(pending)@ == rest && (r matches Ok(found)
                && found matches Some(body) && body@ == packet),
        },
{
    if pending.len() < 2 {
        return Ok(None);
    }
    let length: usize = bytes::from_be(pending.as_slice(), 0, 2) as usize;
    proof {
        assert(pending@.subrange(0, 2) =~= pending@.take(2));
        bytes::lemma_byte_ranges();
    }
    if length == 0 {
        return Err("the OpenVPN server framed a zero-length packet".to_owned());
    }
    if pending.len() < 2 + length {
        return Ok(None);
    }
    let packet = slice_to_vec(slice_subrange(pending.as_slice(), 2, 2 + length));
    let mut rest: Vec<u8> = pending.split_off(2 + length);
    core::mem::swap(&mut rest, pending);
    proof {
        assert(pending@ =~= old(pending)@.skip(2 + length));
    }
    Ok(Some(packet))
}

/// A framed packet is read back as it was, and the stream goes on behind it.
pub proof fn a_framed_packet_reads_back(packet: Seq<u8>, rest: Seq<u8>)
    requires
        0 < packet.len() <= MAX_PACKET,
    ensures
        cut(framed(packet) + rest) == Cut::Packet(packet, rest),
{
    bytes::lemma_byte_ranges();
    bytes::lemma_be_bytes_len(packet.len(), 2);
    bytes::lemma_be_round_trip(packet.len(), 2);
    let stream = framed(packet) + rest;
    assert(stream.take(2) =~= bytes::be_bytes(packet.len(), 2));
    assert(stream.subrange(2, 2 + packet.len() as int) =~= packet);
    assert(stream.skip(2 + packet.len() as int) =~= rest);
}

/// A frame is taken only once it is whole: every proper prefix of one is only
/// part of a packet.
pub proof fn part_of_a_frame_is_not_a_packet(packet: Seq<u8>, n: int)
    requires
        0 < packet.len() <= MAX_PACKET,
        0 <= n < framed(packet).len(),
    ensures
        cut(framed(packet).take(n)) == Cut::Partial,
{
    bytes::lemma_byte_ranges();
    bytes::lemma_be_bytes_len(packet.len(), 2);
    bytes::lemma_be_round_trip(packet.len(), 2);
    let part = framed(packet).take(n);
    if n >= 2 {
        assert(part.take(2) =~= bytes::be_bytes(packet.len(), 2));
    }
}

/// What came of handing bytes to the socket.
pub enum Write {
    /// The socket took this many bytes.
    Accepted(usize),
    /// The socket will not take more right now.
    WouldBlock,
    /// The call was interrupted and can be made again.
    Interrupted,
    /// The socket failed, with a reason.
    Failed(String),
}

/// What to do next with the socket.
pub enum Pace {
    /// Offer it the next bytes.
    Continue,
    /// Leave it for now.
    Pause,
}

/// The bytes that are still to go on the wire, laid end to end.
pub open spec fn unsent(list: Seq<Frame>, written: int) -> Seq<u8> {
    all_bytes(list).skip(written)
}

/// The bytes of all the packets of a queue, laid end to end.
pub open spec fn all_bytes(list: Seq<Frame>) -> Seq<u8>
    decreases list.len(),
{
    if list.len() == 0 {
        Seq::<u8>::empty()
    } else {
        list[0].bytes + all_bytes(list.skip(1))
    }
}

/// The packets that a stream transport has not accepted yet, and the bytes read
/// from it that do not yet form a whole packet.
pub struct StreamQueue {
    pending: Vec<u8>,
    outbound: VecDeque<Outbound>,
    /// How much of the packet at the head is already on the wire. Non-zero
    /// means that packet is committed and can no longer be dropped.
    written: usize,
    /// Bytes in `outbound` still to be written, kept as a running total so the
    /// budget check is not a walk of the queue.
    queued_bytes: usize,
}

/// What a stream's queue holds.
#[verifier::ext_equal]
pub struct QueueState {
    pub pending: Seq<u8>,
    pub outbound: Seq<Frame>,
    pub written: usize,
    pub queued_bytes: usize,
}

impl View for StreamQueue {
    type V = QueueState;

    closed spec fn view(&self) -> QueueState {
        QueueState {
            pending: self.pending@,
            outbound: frames(self.outbound@),
            written: self.written,
            queued_bytes: self.queued_bytes,
        }
    }
}

impl QueueState {
    /// The running total is what the packets add up to, less what is on the
    /// wire, and every packet has its length in front.
    pub open spec fn wf(self) -> bool {
        &&& in_step(self.outbound, self.written as int, self.queued_bytes as int)
        &&& forall|i: int| 0 <= i < self.outbound.len() ==> (#[trigger] self.outbound[i]).bytes.len()
            >= 2
    }

    /// The queue once its stale packets have been dropped.
    pub open spec fn shed(self, now: u64) -> QueueState {
        QueueState {
            outbound: shed_frames(self.outbound, self.written, self.queued_bytes as int, now),
            queued_bytes: shed_backlog(
                self.outbound,
                self.written,
                self.queued_bytes as int,
                now,
            ) as usize,
            ..self
        }
    }

    /// The queue once a packet has been put at the back.
    pub open spec fn pushed(self, packet: Seq<u8>, urgency: Urgency, now: u64) -> QueueState {
        QueueState {
            outbound: self.outbound.push(Frame { bytes: framed(packet), queued: now, urgency }),
            queued_bytes: (self.queued_bytes + 2 + packet.len()) as usize,
            ..self
        }
    }

    /// The queue once a packet has been put at the back and, over the budget,
    /// the queue has been shed.
    pub open spec fn enqueued(self, packet: Seq<u8>, urgency: Urgency, now: u64) -> QueueState {
        let next = self.pushed(packet, urgency, now);
        if next.queued_bytes > MAX_OUTBOUND_BYTES {
            next.shed(now)
        } else {
            next
        }
    }

    /// The queue once the socket has taken `count` bytes of the head.
    pub open spec fn accepted(self, count: usize) -> QueueState {
        if self.written + count == self.outbound[0].bytes.len() {
            QueueState {
                outbound: self.outbound.skip(1),
                written: 0,
                queued_bytes: (self.queued_bytes - count) as usize,
                ..self
            }
        } else {
            QueueState {
                written: (self.written + count) as usize,
                queued_bytes: (self.queued_bytes - count) as usize,
                ..self
            }
        }
    }
}

proof fn lemma_survivors_keep_frames(list: Seq<Frame>, backlog: int, now: u64)
    requires
        forall|i: int| 0 <= i < list.len() ==> (#[trigger] list[i]).bytes.len() >= 2,
    ensures
        forall|i: int|
            0 <= i < survivors(list, backlog, now).len() ==> (#[trigger] survivors(
                list,
                backlog,
                now,
            )[i]).bytes.len() >= 2,
    decreases list.len(),
{
    if list.len() > 0 {
        let rest = list.skip(1);
        assert forall|i: int| 0 <= i < rest.len() implies (#[trigger] rest[i]).bytes.len() >= 2 by {
            assert(rest[i] == list[i + 1]);
        }
        if droppable(list[0], backlog, now) {
            lemma_survivors_keep_frames(rest, backlog - list[0].bytes.len(), now);
        } else {
            lemma_survivors_keep_frames(rest, backlog, now);
            let kept = survivors(list, backlog, now);
            assert forall|i: int| 0 <= i < kept.len() implies (#[trigger] kept[i]).bytes.len()
                >= 2 by {
                if i > 0 {
                    assert(kept[i] == survivors(rest, backlog, now)[i - 1]);
                }
            }
        }
    }
}

proof fn lemma_shed_wf(st: QueueState, now: u64)
    requires
        st.wf(),
        0 <= shed_backlog(st.outbound, st.written, st.queued_bytes as int, now) <= usize::MAX,
        in_step(
            shed_frames(st.outbound, st.written, st.queued_bytes as int, now),
            st.written as int,
            shed_backlog(st.outbound, st.written, st.queued_bytes as int, now),
        ),
    ensures
        st.shed(now).wf(),
{
    let list = st.outbound;
    let backlog = st.queued_bytes as int;
    if st.written > 0 && list.len() > 0 {
        let rest = list.skip(1);
        assert forall|i: int| 0 <= i < rest.len() implies (#[trigger] rest[i]).bytes.len() >= 2 by {
            assert(rest[i] == list[i + 1]);
        }
        lemma_survivors_keep_frames(rest, backlog, now);
        let kept = st.shed(now).outbound;
        assert forall|i: int| 0 <= i < kept.len() implies (#[trigger] kept[i]).bytes.len() >= 2 by {
            if i > 0 {
                assert(kept[i] == survivors(rest, backlog, now)[i - 1]);
            }
        }
    } else {
        lemma_survivors_keep_frames(list, backlog, now);
    }
}

impl StreamQueue {
    pub fn new() -> (queue: Self)
        ensures
            queue@.wf(),
            queue@ == (QueueState {
                pending: Seq::<u8>::empty(),
                outbound: Seq::<Frame>::empty(),
                written: 0,
                queued_bytes: 0,
            }),
    {
        let queue = StreamQueue {
            pending: Vec::new(),
            outbound: VecDeque::new(),
            written: 0,
            queued_bytes: 0,
        };
        assert(queue@.outbound =~= Seq::<Frame>::empty());
        queue
    }

    pub fn is_empty(&self) -> (r: bool)
        ensures
            r == (self@.outbound.len() == 0),
    {
        self.outbound.len() == 0
    }

    pub fn queued_bytes(&self) -> (r: usize)
        ensures
            r == self@.queued_bytes,
    {
        self.queued_bytes
    }

    pub fn written(&self) -> (r: usize)
        ensures
            r == self@.written,
    {
        self.written
    }

    /// Drops the packets that are no longer worth sending.
    pub fn shed_stale(&mut self, now: u64)
        requires
            old(self)@.wf(),
        ensures
            final(self)@.wf(),
            final(self)@ == old(self)@.shed(now),
    {
        let ghost st = self@;
        shed(&mut self.outbound, self.written, &mut self.queued_bytes, now);
        proof {
            lemma_shed_wf(st, now);
            assert(self@ =~= st.shed(now));
        }
    }

    /// Frames a packet and puts it at the back of the queue.
    ///
    /// Only control traffic, which is never shed, can still be over the budget
    /// afterwards - and that much of it unsent means the stream is not moving.
    pub fn enqueue(&mut self, packet: &[u8], urgency: Urgency, now: u64) -> (r: Result<(), String>)
        requires
            old(self)@.wf(),
            old(self)@.queued_bytes + 2 + MAX_PACKET <= usize::MAX,
        ensures
            final(self)@.wf(),
            packet@.len() > MAX_PACKET ==> final(self)@ == old(self)@ && (r matches Err(message)
                && message@ == "an OpenVPN packet was too large for a TCP link"@),
            packet@.len() <= MAX_PACKET ==> {
                &&& final(self)@ == old(self)@.enqueued(packet@, urgency, now)
                &&& r is Ok <==> final(self)@.queued_bytes <= MAX_OUTBOUND_BYTES
                &&& r matches Err(message) ==> message@
                    == "the OpenVPN link stopped accepting control traffic"@
            },
    {
        if packet.len() > MAX_PACKET {
            return Err("an OpenVPN packet was too large for a TCP link".to_owned());
        }
        let ghost st = self@;
        let mut framed_bytes = bytes::to_be(packet.len() as u64, 2);
        framed_bytes.extend_from_slice(packet);
        proof {
            bytes::lemma_be_bytes_len(packet@.len(), 2);
            assert(framed_bytes@ =~= framed(packet@));
        }
        self.queued_bytes = self.queued_bytes + framed_bytes.len();
        self.outbound.push_back(Outbound { bytes: framed_bytes, queued: now, urgency });
        proof {
            let frame = Frame { bytes: framed(packet@), queued: now, urgency };
            let next = st.pushed(packet@, urgency, now);
            assert(self@.outbound =~= st.outbound.push(frame));
            assert(st.outbound.push(frame) =~= st.outbound + seq![frame]);
            lemma_total_append(st.outbound, seq![frame]);
            assert(seq![frame].skip(1) =~= Seq::<Frame>::empty());
            assert(total(seq![frame]) == frame.bytes.len()) by {
                reveal_with_fuel(total, 2);
            }
            assert(self@ =~= next);
            assert forall|i: int| 0 <= i < next.outbound.len() implies (
            #[trigger] next.outbound[i]).bytes.len() >= 2 by {
                if i < st.outbound.len() {
                    assert(next.outbound[i] == st.outbound[i]);
                }
            }
            if st.written > 0 {
                assert(next.outbound[0] == st.outbound[0]);
            }
            assert(next.wf());
        }
        if self.queued_bytes > MAX_OUTBOUND_BYTES {
            self.shed_stale(now);
        }
        if self.queued_bytes > MAX_OUTBOUND_BYTES {
            return Err("the OpenVPN link stopped accepting control traffic".to_owned());
        }
        Ok(())
    }

    /// The bytes to hand to the socket next: what is left of the packet at the
    /// head.
    pub fn next_write(&self) -> (r: Option<Vec<u8>>)
        requires
            self@.wf(),
        ensures
            r is Some <==> self@.outbound.len() > 0,
            r matches Some(rest) ==> rest@ == self@.outbound[0].bytes.skip(self@.written as int)
                && rest@.len() > 0,
    {
        if self.outbound.len() == 0 {
            return None;
        }
        let head = &self.outbound[0];
        assert(self@.outbound[0] == head.frame());
        let rest = slice_to_vec(
            slice_subrange(head.bytes.as_slice(), self.written, head.bytes.len()),
        );
        assert(rest@ =~= head.bytes@.skip(self.written as int));
        Some(rest)
    }

    /// Takes in what came of a write, and says what to do next.
    ///
    /// The socket is non-blocking, so a short write is expected rather than
    /// exceptional: the offset into the packet at the head is kept, and the next
    /// write continues from there. That is what makes this safe on a
    /// length-prefixed stream - a write interrupted part-way through would leave
    /// a truncated frame behind it and desynchronise the reader for good.
    pub fn note_write(&mut self, outcome: Write) -> (r: Result<Pace, String>)
        requires
            old(self)@.wf(),
            old(self)@.outbound.len() > 0,
            outcome matches Write::Accepted(count) ==> old(self)@.written + count
                <= old(self)@.outbound[0].bytes.len(),
        ensures
            final(self)@.wf(),
            match outcome {
                Write::Accepted(count) => if count == 0 {
                    final(self)@ == old(self)@ && r == Ok::<Pace, String>(Pace::Pause)
                } else {
                    final(self)@ == old(self)@.accepted(count) && r == Ok::<Pace, String>(
                        Pace::Continue,
                    )
                },
                Write::WouldBlock => final(self)@ == old(self)@ && r == Ok::<Pace, String>(
                    Pace::Pause,
                ),
                Write::Interrupted => final(self)@ == old(self)@ && r == Ok::<Pace, String>(
                    Pace::Continue,
                ),
                Write::Failed(why) => final(self)@ == old(self)@ && (r matches Err(message)
                    && message@ == "could not send an OpenVPN packet: "@ + why@),
            },
    {
        let ghost st = self@;
        match outcome {
            Write::Accepted(count) => {
                if count == 0 {
                    return Ok(Pace::Pause);
                }
                let size: usize = self.outbound[0].bytes.len();
                proof {
                    assert(st.outbound[0] == self.outbound@[0].frame());
                    assert(total(st.outbound) == st.outbound[0].bytes.len() + total(
                        st.outbound.skip(1),
                    ));
                }
                self.queued_bytes = self.queued_bytes - count;
                if self.written + count == size {
                    let _ = self.outbound.pop_front();
                    self.written = 0;
                    proof {
                        assert(self@.outbound =~= st.outbound.skip(1));
                        assert forall|i: int| 0 <= i < self@.outbound.len() implies (
                        #[trigger] self@.outbound[i]).bytes.len() >= 2 by {
                            assert(self@.outbound[i] == st.outbound[i + 1]);
                        }
                    }
                } else {
                    self.written = self.written + count;
                }
                assert(self@ =~= st.accepted(count));
                Ok(Pace::Continue)
            },
            Write::WouldBlock => Ok(Pace::Pause),
            Write::Interrupted => Ok(Pace::Continue),
            Write::Failed(why) => {
                let mut message = "could not send an OpenVPN packet: ".to_owned();
                message.append(why.as_str());
                Err(message)
            },
        }
    }

    /// Adds bytes read from the stream.
    pub fn feed(&mut self, chunk: &[u8])
        ensures
            final(self)@ == (QueueState { pending: old(self)@.pending + chunk@, ..old(self)@ }),
    {
        self.pending.extend_from_slice(chunk);
        assert(self@.pending =~= old(self)@.pending + chunk@);
    }

    /// Takes the next whole packet that has been read.
    pub fn take_packet(&mut self) -> (r: Result<Option<Vec<u8>>, String>)
        ensures
            match cut(old(self)@.pending) {
                Cut::Partial => final(self)@ == old(self)@ && (r matches Ok(found)
                    && found is None),
                Cut::Malformed => final(self)@ == old(self)@ && (r matches Err(message)
                    && message@ == "the OpenVPN server framed a zero-length packet"@),
                Cut::Packet(packet, rest) => final(self)@ == (QueueState {
                    pending: rest,
                    ..old(self)@
                }) && (r matches Ok(found) && found matches Some(body) && body@ == packet),
            },
    {
        take_framed(&mut self.pending)
    }
}

proof fn lemma_all_bytes_len(list: Seq<Frame>)
    ensures
        all_bytes(list).len() == total(list),
    decreases list.len(),
{
    if list.len() > 0 {
        lemma_all_bytes_len(list.skip(1));
    }
}

/// Short writes resume where they stopped: what the socket takes is exactly the
/// front of what was still to go, and what is left is the rest of it.
pub proof fn a_write_takes_the_front_of_what_is_unsent(st: QueueState, count: usize)
    requires
        st.wf(),
        st.outbound.len() > 0,
        st.written + count <= st.outbound[0].bytes.len() <= usize::MAX,
        count > 0,
    ensures
        unsent(st.outbound, st.written as int) == st.outbound[0].bytes.subrange(
            st.written as int,
            st.written + count,
        ) + unsent(st.accepted(count).outbound, st.accepted(count).written as int),
{
    let head = st.outbound[0].bytes;
    let behind = all_bytes(st.outbound.skip(1));
    let taken = head.subrange(st.written as int, st.written + count);
    let next = st.accepted(count);
    if st.written + count == head.len() {
        assert(behind.skip(0) =~= behind);
        assert(unsent(st.outbound, st.written as int) =~= taken + behind);
        assert(unsent(next.outbound, next.written as int) == behind.skip(0));
    } else {
        assert(all_bytes(st.outbound) == head + behind);
        assert((head + behind).skip(st.written as int) =~= taken + (head + behind).skip(
            st.written + count,
        ));
    }
}

/// Shedding never cuts into a packet that is partly on the wire: what is still
/// to go begins with the rest of that packet before and after.
pub proof fn shedding_keeps_the_packet_on_the_wire(st: QueueState, now: u64)
    requires
        st.wf(),
        st.written > 0,
    ensures
        st.shed(now).written == st.written,
        st.shed(now).outbound.len() > 0,
        st.shed(now).outbound[0] == st.outbound[0],
{
}

/// While everything queued is fresh and within the budget, nothing is shed.
pub proof fn nothing_is_shed_without_need(list: Seq<Frame>, backlog: int, now: u64)
    requires
        backlog <= 262_144,
        forall|i: int|
            0 <= i < list.len() ==> (#[trigger] list[i]).queued <= now && now - list[i].queued
                <= 50_000_000,
    ensures
        survivors(list, backlog, now) == list,
        backlog_after(list, backlog, now) == backlog,
    decreases list.len(),
{
    if list.len() > 0 {
        let rest = list.skip(1);
        assert(list[0].queued <= now);
        assert forall|i: int| 0 <= i < rest.len() implies (#[trigger] rest[i]).queued <= now && now
            - rest[i].queued <= 50_000_000 by {
            assert(rest[i] == list[i + 1]);
        }
        nothing_is_shed_without_need(rest, backlog, now);
        assert(seq![list[0]] + rest =~= list);
    }
}

/// Over the budget, fresh traffic is shed from the oldest on, and no more of it
/// than brings the rest within the budget.
pub proof fn the_oldest_traffic_is_shed_first(list: Seq<Frame>, backlog: int, now: u64) -> (
    shed: int)
    requires
        backlog == total(list),
        forall|i: int|
            0 <= i < list.len() ==> (#[trigger] list[i]).urgency == Urgency::Realtime
                && list[i].queued <= now && now - list[i].queued <= 50_000_000,
    ensures
        0 <= shed <= list.len(),
        survivors(list, backlog, now) == list.skip(shed),
        total(list.skip(shed)) <= 262_144,
        shed > 0 ==> total(list.skip(shed - 1)) > 262_144,
    decreases list.len(),
{
    if list.len() == 0 {
        assert(list.skip(0) =~= list);
        0
    } else {
        let rest = list.skip(1);
        assert(list[0].urgency == Urgency::Realtime);
        assert forall|i: int| 0 <= i < rest.len() implies (#[trigger] rest[i]).urgency
            == Urgency::Realtime && rest[i].queued <= now && now - rest[i].queued <= 50_000_000 by {
            assert(rest[i] == list[i + 1]);
        }
        if backlog > 262_144 {
            let shed = the_oldest_traffic_is_shed_first(
                rest,
                backlog - list[0].bytes.len(),
                now,
            );
            assert(rest.skip(shed) =~= list.skip(shed + 1));
            if shed > 0 {
                assert(rest.skip(shed - 1) =~= list.skip(shed));
            } else {
                assert(list.skip(0) =~= list);
            }
            shed + 1
        } else {
            nothing_is_shed_without_need(list, backlog, now);
            assert(list.skip(0) =~= list);
            0
        }
    }
}

/// A packet is queued at the end, behind its length in two bytes with the high
/// one first, and while the queue is within its budget nothing else changes.
pub proof fn a_packet_is_queued_behind_its_length(
    st: QueueState,
    packet: Seq<u8>,
    urgency: Urgency,
    now: u64,
)
    requires
        0 < packet.len() <= MAX_PACKET,
        st.queued_bytes + packet.len() + 2 <= 262_144,
    ensures
        ({
            let next = st.enqueued(packet, urgency, now);
            let last = next.outbound.last();
            &&& next.outbound.len() == st.outbound.len() + 1
            &&& next.outbound.drop_last() == st.outbound
            &&& last.bytes.len() == packet.len() + 2
            &&& last.bytes[0] as int * 256 + last.bytes[1] as int == packet.len()
            &&& last.bytes.skip(2) == packet
            &&& last.urgency == urgency && last.queued == now
            &&& next.written == st.written && next.pending == st.pending
            &&& next.queued_bytes == st.queued_bytes + packet.len() + 2
        }),
{
    reveal_with_fuel(bytes::be_bytes, 3);
    let n = packet.len();
    let head = bytes::be_bytes(n, 2);
    assert(head =~= seq![((n / 256) % 256) as u8, (n % 256) as u8]);
    assert(framed(packet).skip(2) =~= packet);
    let next = st.enqueued(packet, urgency, now);
    assert(next.outbound.drop_last() =~= st.outbound);
}

/// A length of zero cannot stand in a stream of packets; anything else is waited
/// for until it is there.
pub proof fn a_zero_length_is_malformed(stream: Seq<u8>)
    ensures
        stream.len() < 2 ==> cut(stream) is Partial,
        stream.len() >= 2 ==> {
            let length = stream[0] as int * 256 + stream[1] as int;
            &&& length == 0 <==> cut(stream) is Malformed
            &&& 0 < length && stream.len() < 2 + length <==> cut(stream) is Partial
            &&& 0 < length <= stream.len() - 2 ==> cut(stream) == Cut::Packet(
                stream.subrange(2, 2 + length),
                stream.skip(2 + length),
            )
        },
{
    if stream.len() >= 2 {
        let two = stream.take(2);
        assert(two.drop_last() =~= seq![stream[0]]);
        assert(two.drop_last().drop_last() =~= Seq::<u8>::empty());
        assert(bytes::be_value(Seq::<u8>::empty()) == 0);
        assert(bytes::be_value(two.drop_last()) == stream[0]);
        assert(two.last() == stream[1]);
    }
}

} // verus!
