use gamepath_engine::openvpn::link::{
    shed, take_framed, Outbound, Pace, StreamQueue, Urgency, Write, MAX_OUTBOUND_BYTES, MAX_PACKET,
};
use gamepath_engine::time::{MILLISECOND, SECOND};
use std::collections::VecDeque;

const NOW: u64 = 100 * SECOND;

#[test]
fn a_framed_packet_is_taken_only_once_it_is_whole() {
    let mut pending = vec![0, 5, b'a', b'b'];
    assert!(take_framed(&mut pending).unwrap().is_none());
    pending.extend_from_slice(b"cde");
    assert_eq!(
        take_framed(&mut pending).unwrap().unwrap(),
        b"abcde".to_vec()
    );
    assert!(pending.is_empty());
}

#[test]
fn two_packets_arriving_together_are_read_one_at_a_time() {
    let mut pending = vec![0, 1, b'x', 0, 2, b'y', b'z'];
    assert_eq!(take_framed(&mut pending).unwrap().unwrap(), b"x".to_vec());
    assert_eq!(take_framed(&mut pending).unwrap().unwrap(), b"yz".to_vec());
    assert!(take_framed(&mut pending).unwrap().is_none());
}

#[test]
fn a_zero_length_frame_is_refused_rather_than_looping() {
    let mut pending = vec![0, 0, 1, 2];
    assert!(take_framed(&mut pending).is_err());
}

fn queued(urgency: Urgency, age: u64, size: usize) -> Outbound {
    Outbound {
        bytes: vec![0; size],
        queued: NOW - age,
        urgency,
    }
}

fn total(outbound: &VecDeque<Outbound>) -> usize {
    outbound.iter().map(|frame| frame.bytes.len()).sum()
}

#[test]
fn a_stale_game_packet_is_dropped_rather_than_sent_late() {
    let mut outbound = VecDeque::from(vec![
        queued(Urgency::Realtime, 400 * MILLISECOND, 100),
        queued(Urgency::Realtime, 0, 100),
    ]);
    let mut queued_bytes = total(&outbound);
    shed(&mut outbound, 0, &mut queued_bytes, NOW);
    assert_eq!(outbound.len(), 1, "the stale packet should be gone");
    assert_eq!(queued_bytes, 100);
    assert_eq!(queued_bytes, total(&outbound), "the running total drifted");
}

/// Dropping a handshake or rekey packet stalls the session, so age is not
/// a reason to drop one however backed up the link is.
#[test]
fn control_traffic_is_never_shed() {
    let mut outbound = VecDeque::from(vec![
        queued(Urgency::Reliable, 30 * SECOND, 100),
        queued(Urgency::Realtime, 30 * SECOND, 100),
    ]);
    let mut queued_bytes = total(&outbound);
    shed(&mut outbound, 0, &mut queued_bytes, NOW);
    assert_eq!(outbound.len(), 1);
    assert_eq!(outbound[0].urgency, Urgency::Reliable);
    assert_eq!(queued_bytes, total(&outbound));
}

/// The one packet that must survive shedding whatever its age: the reader
/// has already seen the front of it, and a length-prefixed stream cannot
/// recover from half a frame going missing.
#[test]
fn a_partly_written_packet_is_never_dropped() {
    let mut outbound = VecDeque::from(vec![
        queued(Urgency::Realtime, 30 * SECOND, 100),
        queued(Urgency::Realtime, 30 * SECOND, 100),
    ]);
    let mut queued_bytes = total(&outbound) - 40;
    shed(&mut outbound, 40, &mut queued_bytes, NOW);
    assert_eq!(outbound.len(), 1, "the committed packet has to stay");
    assert_eq!(queued_bytes, 60);
}

/// Writes until `allowance` bytes have been taken, as a socket with a full
/// buffer would.
fn write_queued(queue: &mut StreamQueue, taken: &mut Vec<u8>, allowance: &mut usize) {
    while let Some(rest) = queue.next_write() {
        let outcome = if *allowance == 0 {
            Write::WouldBlock
        } else {
            let count = rest.len().min(*allowance);
            taken.extend_from_slice(&rest[..count]);
            *allowance -= count;
            Write::Accepted(count)
        };
        if matches!(queue.note_write(outcome).ok().unwrap(), Pace::Pause) {
            break;
        }
    }
}

#[test]
fn short_writes_resume_without_corrupting_frames_or_shedding_probes() {
    // Stop inside the length prefix and inside the payload, respectively.
    for allowance in [1_usize, 4] {
        let now = NOW;
        let mut queue = StreamQueue::new();
        let mut total = 0;
        for (packet, urgency) in [
            (b"committed".as_slice(), Urgency::Realtime),
            (b"stale".as_slice(), Urgency::Realtime),
            (b"probe".as_slice(), Urgency::Reliable),
        ] {
            queue.enqueue(packet, urgency, now).unwrap();
            total += packet.len() + 2;
        }
        assert_eq!(queue.queued_bytes(), total);
        let mut taken = Vec::new();
        let mut left = allowance;
        write_queued(&mut queue, &mut taken, &mut left);
        assert_eq!(queue.written(), allowance);
        assert_eq!(queue.queued_bytes(), total - allowance);

        queue.shed_stale(now + 100 * MILLISECOND);
        // The stale packet is gone: the committed one and the probe are left.
        assert_eq!(queue.queued_bytes(), 11 + 7 - allowance);

        // A fresh game update can follow the surviving probe.
        queue
            .enqueue(b"new", Urgency::Realtime, now + 100 * MILLISECOND)
            .unwrap();
        let mut left = usize::MAX;
        write_queued(&mut queue, &mut taken, &mut left);
        assert!(queue.is_empty());
        assert_eq!((queue.written(), queue.queued_bytes()), (0, 0));
        for expected in [
            b"committed".as_slice(),
            b"probe".as_slice(),
            b"new".as_slice(),
        ] {
            assert_eq!(take_framed(&mut taken).unwrap().unwrap(), expected);
        }
        assert!(taken.is_empty());
    }
}

/// Shedding is oldest-first, because the newest game packet is the one
/// still worth arriving.
#[test]
fn the_backlog_is_bounded_and_the_newest_packets_are_the_survivors() {
    let mut outbound = VecDeque::new();
    // Each one fresh, so only the byte budget can force a drop.
    for index in 0..400 {
        outbound.push_back(Outbound {
            bytes: vec![u8::try_from(index % 251).unwrap(); 1400],
            queued: NOW,
            urgency: Urgency::Realtime,
        });
    }
    let mut queued_bytes = total(&outbound);
    assert!(queued_bytes > MAX_OUTBOUND_BYTES);
    shed(&mut outbound, 0, &mut queued_bytes, NOW);
    assert!(
        queued_bytes <= MAX_OUTBOUND_BYTES,
        "still holding {queued_bytes} bytes"
    );
    assert_eq!(queued_bytes, total(&outbound));
    let last = outbound.back().unwrap().bytes[0];
    assert_eq!(
        last,
        u8::try_from(399 % 251).unwrap(),
        "the newest packet should have survived"
    );
}

#[test]
fn an_oversized_packet_is_refused() {
    let mut queue = StreamQueue::new();
    let packet = vec![0; MAX_PACKET + 1];
    assert!(queue.enqueue(&packet, Urgency::Reliable, NOW).is_err());
    assert!(queue.is_empty());
}

#[test]
fn a_failed_write_is_reported() {
    let mut queue = StreamQueue::new();
    queue.enqueue(b"ping", Urgency::Realtime, NOW).unwrap();
    assert_eq!(queue.next_write(), Some(vec![0, 4, b'p', b'i', b'n', b'g']));
    let failure = queue.note_write(Write::Failed("broken pipe".to_string()));
    assert_eq!(
        failure.err().unwrap(),
        "could not send an OpenVPN packet: broken pipe"
    );
    assert!(matches!(
        queue.note_write(Write::Interrupted).ok().unwrap(),
        Pace::Continue
    ));
}

#[test]
fn bytes_read_from_a_stream_come_out_as_packets() {
    let mut queue = StreamQueue::new();
    queue.feed(&[0, 4, b'p']);
    assert_eq!(queue.take_packet().unwrap(), None);
    queue.feed(b"ong");
    assert_eq!(queue.take_packet().unwrap(), Some(b"pong".to_vec()));
    assert_eq!(queue.take_packet().unwrap(), None);
}
