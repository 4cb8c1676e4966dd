//! What a session does with what its server says.
//!
//! Each of these is told by the bytes that arrive and what they lead to, apart
//! from how the session reads them.

use vstd::prelude::*;

use crate::bytes;
use crate::openvpn::config::{DataCipher, Protocol};
use crate::openvpn::control;
use crate::openvpn::crypto;
use crate::openvpn::crypto::KeySource;
use crate::openvpn::session;
use crate::openvpn::session::{NextModel, Outcome, SessionState, Stage};
use crate::text;
use crate::time::Clock;

verus! {

/// The server's half of a key exchange, as a server writes it.
pub open spec fn server_half(random1: Seq<u8>, random2: Seq<u8>, options: Seq<u8>) -> Seq<u8> {
    seq![0u8, 0u8, 0u8, 0u8, 2u8] + random1 + random2 + seq![
        (options.len() / 256) as u8,
        (options.len() % 256) as u8,
    ] + options
}

proof fn lemma_server_half(random1: Seq<u8>, random2: Seq<u8>, options: Seq<u8>)
    requires
        random1.len() == 32,
        random2.len() == 32,
        options.len() <= 0xffff,
    ensures
        ({
            let m = server_half(random1, random2, options);
            &&& m.len() == 71 + options.len()
            &&& m.take(4) == seq![0u8, 0u8, 0u8, 0u8]
            &&& m[4] == 2
            &&& m.subrange(5, 37) == random1
            &&& m.subrange(37, 69) == random2
            &&& bytes::be_value(m.subrange(69, 71)) == options.len()
            &&& m.skip(71 + options.len() as int) == Seq::<u8>::empty()
        }),
{
    let m = server_half(random1, random2, options);
    assert(m.take(4) =~= seq![0u8, 0u8, 0u8, 0u8]);
    assert(m.subrange(5, 37) =~= random1);
    assert(m.subrange(37, 69) =~= random2);
    let size = m.subrange(69, 71);
    assert(size =~= seq![(options.len() / 256) as u8, (options.len() % 256) as u8]);
    assert(size.drop_last() =~= seq![(options.len() / 256) as u8]);
    assert(size.drop_last().drop_last() =~= Seq::<u8>::empty());
    assert(bytes::be_value(Seq::<u8>::empty()) == 0);
    assert(bytes::be_value(size.drop_last()) == options.len() / 256);
    assert(m.skip(71 + options.len() as int) =~= Seq::<u8>::empty());
}

/// The keys are derived from the server's two random values, the first for the
/// master secret and the second for the keys, with both session ids, this end's
/// first. The session then asks for its settings.
pub proof fn the_server_half_completes_the_keys(
    st: SessionState,
    random1: Seq<u8>,
    random2: Seq<u8>,
    options: Seq<u8>,
)
    requires
        !st.server_material,
        st.messages.len() == 0,
        st.pushed is None,
        st.control.remote_session_id is Some,
        random1.len() == 32,
        random2.len() == 32,
        options.len() <= 0xffff,
    ensures
        ({
            let master = crypto::tls1_prf_bytes(
                st.key_source.pre_master@,
                vstd::utf8::encode_utf8("OpenVPN master secret"@) + st.key_source.random1@ + random1,
                48,
            );
            let keys = crypto::tls1_prf_bytes(
                master,
                vstd::utf8::encode_utf8("OpenVPN key expansion"@) + st.key_source.random2@ + random2
                    + st.control.session_id + st.control.remote_session_id->0,
                256,
            );
            session::tls_read(st, server_half(random1, random2, options)) == (Outcome {
                state: SessionState {
                    material: Some(keys),
                    server_material: true,
                    stage: Stage::Push,
                    ..st
                },
                fault: None,
            })
        }),
{
    let m = server_half(random1, random2, options);
    lemma_server_half(random1, random2, options);
    assert(st.messages + m =~= m);
    let a = vstd::utf8::encode_utf8("OpenVPN master secret"@);
    assert(a + st.key_source.random1@ + random1 + Seq::<u8>::empty() =~= a + st.key_source.random1@
        + random1);
    let b = vstd::utf8::encode_utf8("OpenVPN key expansion"@);
    let ours = st.control.session_id;
    let theirs = st.control.remote_session_id->0;
    assert(b + st.key_source.random2@ + random2 + (ours + theirs) =~= b + st.key_source.random2@
        + random2 + ours + theirs);
    assert(st.messages =~= Seq::<u8>::empty());
    assert(session::first_zero(Seq::<u8>::empty()) == 0);
}

/// Less than the whole of the server's half changes nothing but what has been
/// gathered of it.
pub proof fn part_of_the_server_half_is_kept(
    st: SessionState,
    random1: Seq<u8>,
    random2: Seq<u8>,
    options: Seq<u8>,
    n: int,
)
    requires
        !st.server_material,
        st.messages.len() == 0,
        random1.len() == 32,
        random2.len() == 32,
        options.len() <= 0xffff,
        0 <= n < 71 + options.len(),
    ensures
        session::tls_read(st, server_half(random1, random2, options).take(n)) == (Outcome {
            state: SessionState { messages: server_half(random1, random2, options).take(n), ..st },
            fault: None,
        }),
{
    let m = server_half(random1, random2, options);
    lemma_server_half(random1, random2, options);
    let part = m.take(n);
    assert(st.messages + part =~= part);
    assert(st.messages =~= Seq::<u8>::empty());
    if n == 0 {
        assert(part =~= Seq::<u8>::empty());
    } else if n >= 71 {
        assert(part.take(4) =~= m.take(4));
        assert(part.subrange(69, 71) =~= m.subrange(69, 71));
    }
}

proof fn lemma_zero_in_front(a: Seq<u8>, b: Seq<u8>)
    ensures
        session::first_zero(a) <= a.len(),
        session::first_zero(a) < a.len() ==> session::first_zero(a + b) == session::first_zero(a),
        session::first_zero(a) >= a.len() ==> session::first_zero(a + b) == a.len()
            + session::first_zero(b),
    decreases a.len(),
{
    if a.len() == 0 {
        assert(a + b =~= b);
    } else {
        assert((a + b)[0] == a[0]);
        if a[0] != 0 {
            assert((a + b).skip(1) =~= a.skip(1) + b);
            lemma_zero_in_front(a.skip(1), b);
        }
    }
}

proof fn lemma_pushed_aside(st: SessionState, held: Seq<u8>, message: Seq<char>)
    ensures
        session::message_handled(SessionState { messages: held, ..st }, message) == (Outcome {
            state: SessionState { messages: held, ..session::message_handled(st, message).state },
            fault: session::message_handled(st, message).fault,
        }),
{
}

proof fn lemma_held_is_replaced(st: SessionState, held: Seq<u8>, rest: Seq<u8>)
    ensures
        session::texts_read(SessionState { messages: held, ..st }, rest) == session::texts_read(
            st,
            rest,
        ),
{
    let n = session::first_zero(rest) as int;
    if n < rest.len() {
        let after = rest.skip(n + 1);
        assert((SessionState { messages: after, ..(SessionState { messages: held, ..st }) })
            == (SessionState { messages: after, ..st }));
    }
}

proof fn lemma_texts_in_two(st: SessionState, a: Seq<u8>, b: Seq<u8>)
    ensures
        ({
            let first = session::texts_read(st, a);
            first.fault is None ==> session::texts_read(st, a + b) == session::texts_read(
                first.state,
                first.state.messages + b,
            )
        }),
        ({
            let first = session::texts_read(st, a);
            first.fault is Some ==> session::texts_read(st, a + b).fault == first.fault
        }),
    decreases a.len(),
{
    let n = session::first_zero(a) as int;
    lemma_zero_in_front(a, b);
    if n >= a.len() {
        let first = session::texts_read(st, a);
        assert(first.state == SessionState { messages: a, ..st });
        lemma_held_is_replaced(st, a, a + b);
    } else {
        let after = a.skip(n + 1);
        assert((a + b).take(n) =~= a.take(n));
        assert((a + b).skip(n + 1) =~= after + b);
        let message = session::text_in(a.take(n));
        let alone = session::message_handled(SessionState { messages: after, ..st }, message);
        let both = session::message_handled(SessionState { messages: after + b, ..st }, message);
        lemma_pushed_aside(st, after, message);
        lemma_pushed_aside(st, after + b, message);
        if alone.fault is None {
            lemma_texts_in_two(alone.state, after, b);
            assert(both.state == SessionState { messages: after + b, ..alone.state });
            lemma_held_is_replaced(alone.state, after + b, after + b);
        }
    }
}

/// It does not matter how TLS cuts the server's messages: once the keys are
/// there, two pieces lead to what both at once lead to, and a refusal in the
/// first piece stands.
pub proof fn a_message_may_come_in_pieces(st: SessionState, a: Seq<u8>, b: Seq<u8>)
    requires
        st.server_material,
    ensures
        ({
            let first = session::tls_read(st, a);
            &&& first.fault is None && a.len() > 0 && b.len() > 0 ==> session::tls_read(st, a + b)
                == session::tls_read(first.state, b)
            &&& first.fault is Some ==> session::tls_read(st, a + b).fault == first.fault
        }),
{
    if a.len() > 0 {
        let gathered = st.messages + a;
        assert(st.messages + (a + b) =~= gathered + b);
        lemma_held_is_replaced(st, gathered, gathered);
        lemma_held_is_replaced(st, gathered + b, gathered + b);
        lemma_texts_in_two(st, gathered, b);
        let first = session::texts_read(st, gathered);
        if first.fault is None {
            lemma_material_stays(st, gathered);
            lemma_held_is_replaced(
                first.state,
                first.state.messages + b,
                first.state.messages + b,
            );
        }
    }
}

proof fn lemma_material_stays(st: SessionState, rest: Seq<u8>)
    ensures
        session::texts_read(st, rest).state.server_material == st.server_material,
    decreases rest.len(),
{
    let n = session::first_zero(rest) as int;
    if n < rest.len() {
        let after = rest.skip(n + 1);
        let step = session::message_handled(
            SessionState { messages: after, ..st },
            session::text_in(rest.take(n)),
        );
        if step.fault is None {
            lemma_material_stays(step.state, after);
        }
    }
}

/// What a server says when it turns a login away is shown in its own words.
pub proof fn a_refused_login_is_shown_in_the_server_s_words(st: SessionState, detail: Seq<char>)
    requires
        detail.len() > 0,
        detail[0] != ',',
        !text::is_space(detail[0]),
        !text::is_space(detail.last()),
    ensures
        session::message_handled(st, "AUTH_FAILED"@ + seq![','] + detail) == (Outcome {
            state: st,
            fault: Some("the OpenVPN server rejected this node's login: "@ + detail),
        }),
        session::message_handled(st, "AUTH_FAILED"@ + seq![',', ' '] + detail).fault == Some(
            "the OpenVPN server rejected this node's login: "@ + detail,
        ),
        session::message_handled(st, "AUTH_FAILED"@).fault is Some,
        session::message_handled(st, "HALT"@ + seq![','] + detail).fault == Some(
            "the OpenVPN server refused the session: "@ + ("HALT"@ + seq![','] + detail),
        ),
        session::message_handled(st, "RESTART"@ + seq![','] + detail).fault == Some(
            "the OpenVPN server refused the session: "@ + ("RESTART"@ + seq![','] + detail),
        ),
{
    reveal_strlit("AUTH_FAILED");
    reveal_strlit("PUSH_REPLY,");
    reveal_strlit("HALT");
    reveal_strlit("RESTART");
    let failed = "AUTH_FAILED"@;
    let one = failed + seq![','] + detail;
    let two = failed + seq![',', ' '] + detail;
    assert(one.take(11) =~= failed);
    assert(two.take(11) =~= failed);
    assert(one.last() == detail.last() && two.last() == detail.last());
    assert(one[0] == 'A' && two[0] == 'A');
    text::lemma_trimmed_as_it_is(one);
    text::lemma_trimmed_as_it_is(two);
    text::lemma_trimmed_as_it_is(detail);
    assert(one.skip(11) =~= seq![','] + detail);
    assert(two.skip(11) =~= seq![',', ' '] + detail);
    assert((seq![','] + detail).skip(1) =~= detail);
    assert((seq![',', ' '] + detail).skip(1) =~= seq![' '] + detail);
    assert((seq![' '] + detail).skip(1) =~= detail);
    assert(session::separators_dropped(detail) == detail);
    assert(session::separators_dropped(seq![','] + detail) == detail);
    assert(session::separators_dropped(seq![' '] + detail) == detail);
    assert(session::separators_dropped(seq![',', ' '] + detail) == detail);
    assert(one.take(11)[0] == 'A' && "PUSH_REPLY,"@[0] == 'P');
    assert(two.take(11)[0] == 'A');
    assert(failed.take(11) =~= failed);
    assert(failed.take(11)[0] == 'A');
    let halt = "HALT"@ + seq![','] + detail;
    let restart = "RESTART"@ + seq![','] + detail;
    assert(halt.take(4) =~= "HALT"@);
    assert(restart.take(7) =~= "RESTART"@);
    assert(halt[0] == 'H' && restart[0] == 'R');
    assert(halt.last() == detail.last() && restart.last() == detail.last());
    text::lemma_trimmed_as_it_is(halt);
    text::lemma_trimmed_as_it_is(restart);
    if text::begins_with(halt, failed) {
        assert(halt.take(11)[0] == 'H');
    }
    if text::begins_with(restart, failed) {
        assert(restart.take(11)[0] == 'R');
    }
    if text::begins_with(halt, "PUSH_REPLY,"@) {
        assert(halt.take(11)[0] == 'H');
    }
    if text::begins_with(restart, "PUSH_REPLY,"@) {
        assert(restart.take(11)[0] == 'R');
    }
}

/// Settings are taken once: a second push message changes nothing, and one that
/// comes before the keys ends the session. What is taken brings up a channel
/// with the pushed cipher under the keys that were derived.
pub proof fn settings_are_taken_once(st: SessionState, options: Seq<char>)
    ensures
        ({
            let read = session::message_handled(st, "PUSH_REPLY,"@ + options);
            &&& st.pushed is Some ==> read == (Outcome { state: st, fault: None })
            &&& st.pushed is None && st.material is None ==> read.fault is Some && read.state == st
            &&& st.pushed is None && st.material is Some ==> match session::push_read(
                st.first_cipher,
                options,
            ) {
                Err(why) => read == (Outcome { state: st, fault: Some(why) }),
                Ok(pushed) => {
                    &&& read.fault is None
                    &&& read.state.pushed == Some(pushed)
                    &&& st.channels.len() == 0 ==> read.state.channels == seq![
                        crypto::new_channel(
                            st.material->0,
                            pushed.cipher,
                            pushed.peer_id,
                            st.control.key_id,
                        ),
                    ]
                },
            }
        }),
{
    reveal_strlit("PUSH_REPLY,");
    let message = "PUSH_REPLY,"@ + options;
    assert(message.take(11) =~= "PUSH_REPLY,"@);
    assert(message.skip(11) =~= options);
    if st.channels.len() == 0 {
        assert(!session::has_generation(st.channels, st.control.key_id));
        if let Ok(pushed) = session::push_read(st.first_cipher, options) {
            if st.material is Some && st.pushed is None {
                let read = session::message_handled(st, message);
                assert(read.state.channels =~= seq![
                    crypto::new_channel(
                        st.material->0,
                        pushed.cipher,
                        pushed.peer_id,
                        st.control.key_id,
                    ),
                ]);
            }
        }
    }
}

/// A rekey begins the exchange of keys anew and touches nothing else: the
/// session ids, the settings, the channels in use and what has been received
/// stay, and asking for the generation that is being negotiated changes nothing.
pub proof fn a_rekey_keeps_the_session(
    st: SessionState,
    key_id: u8,
    now: Clock,
    source: KeySource,
)
    ensures
        key_id == st.control.key_id ==> session::renegotiated(st, key_id, now, source) == (
            st,
            NextModel::Idle,
        ),
        key_id != st.control.key_id ==> {
            let (next, request) = session::renegotiated(st, key_id, now, source);
            &&& request == NextModel::RestartTls
            &&& next.control.key_id == key_id
            &&& next.control.session_id == st.control.session_id
            &&& next.control.remote_session_id == st.control.remote_session_id
            &&& next.control.expected_packet_id == 0
            &&& next.control.unacknowledged.len() == 1
            &&& next.control.unacknowledged[0].packet_id == 0
            &&& next.pushed == st.pushed && next.channels == st.channels
            &&& next.inbound == st.inbound && next.protocol == st.protocol
            &&& next.first_cipher == st.first_cipher
            &&& next.last_inbound == st.last_inbound && next.last_keepalive == st.last_keepalive
            &&& next.material is None && !next.server_material && next.messages.len() == 0
            &&& next.stage == Stage::Tls && next.tls_up
            &&& next.key_source == source
        },
{
}

/// A link counts as quiet from six seconds after the last packet on, and not
/// before.
pub proof fn silence_is_told_by_the_clock(st: SessionState, now: u64, peer: Option<Seq<char>>)
    requires
        st.last_inbound <= now,
    ensures
        session::silence(st, now, peer) is Some <==> now - st.last_inbound >= 6_000_000_000,
        st.stage != Stage::Reset && st.protocol == Protocol::Udp && session::silence(st, now, peer)
            is Some ==> session::silence(st, now, peer) == Some(session::SILENT_OVER_UDP@),
        st.stage != Stage::Reset && st.protocol == Protocol::Tcp && session::silence(st, now, peer)
            is Some ==> session::silence(st, now, peer) == Some(session::SILENT_OVER_TCP@),
        st.stage == Stage::Reset && session::silence(st, now, peer) is Some ==> (peer matches Some(
            address,
        ) ==> session::silence(st, now, peer) == Some(
            "the OpenVPN server at "@ + address + session::SILENT_FROM_THE_START@,
        )),
{
}

/// A sign of life is due once the server's interval has passed since the last
/// packet went out, and a packet that goes out puts it off by the whole
/// interval.
pub proof fn traffic_stands_in_for_signs_of_life(
    st: SessionState,
    packet: Seq<u8>,
    now: u64,
    later: u64,
)
    requires
        st.pushed is Some,
        now <= later,
        st.last_keepalive <= now,
    ensures
        session::keepalive_due(st, now) <==> (st.pushed->0.keepalive matches Some(seconds) && now
            - st.last_keepalive >= seconds * 1_000_000_000),
        ({
            let sent = session::inner_sent(st, packet, now);
            sent.sealed is Ok ==> (session::keepalive_due(sent.state, later) <==> (
            st.pushed->0.keepalive matches Some(seconds) && later - now >= seconds
                * 1_000_000_000))
        }),
{
}

/// A session begins with one packet, the client's reset, numbered zero; nothing
/// is agreed on yet.
pub proof fn a_session_begins_with_a_reset(
    first_cipher: DataCipher,
    protocol: Protocol,
    keys: control::WrapKeys,
    id: Seq<u8>,
    source: KeySource,
    now: Clock,
)
    requires
        id.len() == 8,
    ensures
        ({
            let st = session::opening_state(
                first_cipher,
                protocol,
                control::fresh(keys, id),
                source,
                now,
            );
            &&& st.control.outgoing.len() == 1
            &&& st.control.outgoing[0][0] == 56
            &&& st.control.unacknowledged.len() == 1
            &&& st.control.unacknowledged[0].packet_id == 0
            &&& st.control.unacknowledged[0].packet == st.control.outgoing[0]
            &&& st.control.next_packet_id == 1
            &&& st.stage == Stage::Reset && !st.tls_up
            &&& st.material is None && st.pushed is None && st.channels.len() == 0
            &&& st.key_source == source && st.protocol == protocol
            &&& st.last_inbound == now.monotonic && st.last_keepalive == now.monotonic
        }),
{
    assert((7u8 << 3) | 0u8 == 56) by (bit_vector);
}

/// The server's answer to the reset starts TLS, once; what it sends before that
/// is not for TLS, and what it sends after it is.
pub proof fn tls_is_started_once(st: SessionState, packet: Seq<u8>, now: Clock, source: KeySource)
    ensures
        control::received(st.control, packet, now.unix_seconds) matches Ok((next, meaning)) ==> {
            let taken = session::control_step(st, packet, now, source);
            &&& taken is Ok
            &&& meaning is ServerReset && !st.tls_up ==> (taken->Ok_0).1 == NextModel::BeginTls && (
            taken->Ok_0).0.tls_up && (taken->Ok_0).0.stage == Stage::Tls
            &&& meaning is ServerReset && st.tls_up ==> (taken->Ok_0).1 == NextModel::Idle && (
            taken->Ok_0).0.stage == st.stage
            &&& meaning matches control::Meaning::Payload(payload) ==> (taken->Ok_0).1
                == if st.tls_up {
                NextModel::FeedTls(payload)
            } else {
                NextModel::Idle
            }
            &&& meaning is Nothing ==> (taken->Ok_0).1 == NextModel::Idle
            &&& meaning matches control::Meaning::SoftReset { key_id } ==> (key_id
                != next.key_id ==> (taken->Ok_0).1 == NextModel::RestartTls && (
            taken->Ok_0).0.control.key_id == key_id)
            &&& !(meaning is SoftReset) ==> (taken->Ok_0).0.control == next
            &&& (taken->Ok_0).0.channels == st.channels && (taken->Ok_0).0.pushed == st.pushed
        },
        control::received(st.control, packet, now.unix_seconds) is Err ==> session::control_step(
            st,
            packet,
            now,
            source,
        ) is Err,
{
}

/// A text that a server sends as it should is read as it was meant.
pub proof fn a_text_reads_back(s: Seq<char>)
    ensures
        session::text_in(vstd::utf8::encode_utf8(s)) == s,
{
    vstd::utf8::encode_utf8_valid_utf8(s);
    vstd::utf8::encode_utf8_decode_utf8(s);
}

/// Messages end at a zero byte: each is read up to its own, and what follows it
/// is read on from there.
pub proof fn messages_end_at_a_zero(st: SessionState, message: Seq<u8>, rest: Seq<u8>)
    requires
        st.server_material,
        st.messages.len() == 0,
        forall|i: int| 0 <= i < message.len() ==> message[i] != 0,
    ensures
        ({
            let step = session::message_handled(
                SessionState { messages: rest, ..st },
                session::text_in(message),
            );
            let read = session::tls_read(st, message + seq![0u8] + rest);
            &&& step.fault is Some ==> read == step
            &&& step.fault is None ==> read == session::texts_read(step.state, rest)
        }),
        session::tls_read(st, message) == (Outcome {
            state: SessionState { messages: message, ..st },
            fault: None,
        }),
{
    let all = message + seq![0u8] + rest;
    assert(st.messages + all =~= all);
    assert(st.messages + message =~= message);
    lemma_zero_in_front(message, seq![0u8] + rest);
    lemma_no_zero(message);
    assert(all =~= message + (seq![0u8] + rest));
    let n = message.len() as int;
    assert(all.take(n) =~= message);
    assert(all.skip(n + 1) =~= rest);
    if message.len() == 0 {
        assert(st.messages =~= message);
    }
    let gathered = SessionState { messages: all, ..st };
    assert((SessionState { messages: rest, ..gathered }) == (SessionState { messages: rest, ..st }));
}

proof fn lemma_no_zero(data: Seq<u8>)
    requires
        forall|i: int| 0 <= i < data.len() ==> data[i] != 0,
    ensures
        session::first_zero(data) == data.len(),
    decreases data.len(),
{
    if data.len() > 0 {
        lemma_no_zero(data.skip(1));
    }
}

/// The settings are asked for as soon as the keys are there, and again every
/// second and a half until they come.
pub proof fn settings_are_asked_for_until_they_come(st: SessionState, now: u64, later: u64)
    requires
        now <= later,
    ensures
        !st.server_material || st.pushed is Some ==> !session::push_due(st, now),
        st.server_material && st.pushed is None && st.last_push_request is None
            ==> session::push_due(st, now),
        st.server_material && st.pushed is None ==> (session::push_due(
            SessionState { last_push_request: Some(now), ..st },
            later,
        ) <==> later - now >= 1_500_000_000),
{
}

/// A read waits until its time is up, and no read waits past that; the time is up
/// for good unless packets have begun to arrive.
pub proof fn a_read_ends_with_its_time(st: session::GatherState, now: u64)
    requires
        !st.draining,
    ensures
        now >= st.deadline ==> st.wait(now) is None,
        now < st.deadline ==> (st.wait(now) matches Some(wait) && 0 < wait && now + wait
            <= st.deadline && (st.deadline - now <= session::READ_SLICE ==> now + wait
            == st.deadline)),
        st.after(None) == st,
        st.goes_on_idle() <==> st.packets.len() == 0,
        forall|packet: Seq<u8>|
            (#[trigger] st.after(Some(packet))).packets.len() == st.packets.len() + 1
                && st.after(Some(packet)).packets.last() == packet && st.after(
                Some(packet),
            ).packets.drop_last() == st.packets,
{
    assert forall|packet: Seq<u8>|
        (#[trigger] st.after(Some(packet))).packets.len() == st.packets.len() + 1 && st.after(
            Some(packet),
        ).packets.last() == packet && st.after(Some(packet)).packets.drop_last()
            == st.packets by {
        assert(st.packets.push(packet).drop_last() =~= st.packets);
    }
}

/// A setup has twenty seconds, and the reason why it ran out of them tells how
/// far it got: each stage has its own.
pub proof fn a_setup_has_twenty_seconds(started: u64, now: u64)
    requires
        started <= now,
    ensures
        session::setup_expired(started, now) <==> now - started >= 20_000_000_000,
        session::stall_reason(Stage::Reset) != session::stall_reason(Stage::Tls),
        session::stall_reason(Stage::Tls) != session::stall_reason(Stage::KeyExchange),
        session::stall_reason(Stage::KeyExchange) != session::stall_reason(Stage::Push),
{
    reveal_strlit(
        "the OpenVPN session did not come up: the server never answered the opening packet. Check the address, the port and whether this is a udp or tcp configuration.",
    );
    reveal_strlit(
        "the OpenVPN session did not come up: the TLS handshake did not finish. Over UDP this usually means the server's handshake packets are too large for the path and are being dropped; the same provider's tcp configuration will normally connect.",
    );
    reveal_strlit(
        "the OpenVPN session did not come up: the server accepted the TLS handshake but never sent its key material.",
    );
    reveal_strlit(
        "the OpenVPN session did not come up: the server never pushed the tunnel's settings, which usually means it is still deciding whether to accept the credentials.",
    );
    let reset = session::stall_reason(Stage::Reset);
    let tls = session::stall_reason(Stage::Tls);
    let keys = session::stall_reason(Stage::KeyExchange);
    let push = session::stall_reason(Stage::Push);
    assert(reset[41] == 's' && tls[41] == 'T' && keys[48] == 'a' && push[48] == 'n');
}

} // verus!
