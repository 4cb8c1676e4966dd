//! Path MTU accounting.
//!
//! A captured packet is not what leaves the machine: every transport wraps it
//! again. Sizing the tunnel by the physical link instead of by the finished
//! wire format is how a 1380-byte packet turns into a 1524-byte datagram on a
//! 1500-byte link, which either fragments or is dropped outright. The numbers
//! here are the worst case for each layer, so the derived MTU is safe rather
//! than optimal.

use vstd::prelude::*;

use crate::protocol::HEADER_LEN;
use crate::relay_path::SessionMode;
use crate::text;

verus! {

/// Conservative fallback and upper bound for an Internet uplink. Ethernet and
/// most consumer links use this. Session setup replaces it with the MTU of the
/// route that actually reaches the selected tunnel endpoint.
pub const LINK_MTU: u16 = 1500;

/// Hard lower bound for a game tunnel. No session is configured below this,
/// whatever the link and encapsulation leave room for.
///
/// 1280 is the minimum every IPv6-capable link must carry, and the figure
/// games, engines and middleboxes assume they can send without discovering a
/// path MTU first. A tunnel advertised under it fits its own link but breaks
/// that assumption, which surfaces as connection failures rather than as the
/// slow path it ought to be. On a link too narrow to hold the floor plus its
/// encapsulation the remainder fragments, and
/// [`EffectiveMtu::below_link_budget`] records that so it can be logged.
pub const MIN_TUNNEL_MTU: u16 = 1280;

/// IPv4 header plus UDP header for the datagram that leaves this machine.
pub const OUTER_IPV4_UDP: u16 = 20 + 8;

/// WireGuard's transport-data message: 16-byte header plus the Poly1305 tag.
pub const WIREGUARD_DATA: u16 = 16 + 16;

/// OpenVPN worst case: opcode/key-id and peer-id, a 16-byte cipher IV, the
/// 8-byte packet id, a 32-byte SHA-256 auth tag, and the 2-byte record length
/// that stream mode puts in front of every packet.
pub const OPENVPN_DATA: u16 = 4 + 16 + 8 + 32 + 2;

/// IPv4 plus a TCP header carrying the options a long-lived stream negotiates,
/// timestamps above all.
///
/// Charged to every OpenVPN path, including one configured for UDP. A UDP
/// remote is retried over TCP, because a provider handing out a UDP profile
/// almost always listens for TCP on the same port and that is the attempt which
/// survives a link that drops large datagrams. So the protocol in use is
/// decided while dialling, after this budget has been derived, and the kind of
/// transport says `openvpn` either way. Costing the cheaper of the two would
/// mean sizing the tunnel for UDP and then running it over TCP.
pub const OUTER_IPV4_TCP: u16 = 20 + 32;

/// SOCKS5 UDP request header in front of an IPv4 target.
pub const SOCKS5_UDP_REQUEST: u16 = 10;

/// Conservative L2TP/IPsec NAT-T allowance: outer IPv4/UDP, non-ESP marker,
/// ESP IV/auth/padding, the L2TP UDP header and PPP framing.
pub const L2TP_IPSEC_DATA: u16 = 116;

/// AEAD tag length that sealing a frame appends.
pub const AEAD_TAG: u16 = 16;

/// A relay frame is an IPv4/UDP datagram carrying the frame header and the
/// AEAD tag that seals it.
pub const RELAY_OVERLAY: u16 = 20 + 8 + HEADER_LEN as u16 + AEAD_TAG;

/// An OS-reported link MTU, brought between the floor and the Internet's own
/// limit.
pub open spec fn normalized(reported: u16) -> u16 {
    if reported < MIN_TUNNEL_MTU {
        MIN_TUNNEL_MTU
    } else if reported > LINK_MTU {
        LINK_MTU
    } else {
        reported
    }
}

/// Makes an OS-reported link MTU safe to use as an Internet packet budget.
/// Jumbo frames do not help the Internet path, and a missing or implausibly
/// small report must never make connection startup fail.
pub fn normalize_link_mtu(reported: u16) -> (r: u16)
    ensures
        r == normalized(reported),
{
    if reported < MIN_TUNNEL_MTU {
        MIN_TUNNEL_MTU
    } else if reported > LINK_MTU {
        LINK_MTU
    } else {
        reported
    }
}

/// A limit that can safely be configured.
pub open spec fn configurable(reported: u16) -> Option<u16> {
    if MIN_TUNNEL_MTU <= reported <= LINK_MTU {
        Some(reported)
    } else {
        None
    }
}

/// A provider-supplied tunnel MTU is an inner-packet limit, not an outer-link
/// budget. Values outside the range that can safely be configured are ignored.
pub fn configured_tunnel_mtu(reported: u16) -> (r: Option<u16>)
    ensures
        r == configurable(reported),
{
    if MIN_TUNNEL_MTU <= reported && reported <= LINK_MTU {
        Some(reported)
    } else {
        None
    }
}

/// What a transport adds to a packet, outer headers and all. An unrecognised
/// transport is assumed to cost as much as the most expensive one, and the
/// allowance for L2TP/IPsec already has its outer headers in it.
pub open spec fn transport_cost(kind: Seq<char>) -> u16 {
    if kind == "wireguard"@ {
        (WIREGUARD_DATA + OUTER_IPV4_UDP) as u16
    } else if kind == "socks5"@ {
        (SOCKS5_UDP_REQUEST + OUTER_IPV4_UDP) as u16
    } else if kind == "openvpn"@ {
        (OPENVPN_DATA + OUTER_IPV4_TCP) as u16
    } else {
        L2TP_IPSEC_DATA
    }
}

/// What a session's packets grow by on a transport. In direct mode the node is
/// the last hop and forwards the captured packet as it stands, so only its own
/// transport wraps it.
pub open spec fn overhead_of(mode: SessionMode, kind: Seq<char>) -> u16 {
    if mode == SessionMode::Relay {
        (transport_cost(kind) + RELAY_OVERLAY) as u16
    } else {
        transport_cost(kind)
    }
}

/// Bytes each layer of `kind` adds to a captured packet under `mode`.
pub fn path_overhead_bytes(mode: SessionMode, kind: &str) -> (r: u16)
    ensures
        r == overhead_of(mode, kind@),
{
    let transport: u16 = if text::same(kind, "wireguard") {
        WIREGUARD_DATA + OUTER_IPV4_UDP
    } else if text::same(kind, "socks5") {
        SOCKS5_UDP_REQUEST + OUTER_IPV4_UDP
    } else if text::same(kind, "openvpn") {
        OPENVPN_DATA + OUTER_IPV4_TCP
    } else {
        L2TP_IPSEC_DATA
    };
    match mode {
        SessionMode::Relay => transport + RELAY_OVERLAY,
        SessionMode::Direct => transport,
    }
}

/// The greatest overhead among some transports, which is at least `least`.
pub open spec fn worst_overhead(mode: SessionMode, kinds: Seq<Seq<char>>, least: u16) -> u16
    decreases kinds.len(),
{
    if kinds.len() == 0 {
        least
    } else {
        let before = worst_overhead(mode, kinds.drop_last(), least);
        let last = overhead_of(mode, kinds.last());
        if last > before {
            last
        } else {
            before
        }
    }
}

/// What a session over some transports has to allow for. The scheduler may move
/// a packet onto any of them without renegotiating anything, so the most
/// expensive one decides.
pub open spec fn session_overhead(mode: SessionMode, kinds: Seq<Seq<char>>) -> u16 {
    if kinds.len() == 0 {
        overhead_of(mode, Seq::<char>::empty())
    } else {
        worst_overhead(mode, kinds, 0)
    }
}

/// The MTU a session can carry, and the TCP MSS that fits inside it.
#[derive(Clone, Copy, Debug, PartialEq, Eq, Structural)]
pub struct EffectiveMtu {
    pub mtu: u16,
    pub overhead: u16,
    /// Set when [`MIN_TUNNEL_MTU`] had to be held above what the link and the
    /// encapsulation actually leave room for.
    ///
    /// The tunnel is still configured at the floor, because that is the
    /// contract, but on such a link a full-size packet has to fragment to get
    /// out. That is worth saying out loud in a log rather than discovering as
    /// unexplained loss, so the decision is recorded here instead of being
    /// silently absorbed by the clamp.
    pub below_link_budget: bool,
}

/// What an overhead leaves of a link, held at the floor.
pub open spec fn fitted(link: u16, overhead: u16) -> EffectiveMtu {
    let budget = normalized(link) - overhead;
    EffectiveMtu {
        mtu: if budget < MIN_TUNNEL_MTU {
            MIN_TUNNEL_MTU
        } else {
            budget as u16
        },
        overhead,
        below_link_budget: budget < MIN_TUNNEL_MTU,
    }
}

/// A session's MTU under the limit that a provider asks for. A limit outside
/// the range that can safely be configured is ignored, and without one the
/// Internet's own holds.
pub open spec fn limited(mtu: EffectiveMtu, limit: Option<u16>) -> EffectiveMtu {
    let asked = match limit {
        Some(limit) => limit,
        None => LINK_MTU,
    };
    let capped = if MIN_TUNNEL_MTU <= asked <= LINK_MTU && asked < mtu.mtu {
        asked
    } else {
        mtu.mtu
    };
    EffectiveMtu {
        mtu: if capped < MIN_TUNNEL_MTU {
            MIN_TUNNEL_MTU
        } else {
            capped
        },
        ..mtu
    }
}

impl EffectiveMtu {
    /// Derived from the most expensive path in the set, because the scheduler
    /// may move a packet onto any of them without renegotiating anything.
    pub fn for_session(mode: SessionMode, kinds: &[&str], link_mtu: u16) -> (r: Self)
        ensures
            r == fitted(link_mtu, session_overhead(mode, text::str_views(kinds@))),
    {
        let link: u16 = normalize_link_mtu(link_mtu);
        let mut overhead: u16 = 0;
        let mut at: usize = 0;
        let ghost all = text::str_views(kinds@);
        assert(all.take(0) =~= Seq::<Seq<char>>::empty());
        while at < kinds.len()
            invariant
                at <= kinds@.len(),
                all == text::str_views(kinds@),
                overhead == worst_overhead(mode, all.take(at as int), 0),
            decreases kinds@.len() - at,
        {
            assert(all.take(at + 1).drop_last() =~= all.take(at as int));
            assert(all.take(at + 1).last() == kinds@[at as int]@);
            let next: u16 = path_overhead_bytes(mode, kinds[at]);
            if next > overhead {
                overhead = next;
            }
            at = at + 1;
        }
        assert(all.take(at as int) =~= all);
        if kinds.len() == 0 {
            let none = String::new();
            overhead = path_overhead_bytes(mode, none.as_str());
            assert(none@ =~= Seq::<char>::empty());
        }
        let budget: u16 = if link < overhead {
            0
        } else {
            link - overhead
        };
        let mtu: u16 = if budget < MIN_TUNNEL_MTU {
            MIN_TUNNEL_MTU
        } else {
            budget
        };
        EffectiveMtu { mtu, overhead, below_link_budget: mtu > budget }
    }

    /// Applies the lower inner-MTU requested by a provider configuration.
    /// The transport overhead is deliberately retained: it describes the
    /// selected transport, while this cap describes the provider's tunnel.
    pub fn with_tunnel_limit(self, configured: Option<u16>) -> (r: Self)
        ensures
            r == limited(self, configured),
    {
        let asked: u16 = match configured {
            Some(limit) => limit,
            None => LINK_MTU,
        };
        let mut mtu: u16 = self.mtu;
        match configured_tunnel_mtu(asked) {
            Some(limit) => {
                if limit < mtu {
                    mtu = limit;
                }
            },
            None => {},
        }
        if mtu < MIN_TUNNEL_MTU {
            mtu = MIN_TUNNEL_MTU;
        }
        EffectiveMtu { mtu, overhead: self.overhead, below_link_budget: self.below_link_budget }
    }

    /// MSS for a clamped TCP handshake: the tunnel MTU less the IPv4 and TCP
    /// headers the peer will add back.
    pub fn tcp_mss(self) -> (r: u16)
        ensures
            r == if self.mtu < 40 {
                0
            } else {
                self.mtu - 40
            },
    {
        if self.mtu < 20 + 20 {
            0
        } else {
            self.mtu - (20 + 20)
        }
    }

    /// Lowest MTU worth trying before declaring a link unusable.
    pub fn probe_floor(self) -> (r: u16)
        ensures
            r == if self.mtu < MIN_TUNNEL_MTU {
                self.mtu
            } else {
                MIN_TUNNEL_MTU
            },
    {
        if self.mtu < MIN_TUNNEL_MTU {
            self.mtu
        } else {
            MIN_TUNNEL_MTU
        }
    }
}

/// The transports that a client may reach the relay over.
pub open spec fn relay_kinds() -> Seq<Seq<char>> {
    seq!["openvpn"@, "wireguard"@, "socks5"@, "l2tp"@]
}

/// MTU for the relay's own TUN interface.
///
/// Whatever the relay writes there is sealed and sent back to the client, so it
/// has to fit inside the smallest tunnel any client might be using. The relay
/// does not know which transports a given client opened, so this is the worst
/// case across all of them.
pub fn relay_tun_mtu(link_mtu: u16) -> (r: u16)
    ensures
        r == fitted(link_mtu, session_overhead(SessionMode::Relay, relay_kinds())).mtu,
{
    let kinds: [&str; 4] = ["openvpn", "wireguard", "socks5", "l2tp"];
    assert(text::str_views(kinds@) =~= relay_kinds());
    EffectiveMtu::for_session(SessionMode::Relay, kinds.as_slice(), link_mtu).mtu
}

proof fn lemma_worst(mode: SessionMode, kinds: Seq<Seq<char>>, i: int)
    requires
        0 <= i < kinds.len(),
    ensures
        overhead_of(mode, kinds[i]) <= worst_overhead(mode, kinds, 0),
    decreases kinds.len(),
{
    if i < kinds.len() - 1 {
        lemma_worst(mode, kinds.drop_last(), i);
    }
}

/// No session is ever configured below the floor, whatever the transports, the
/// mode, the link and the limit of the provider.
pub proof fn no_session_is_below_the_floor(
    mode: SessionMode,
    kinds: Seq<Seq<char>>,
    link: u16,
    limit: Option<u16>,
)
    ensures
        fitted(link, session_overhead(mode, kinds)).mtu >= MIN_TUNNEL_MTU,
        limited(fitted(link, session_overhead(mode, kinds)), limit).mtu >= MIN_TUNNEL_MTU,
{
}

/// A provider's limit can only reduce what a session was given, and never
/// touches what the transport is charged.
pub proof fn a_limit_can_only_reduce(link: u16, overhead: u16, limit: Option<u16>)
    ensures
        limited(fitted(link, overhead), limit).mtu <= fitted(link, overhead).mtu,
        limited(fitted(link, overhead), limit).overhead == overhead,
{
}

/// A session that is not flagged fits its link: a full packet and what wraps it
/// are together exactly as long as the link allows. One that is flagged does
/// not fit.
pub proof fn an_unflagged_session_fits_its_link(link: u16, overhead: u16)
    ensures
        !fitted(link, overhead).below_link_budget ==> fitted(link, overhead).mtu + overhead
            == normalized(link),
        fitted(link, overhead).below_link_budget ==> fitted(link, overhead).mtu + overhead
            > normalized(link),
{
}

/// The most expensive path sets the session's MTU: every path of the session
/// could carry at least as much on its own.
pub proof fn the_most_expensive_path_decides(
    mode: SessionMode,
    kinds: Seq<Seq<char>>,
    i: int,
    link: u16,
)
    requires
        0 <= i < kinds.len(),
    ensures
        session_overhead(mode, kinds) >= overhead_of(mode, kinds[i]),
        fitted(link, session_overhead(mode, kinds)).mtu <= fitted(
            link,
            overhead_of(mode, kinds[i]),
        ).mtu,
{
    lemma_worst(mode, kinds, i);
}

/// Whatever the relay writes to its TUN interface fits inside the tunnel of
/// every client, over whatever transport.
pub proof fn the_relay_tun_fits_every_transport(kind: Seq<char>, link: u16)
    ensures
        fitted(link, session_overhead(SessionMode::Relay, relay_kinds())).mtu <= fitted(
            link,
            overhead_of(SessionMode::Relay, kind),
        ).mtu,
{
    let kinds = relay_kinds();
    lemma_worst(SessionMode::Relay, kinds, 0);
    lemma_worst(SessionMode::Relay, kinds, 1);
    lemma_worst(SessionMode::Relay, kinds, 2);
    lemma_worst(SessionMode::Relay, kinds, 3);
    reveal_strlit("wireguard");
    reveal_strlit("socks5");
    reveal_strlit("openvpn");
    reveal_strlit("l2tp");
    assert("l2tp"@.len() == 4);
}

/// The overhead of a session is that of one of its paths: no more is given up
/// than the most expensive one needs.
pub proof fn some_path_needs_the_overhead(mode: SessionMode, kinds: Seq<Seq<char>>)
    requires
        kinds.len() > 0,
    ensures
        exists|i: int|
            0 <= i < kinds.len() && session_overhead(mode, kinds) == overhead_of(
                mode,
                #[trigger] kinds[i],
            ),
    decreases kinds.len(),
{
    let less = kinds.drop_last();
    let last = kinds.len() - 1;
    assert(kinds[last] == kinds.last());
    if less.len() == 0 {
        assert(worst_overhead(mode, less, 0) == 0);
        assert(session_overhead(mode, kinds) == overhead_of(mode, kinds[last]));
    } else {
        some_path_needs_the_overhead(mode, less);
        let i = choose|i: int|
            0 <= i < less.len() && session_overhead(mode, less) == overhead_of(
                mode,
                #[trigger] less[i],
            );
        assert(kinds[i] == less[i]);
    }
}

/// What each transport adds to a packet, and what the relay adds on top of it.
pub proof fn each_transport_has_its_price(kind: Seq<char>)
    ensures
        overhead_of(SessionMode::Direct, "wireguard"@) == 60,
        overhead_of(SessionMode::Direct, "socks5"@) == 38,
        overhead_of(SessionMode::Direct, "openvpn"@) == 114,
        kind != "wireguard"@ && kind != "socks5"@ && kind != "openvpn"@ ==> overhead_of(
            SessionMode::Direct,
            kind,
        ) == 116,
        overhead_of(SessionMode::Relay, kind) == overhead_of(SessionMode::Direct, kind) + 84,
{
    reveal_strlit("wireguard");
    reveal_strlit("socks5");
    reveal_strlit("openvpn");
    assert("wireguard"@.len() == 9 && "socks5"@.len() == 6 && "openvpn"@.len() == 7);
}

/// A link's own figure counts between 1280 and 1500 and is brought to the nearer
/// of the two outside; what it leaves over the overhead is the tunnel's, and
/// never less than 1280.
pub proof fn the_tunnel_gets_what_the_link_leaves(link: u16, overhead: u16)
    ensures
        ({
            let taken = fitted(link, overhead);
            let usable = if link < 1280 {
                1280int
            } else if link > 1500 {
                1500int
            } else {
                link as int
            };
            &&& taken.overhead == overhead
            &&& usable - overhead >= 1280 ==> taken.mtu == usable - overhead
                && !taken.below_link_budget
            &&& usable - overhead < 1280 ==> taken.mtu == 1280 && taken.below_link_budget
        }),
{
}

/// A provider's own limit counts between 1280 and 1500, and only where it is the
/// smaller.
pub proof fn a_limit_counts_within_its_range(mtu: EffectiveMtu, limit: u16)
    requires
        1280 <= mtu.mtu <= 1500,
    ensures
        limited(mtu, None) == mtu,
        limit < 1280 || limit > 1500 ==> limited(mtu, Some(limit)) == mtu,
        1280 <= limit <= 1500 ==> limited(mtu, Some(limit)).mtu == if limit < mtu.mtu {
            limit
        } else {
            mtu.mtu
        },
        configurable(limit) == if 1280 <= limit && limit <= 1500 {
            Some(limit)
        } else {
            None
        },
{
}

/// A session whose paths are not known yet gives up as much as the most
/// expensive transport needs.
pub proof fn an_unknown_path_is_taken_for_the_most_expensive(mode: SessionMode, kind: Seq<char>)
    ensures
        session_overhead(mode, Seq::<Seq<char>>::empty()) >= overhead_of(mode, kind),
        session_overhead(SessionMode::Direct, Seq::<Seq<char>>::empty()) == 116,
        session_overhead(SessionMode::Relay, Seq::<Seq<char>>::empty()) == 200,
{
    reveal_strlit("wireguard");
    reveal_strlit("socks5");
    reveal_strlit("openvpn");
    assert("wireguard"@.len() == 9 && "socks5"@.len() == 6 && "openvpn"@.len() == 7);
}

} // verus!
