# gamepath_engine

The decisions of a multipath game tunnel, verified with Verus.

A session carries captured IP packets over several nodes at once. In relay mode
each packet is sealed and sent down the paths that the scheduler picks, and the
relay keeps the first copy that arrives. In direct mode a single node is the
last hop. This library holds what such an engine decides and computes; the
sockets, the adapter, TLS and the floating-point measurements are in `app/`,
which hands the library plain values and acts on what comes back.

## Layout

- `src/protocol.rs`, `src/auth.rs`, `src/replay.rs`: the frames that travel to
  the relay, how they are sealed, and which copies are taken.
- `src/scheduler.rs`, `src/rtt.rs`, `src/mtu.rs`: which paths carry a packet,
  how long a probe may take, and how large a packet may be.
- `src/session/`: starting a session, the workers that run its paths, their
  health, redialling, the data plane and the status.
- `src/openvpn/`: a user-space OpenVPN client, from the configuration file to
  the data channel.
- `src/relay_path.rs`, `src/l2tp.rs`, `src/socks5.rs`: the nodes and the
  transports they become.
- `src/capture.rs`, `src/netconfig.rs`, `src/dns.rs`, `src/policy.rs`: what is
  captured, and how the system is set up for it.
- `src/commands.rs`, `src/ipc.rs`, `src/log.rs`: the requests and the log.
- `src/net.rs`, `src/packet.rs`, `src/text.rs`, `src/utf16.rs`, `src/bytes.rs`,
  `src/bits.rs`, `src/time.rs`: addresses, packets, text and bytes.

Contracts are stated over mathematical models. The properties that relate
several functions are public proof functions, named as the sentence they prove.

Ciphers, digests, key derivation, base64, PEM and randomness come from outside
crates. Each is called in one function marked `external_body`, whose comment
says what is taken on trust.
