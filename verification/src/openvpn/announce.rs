//! What the client says of itself to a server.
//!
//! Both texts are lists, and what they say is told here item by item.

use vstd::prelude::*;

use crate::openvpn::config;
use crate::openvpn::config::{DataCipher, Digest, OpenVpnConfig, Protocol, Remote};
use crate::text;

verus! {

/// Whether a character is nowhere in a text.
spec fn without(s: Seq<char>, c: char) -> bool {
    forall|i: int| 0 <= i < s.len() ==> s[i] != c
}

proof fn lemma_one_more(a: Seq<char>, parts: Seq<Seq<char>>, b: Seq<char>, c: char, all: Seq<char>)
    requires
        text::split_at_char(a, c) == parts,
        without(b, c),
        all == a + seq![c] + b,
    ensures
        text::split_at_char(all, c) == parts.push(b),
{
    text::lemma_split_last(a, b, c);
}

proof fn lemma_alone(s: Seq<char>, c: char)
    requires
        without(s, c),
    ensures
        text::split_at_char(s, c) == seq![s],
{
    text::lemma_first_index(s, c, s.len());
}

proof fn lemma_digits_only(n: nat)
    ensures
        without(text::decimal(n), ','),
        without(text::decimal(n), '\n'),
{
    text::lemma_decimal_reads_back(n);
    let s = text::decimal(n);
    assert forall|i: int| 0 <= i < s.len() implies s[i] != ',' && s[i] != '\n' by {
        assert(text::is_digit(s[i]));
    }
}

proof fn lemma_names_are_words(protocol: Protocol, cipher: DataCipher, digest: Digest)
    ensures
        without(protocol.options_word(), ','),
        without(cipher.name(), ','),
        without(digest.name(), ','),
        without(cipher.name(), ':'),
        without(cipher.name(), '\n'),
{
    reveal_strlit("UDPv4");
    reveal_strlit("TCPv4_CLIENT");
    reveal_strlit("AES-256-GCM");
    reveal_strlit("AES-128-GCM");
    reveal_strlit("CHACHA20-POLY1305");
    reveal_strlit("SHA1");
    reveal_strlit("SHA256");
    reveal_strlit("SHA512");
}

proof fn lemma_labels_of_options()
    ensures
        "V4,dev-type tun,link-mtu 1549,tun-mtu "@ == "V4"@ + seq![','] + "dev-type tun"@ + seq![',']
            + "link-mtu 1549"@ + seq![','] + "tun-mtu "@,
        ",proto "@ == seq![','] + "proto "@,
        ",cipher "@ == seq![','] + "cipher "@,
        ",auth "@ == seq![','] + "auth "@,
        ",keysize "@ == seq![','] + "keysize "@,
        ",key-method 2,tls-client"@ == seq![','] + "key-method 2"@ + seq![','] + "tls-client"@,
        without("V4"@, ','),
        without("dev-type tun"@, ','),
        without("link-mtu 1549"@, ','),
        without("tun-mtu "@, ','),
        without("proto "@, ','),
        without("cipher "@, ','),
        without("auth "@, ','),
        without("keysize "@, ','),
        without("key-method 2"@, ','),
        without("tls-client"@, ','),
{
    reveal_strlit("V4,dev-type tun,link-mtu 1549,tun-mtu ");
    reveal_strlit("V4");
    reveal_strlit("dev-type tun");
    reveal_strlit("link-mtu 1549");
    reveal_strlit("tun-mtu ");
    reveal_strlit(",proto ");
    reveal_strlit("proto ");
    reveal_strlit(",cipher ");
    reveal_strlit("cipher ");
    reveal_strlit(",auth ");
    reveal_strlit("auth ");
    reveal_strlit(",keysize ");
    reveal_strlit("keysize ");
    reveal_strlit(",key-method 2,tls-client");
    reveal_strlit("key-method 2");
    reveal_strlit("tls-client");
    assert("V4,dev-type tun,link-mtu 1549,tun-mtu "@ =~= "V4"@ + seq![','] + "dev-type tun"@ + seq![
        ',',
    ] + "link-mtu 1549"@ + seq![','] + "tun-mtu "@);
    assert(",proto "@ =~= seq![','] + "proto "@);
    assert(",cipher "@ =~= seq![','] + "cipher "@);
    assert(",auth "@ =~= seq![','] + "auth "@);
    assert(",keysize "@ =~= seq![','] + "keysize "@);
    assert(",key-method 2,tls-client"@ =~= seq![','] + "key-method 2"@ + seq![','] + "tls-client"@);
}

/// The options that the two ends compare, one by one: the tunnel's MTU from the
/// file, the transport that is dialled, the cipher offered first with the size
/// of its key in bits, and the digest.
pub proof fn the_options_describe_the_session(config: OpenVpnConfig, protocol: Protocol)
    ensures
        text::split_at_char(config.options_text(protocol), ',') == seq![
            "V4"@,
            "dev-type tun"@,
            "link-mtu 1549"@,
            "tun-mtu "@ + text::decimal(config.tun_mtu as nat),
            "proto "@ + (match protocol {
                Protocol::Udp => "UDPv4"@,
                Protocol::Tcp => "TCPv4_CLIENT"@,
            }),
            "cipher "@ + config.first().name(),
            "auth "@ + config.digest.name(),
            "keysize "@ + text::decimal(
                if config.first() == DataCipher::Aes128Gcm {
                    128
                } else {
                    256
                },
            ),
            "key-method 2"@,
            "tls-client"@,
        ],
        config.data_ciphers@.len() > 0 ==> config.first() == config.data_ciphers@[0],
{
    lemma_labels_of_options();
    let cipher = config.first();
    lemma_names_are_words(protocol, cipher, config.digest);
    let size = (cipher.key_size() * 8) as nat;
    lemma_digits_only(config.tun_mtu as nat);
    lemma_digits_only(size);
    let comma = seq![','];
    let mtu = "tun-mtu "@ + text::decimal(config.tun_mtu as nat);
    let proto = "proto "@ + protocol.options_word();
    let named = "cipher "@ + cipher.name();
    let auth = "auth "@ + config.digest.name();
    let bits = "keysize "@ + text::decimal(size);
    let t0 = "V4"@;
    let t1 = t0 + comma + "dev-type tun"@;
    let t2 = t1 + comma + "link-mtu 1549"@;
    let t3 = t2 + comma + mtu;
    let t4 = t3 + comma + proto;
    let t5 = t4 + comma + named;
    let t6 = t5 + comma + auth;
    let t7 = t6 + comma + bits;
    let t8 = t7 + comma + "key-method 2"@;
    let t9 = t8 + comma + "tls-client"@;
    lemma_alone(t0, ',');
    lemma_one_more(t0, seq![t0], "dev-type tun"@, ',', t1);
    let p1 = seq![t0].push("dev-type tun"@);
    lemma_one_more(t1, p1, "link-mtu 1549"@, ',', t2);
    let p2 = p1.push("link-mtu 1549"@);
    lemma_one_more(t2, p2, mtu, ',', t3);
    let p3 = p2.push(mtu);
    lemma_one_more(t3, p3, proto, ',', t4);
    let p4 = p3.push(proto);
    lemma_one_more(t4, p4, named, ',', t5);
    let p5 = p4.push(named);
    lemma_one_more(t5, p5, auth, ',', t6);
    let p6 = p5.push(auth);
    lemma_one_more(t6, p6, bits, ',', t7);
    let p7 = p6.push(bits);
    lemma_one_more(t7, p7, "key-method 2"@, ',', t8);
    let p8 = p7.push("key-method 2"@);
    lemma_one_more(t8, p8, "tls-client"@, ',', t9);
    let p9 = p8.push("tls-client"@);
    let head = "V4,dev-type tun,link-mtu 1549,tun-mtu "@ + text::decimal(config.tun_mtu as nat);
    assert(head =~= t3);
    let w4 = head + ",proto "@ + protocol.options_word();
    assert(w4 =~= t4);
    let w5 = w4 + ",cipher "@ + cipher.name();
    assert(w5 =~= t5);
    let w6 = w5 + ",auth "@ + config.digest.name();
    assert(w6 =~= t6);
    let w7 = w6 + ",keysize "@ + text::decimal(size);
    assert(w7 =~= t7);
    assert(w7 + ",key-method 2,tls-client"@ =~= t9);
    assert(p9 =~= seq![
        "V4"@,
        "dev-type tun"@,
        "link-mtu 1549"@,
        mtu,
        proto,
        named,
        auth,
        bits,
        "key-method 2"@,
        "tls-client"@,
    ]);
}

/// The ciphers are announced by their names, in the order of the offer.
pub proof fn every_offered_cipher_is_announced(ciphers: Seq<DataCipher>)
    requires
        ciphers.len() > 0,
    ensures
        text::split_at_char(config::cipher_list(ciphers), ':') == Seq::new(
            ciphers.len(),
            |i: int| ciphers[i].name(),
        ),
    decreases ciphers.len(),
{
    let names = Seq::new(ciphers.len(), |i: int| ciphers[i].name());
    lemma_names_are_words(Protocol::Udp, ciphers.last(), Digest::Sha1);
    if ciphers.len() == 1 {
        lemma_alone(ciphers[0].name(), ':');
        assert(names =~= seq![ciphers[0].name()]);
    } else {
        let less = ciphers.drop_last();
        every_offered_cipher_is_announced(less);
        reveal_strlit(":");
        assert(":"@ =~= seq![':']);
        let before = Seq::new(less.len(), |i: int| less[i].name());
        lemma_one_more(
            config::cipher_list(less),
            before,
            ciphers.last().name(),
            ':',
            config::cipher_list(ciphers),
        );
        assert(before.push(ciphers.last().name()) =~= names);
    }
}

/// Every cipher name that is announced is one that a server may answer with.
pub proof fn an_announced_cipher_can_be_chosen(cipher: DataCipher)
    ensures
        config::cipher_named(cipher.name()) == Some(cipher),
{
    crate::openvpn::settings::lemma_cipher_name(cipher);
}

/// A server's address is announced as its host and its port.
pub proof fn an_endpoint_is_its_host_and_port(remote: Remote)
    requires
        forall|i: int| 0 <= i < remote.host@.len() ==> remote.host@[i] != ':',
    ensures
        text::split_at_char(remote.endpoint_text(), ':') == seq![
            remote.host@,
            text::decimal(remote.port as nat),
        ],
{
    reveal_strlit(":");
    assert(":"@ =~= seq![':']);
    lemma_alone(remote.host@, ':');
    text::lemma_decimal_reads_back(remote.port as nat);
    let digits = text::decimal(remote.port as nat);
    assert forall|i: int| 0 <= i < digits.len() implies digits[i] != ':' by {
        assert(text::is_digit(digits[i]));
    }
    lemma_one_more(remote.host@, seq![remote.host@], digits, ':', remote.endpoint_text());
    assert(seq![remote.host@].push(digits) =~= seq![remote.host@, digits]);
}

proof fn lemma_labels_of_peer_info()
    ensures
        "IV_VER=2.6.0\nIV_PLAT=win\nIV_TCPNL=1\nIV_MTU="@ == "IV_VER=2.6.0"@ + seq!['\n']
            + "IV_PLAT=win"@ + seq!['\n'] + "IV_TCPNL=1"@ + seq!['\n'] + "IV_MTU="@,
        "\nIV_NCP=2\nIV_CIPHERS="@ == seq!['\n'] + "IV_NCP=2"@ + seq!['\n'] + "IV_CIPHERS="@,
        without("IV_VER=2.6.0"@, '\n'),
        without("IV_PLAT=win"@, '\n'),
        without("IV_TCPNL=1"@, '\n'),
        without("IV_MTU="@, '\n'),
        without("IV_NCP=2"@, '\n'),
        without("IV_CIPHERS="@, '\n'),
{
    reveal_strlit("IV_VER=2.6.0\nIV_PLAT=win\nIV_TCPNL=1\nIV_MTU=");
    reveal_strlit("IV_VER=2.6.0");
    reveal_strlit("IV_PLAT=win");
    reveal_strlit("IV_TCPNL=1");
    reveal_strlit("IV_MTU=");
    reveal_strlit("\nIV_NCP=2\nIV_CIPHERS=");
    reveal_strlit("IV_NCP=2");
    reveal_strlit("IV_CIPHERS=");
    assert("IV_VER=2.6.0\nIV_PLAT=win\nIV_TCPNL=1\nIV_MTU="@ =~= "IV_VER=2.6.0"@ + seq!['\n']
        + "IV_PLAT=win"@ + seq!['\n'] + "IV_TCPNL=1"@ + seq!['\n'] + "IV_MTU="@);
    assert("\nIV_NCP=2\nIV_CIPHERS="@ =~= seq!['\n'] + "IV_NCP=2"@ + seq!['\n'] + "IV_CIPHERS="@);
}

proof fn lemma_labels_behind_ciphers()
    ensures
        "\nIV_PROTO=22\nIV_LZO_STUB=1\nIV_COMP_STUB=1\nIV_COMP_STUBv2=1\nUV_ENDPOINT="@ == seq!['\n']
            + "IV_PROTO=22"@ + seq!['\n'] + "IV_LZO_STUB=1"@ + seq!['\n'] + "IV_COMP_STUB=1"@ + seq![
            '\n',
        ] + "IV_COMP_STUBv2=1"@ + seq!['\n'] + "UV_ENDPOINT="@,
        "\n"@ == seq!['\n'],
        without("IV_PROTO=22"@, '\n'),
        without("IV_LZO_STUB=1"@, '\n'),
        without("IV_COMP_STUB=1"@, '\n'),
        without("IV_COMP_STUBv2=1"@, '\n'),
        without("UV_ENDPOINT="@, '\n'),
{
    reveal_strlit("\nIV_PROTO=22\nIV_LZO_STUB=1\nIV_COMP_STUB=1\nIV_COMP_STUBv2=1\nUV_ENDPOINT=");
    reveal_strlit("IV_PROTO=22");
    reveal_strlit("IV_LZO_STUB=1");
    reveal_strlit("IV_COMP_STUB=1");
    reveal_strlit("IV_COMP_STUBv2=1");
    reveal_strlit("UV_ENDPOINT=");
    reveal_strlit("\n");
    assert("\nIV_PROTO=22\nIV_LZO_STUB=1\nIV_COMP_STUB=1\nIV_COMP_STUBv2=1\nUV_ENDPOINT="@ =~= seq![
        '\n',
    ] + "IV_PROTO=22"@ + seq!['\n'] + "IV_LZO_STUB=1"@ + seq!['\n'] + "IV_COMP_STUB=1"@ + seq!['\n']
        + "IV_COMP_STUBv2=1"@ + seq!['\n'] + "UV_ENDPOINT="@);
    assert("\n"@ =~= seq!['\n']);
}

proof fn lemma_list_has_no_newline(ciphers: Seq<DataCipher>)
    ensures
        without(config::cipher_list(ciphers), '\n'),
    decreases ciphers.len(),
{
    if ciphers.len() > 0 {
        lemma_names_are_words(Protocol::Udp, ciphers.last(), Digest::Sha1);
        if ciphers.len() > 1 {
            lemma_list_has_no_newline(ciphers.drop_last());
            reveal_strlit(":");
        }
    }
}

/// What the client says it supports, line by line: the tunnel's MTU, the ciphers
/// it offers, and where it dialled.
pub proof fn the_client_says_what_it_supports(config: OpenVpnConfig, remote: Remote)
    requires
        forall|i: int| 0 <= i < remote.host@.len() ==> remote.host@[i] != '\n',
    ensures
        text::split_at_char(config.peer_info_text(&remote), '\n') == seq![
            "IV_VER=2.6.0"@,
            "IV_PLAT=win"@,
            "IV_TCPNL=1"@,
            "IV_MTU="@ + text::decimal(config.tun_mtu as nat),
            "IV_NCP=2"@,
            "IV_CIPHERS="@ + config::cipher_list(config.data_ciphers@),
            "IV_PROTO=22"@,
            "IV_LZO_STUB=1"@,
            "IV_COMP_STUB=1"@,
            "IV_COMP_STUBv2=1"@,
            "UV_ENDPOINT="@ + remote.endpoint_text(),
            Seq::<char>::empty(),
        ],
{
    lemma_labels_of_peer_info();
    lemma_labels_behind_ciphers();
    lemma_digits_only(config.tun_mtu as nat);
    lemma_digits_only(remote.port as nat);
    lemma_list_has_no_newline(config.data_ciphers@);
    reveal_strlit(":");
    let line = seq!['\n'];
    let mtu = "IV_MTU="@ + text::decimal(config.tun_mtu as nat);
    let offer = "IV_CIPHERS="@ + config::cipher_list(config.data_ciphers@);
    let dialled = "UV_ENDPOINT="@ + remote.endpoint_text();
    let none = Seq::<char>::empty();
    let t0 = "IV_VER=2.6.0"@;
    let t1 = t0 + line + "IV_PLAT=win"@;
    let t2 = t1 + line + "IV_TCPNL=1"@;
    let t3 = t2 + line + mtu;
    let t4 = t3 + line + "IV_NCP=2"@;
    let t5 = t4 + line + offer;
    let t6 = t5 + line + "IV_PROTO=22"@;
    let t7 = t6 + line + "IV_LZO_STUB=1"@;
    let t8 = t7 + line + "IV_COMP_STUB=1"@;
    let t9 = t8 + line + "IV_COMP_STUBv2=1"@;
    let t10 = t9 + line + dialled;
    let t11 = t10 + line + none;
    lemma_alone(t0, '\n');
    let p0 = seq![t0];
    lemma_one_more(t0, p0, "IV_PLAT=win"@, '\n', t1);
    let p1 = p0.push("IV_PLAT=win"@);
    lemma_one_more(t1, p1, "IV_TCPNL=1"@, '\n', t2);
    let p2 = p1.push("IV_TCPNL=1"@);
    lemma_one_more(t2, p2, mtu, '\n', t3);
    let p3 = p2.push(mtu);
    lemma_one_more(t3, p3, "IV_NCP=2"@, '\n', t4);
    let p4 = p3.push("IV_NCP=2"@);
    lemma_one_more(t4, p4, offer, '\n', t5);
    let p5 = p4.push(offer);
    lemma_one_more(t5, p5, "IV_PROTO=22"@, '\n', t6);
    let p6 = p5.push("IV_PROTO=22"@);
    lemma_one_more(t6, p6, "IV_LZO_STUB=1"@, '\n', t7);
    let p7 = p6.push("IV_LZO_STUB=1"@);
    lemma_one_more(t7, p7, "IV_COMP_STUB=1"@, '\n', t8);
    let p8 = p7.push("IV_COMP_STUB=1"@);
    lemma_one_more(t8, p8, "IV_COMP_STUBv2=1"@, '\n', t9);
    let p9 = p8.push("IV_COMP_STUBv2=1"@);
    lemma_one_more(t9, p9, dialled, '\n', t10);
    let p10 = p9.push(dialled);
    lemma_one_more(t10, p10, none, '\n', t11);
    let p11 = p10.push(none);
    let w3 = "IV_VER=2.6.0\nIV_PLAT=win\nIV_TCPNL=1\nIV_MTU="@ + text::decimal(
        config.tun_mtu as nat,
    );
    assert(w3 =~= t3);
    let w5 = w3 + "\nIV_NCP=2\nIV_CIPHERS="@ + config::cipher_list(config.data_ciphers@);
    assert(w5 =~= t5);
    let w10 = w5 + "\nIV_PROTO=22\nIV_LZO_STUB=1\nIV_COMP_STUB=1\nIV_COMP_STUBv2=1\nUV_ENDPOINT="@
        + remote.endpoint_text();
    assert(w10 =~= t10);
    assert(w10 + "\n"@ =~= t11);
    assert(p11 =~= seq![
        t0,
        "IV_PLAT=win"@,
        "IV_TCPNL=1"@,
        mtu,
        "IV_NCP=2"@,
        offer,
        "IV_PROTO=22"@,
        "IV_LZO_STUB=1"@,
        "IV_COMP_STUB=1"@,
        "IV_COMP_STUBv2=1"@,
        dialled,
        none,
    ]);
}

} // verus!
