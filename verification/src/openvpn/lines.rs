//! What the lines of a provider's file come to.
//!
//! A file is a list of lines and blocks, and what it says is told here by which
//! of them stands last, apart from how it is read.

use vstd::prelude::*;

use crate::openvpn::config;
use crate::openvpn::config::{DataCipher, Digest, Draft, DraftRemote, KeyDirection, Protocol};
use crate::openvpn::config::AuthModel;
use crate::text;

verus! {

/// One line, by its words, or one inline block, by its tag and its text.
pub enum Entry {
    Line(Seq<Seq<char>>),
    Block(Seq<char>, Seq<char>),
}

/// Whether a line says where and how to dial, which are the only lines that
/// count inside a `<connection>` block.
pub open spec fn says_where_to_dial(words: Seq<Seq<char>>) -> bool {
    words.len() > 0 && (words[0] == "remote"@ || words[0] == "proto"@ || words[0] == "port"@
        || words[0] == "rport"@)
}

/// The lines of a `<connection>` block that count.
pub open spec fn connection_entries(lines: Seq<Seq<char>>) -> Seq<Entry>
    decreases lines.len(),
{
    if lines.len() == 0 {
        Seq::<Entry>::empty()
    } else {
        let words = config::words_of(config::comment_stripped(lines[0]));
        let rest = connection_entries(lines.skip(1));
        if says_where_to_dial(words) {
            seq![Entry::Line(words)] + rest
        } else {
            rest
        }
    }
}

/// The lines and blocks of a file, in order. A `<connection>` block stands for
/// the lines in it that count.
pub open spec fn entries(lines: Seq<Seq<char>>) -> Seq<Entry>
    decreases lines.len(),
{
    if lines.len() == 0 {
        Seq::<Entry>::empty()
    } else {
        let line = config::comment_stripped(lines[0]);
        let rest = lines.skip(1);
        match config::opened_tag(line) {
            None => seq![Entry::Line(config::words_of(line))] + entries(rest),
            Some(tag) => {
                let n = config::closing_index(rest, config::closing_line(tag)) as int;
                if n >= rest.len() {
                    Seq::<Entry>::empty()
                } else {
                    let body = config::block_text(rest.take(n));
                    (if tag == "connection"@ {
                        connection_entries(text::lines_of(body))
                    } else {
                        seq![Entry::Block(tag, body)]
                    }) + entries(rest.skip(n + 1))
                }
            },
        }
    }
}

/// Whether every block that a file opens is closed.
pub open spec fn all_closed(lines: Seq<Seq<char>>) -> bool
    decreases lines.len(),
{
    if lines.len() == 0 {
        true
    } else {
        let rest = lines.skip(1);
        match config::opened_tag(config::comment_stripped(lines[0])) {
            None => all_closed(rest),
            Some(tag) => {
                let n = config::closing_index(rest, config::closing_line(tag)) as int;
                n < rest.len() && all_closed(rest.skip(n + 1))
            },
        }
    }
}

/// The last line that begins with one of two words, if any does.
pub open spec fn last_line(es: Seq<Entry>, word: Seq<char>, other: Seq<char>) -> Option<
    Seq<Seq<char>>,
>
    decreases es.len(),
{
    if es.len() == 0 {
        None
    } else {
        match es.last() {
            Entry::Line(words) if words.len() > 0 && (words[0] == word || words[0] == other) => Some(
                words,
            ),
            _ => last_line(es.drop_last(), word, other),
        }
    }
}

/// The text of the last block with this tag, if there is one.
pub open spec fn last_block(es: Seq<Entry>, tag: Seq<char>) -> Option<Seq<char>>
    decreases es.len(),
{
    if es.len() == 0 {
        None
    } else {
        match es.last() {
            Entry::Block(found, body) if found == tag => Some(body),
            _ => last_block(es.drop_last(), tag),
        }
    }
}

/// The `remote` lines, in order.
pub open spec fn remote_lines(es: Seq<Entry>) -> Seq<Seq<Seq<char>>>
    decreases es.len(),
{
    if es.len() == 0 {
        Seq::<Seq<Seq<char>>>::empty()
    } else {
        match es.last() {
            Entry::Line(words) if words.len() > 0 && words[0] == "remote"@ => remote_lines(
                es.drop_last(),
            ).push(words),
            _ => remote_lines(es.drop_last()),
        }
    }
}

/// The transport that a word names, where it names one: all names of the one
/// begin with the same letter.
pub open spec fn transport(word: Seq<char>) -> Protocol {
    if word.len() > 0 && (word[0] == 't' || word[0] == 'T') {
        Protocol::Tcp
    } else {
        Protocol::Udp
    }
}

/// Whether a word names a transport that a client can use.
pub open spec fn names_a_transport(word: Seq<char>) -> bool {
    let small = text::lower(word);
    ||| small == "udp"@
    ||| small == "udp4"@
    ||| small == "udp6"@
    ||| small == "tcp"@
    ||| small == "tcp4"@
    ||| small == "tcp6"@
    ||| small == "tcp-client"@
    ||| small == "tcp4-client"@
    ||| small == "tcp6-client"@
}

/// Whether a word is a port.
pub open spec fn names_a_port(word: Seq<char>) -> bool {
    text::parsed_number(word, 0xffff) matches Some(n) && 0 < n
}

/// The port that a word stands for, where it is one.
pub open spec fn port_in(word: Seq<char>) -> u16 {
    text::parsed_number(word, 0xffff)->0 as u16
}

proof fn lemma_transport(word: Seq<char>)
    ensures
        config::protocol_named(word) is Ok <==> names_a_transport(word),
        config::protocol_named(word) matches Ok(protocol) ==> protocol == transport(word),
{
    reveal_strlit("udp");
    reveal_strlit("udp4");
    reveal_strlit("udp6");
    reveal_strlit("tcp");
    reveal_strlit("tcp4");
    reveal_strlit("tcp6");
    reveal_strlit("tcp-client");
    reveal_strlit("tcp4-client");
    reveal_strlit("tcp6-client");
    reveal_strlit("tcp-server");
    reveal_strlit("udp-server");
    let small = text::lower(word);
    if small.len() > 0 {
        assert(small[0] == text::lower_char(word[0]));
    }
}

proof fn lemma_port(word: Seq<char>)
    ensures
        config::port_named(word) is Ok <==> names_a_port(word),
        config::port_named(word) matches Ok(port) ==> port == port_in(word),
{
}

/// How the first words of the lines that count are told apart.
proof fn lemma_first_words()
    ensures
        "remote"@.len() == 6 && "remote"@[0] == 'r',
        "proto"@.len() == 5 && "proto"@[0] == 'p',
        "port"@.len() == 4 && "port"@[0] == 'p',
        "rport"@.len() == 5 && "rport"@[0] == 'r',
        "dev"@.len() == 3 && "dev"@[0] == 'd',
        "dev-type"@.len() == 8 && "dev-type"@[0] == 'd',
        "auth"@.len() == 4 && "auth"@[0] == 'a',
        "cipher"@.len() == 6 && "cipher"@[0] == 'c',
        "data-ciphers"@.len() == 12 && "data-ciphers"@[0] == 'd',
        "ncp-ciphers"@.len() == 11 && "ncp-ciphers"@[0] == 'n',
        "auth-user-pass"@.len() == 14 && "auth-user-pass"@[0] == 'a',
        "reneg-sec"@.len() == 9 && "reneg-sec"@[0] == 'r',
        "tun-mtu"@.len() == 7 && "tun-mtu"@[0] == 't',
        "key-direction"@.len() == 13 && "key-direction"@[0] == 'k',
{
    reveal_strlit("remote");
    reveal_strlit("proto");
    reveal_strlit("port");
    reveal_strlit("rport");
    reveal_strlit("dev");
    reveal_strlit("dev-type");
    reveal_strlit("auth");
    reveal_strlit("cipher");
    reveal_strlit("data-ciphers");
    reveal_strlit("ncp-ciphers");
    reveal_strlit("auth-user-pass");
    reveal_strlit("reneg-sec");
    reveal_strlit("tun-mtu");
    reveal_strlit("key-direction");
}

/// How the words that are refused are told apart from those.
proof fn lemma_refused_words()
    ensures
        "ca"@.len() == 2 && "ca"@[0] == 'c',
        "cert"@.len() == 4 && "cert"@[0] == 'c',
        "key"@.len() == 3 && "key"@[0] == 'k',
        "tls-auth"@.len() == 8 && "tls-auth"@[0] == 't',
        "tls-crypt"@.len() == 9 && "tls-crypt"@[0] == 't',
        "tls-crypt-v2"@.len() == 12 && "tls-crypt-v2"@[0] == 't',
        "connection"@.len() == 10 && "connection"@[0] == 'c',
        "pkcs12"@.len() == 6 && "pkcs12"@[0] == 'p',
        "secret"@.len() == 6 && "secret"@[0] == 's',
        "comp-lzo"@.len() == 8 && "comp-lzo"@[0] == 'c',
        "compress"@.len() == 8 && "compress"@[0] == 'c',
        "fragment"@.len() == 8 && "fragment"@[0] == 'f',
        "http-proxy"@.len() == 10 && "http-proxy"@[0] == 'h',
        "socks-proxy"@.len() == 11 && "socks-proxy"@[0] == 's',
        "static-challenge"@.len() == 16 && "static-challenge"@[0] == 's',
{
    reveal_strlit("ca");
    reveal_strlit("cert");
    reveal_strlit("key");
    reveal_strlit("tls-auth");
    reveal_strlit("tls-crypt");
    reveal_strlit("tls-crypt-v2");
    reveal_strlit("connection");
    reveal_strlit("pkcs12");
    reveal_strlit("secret");
    reveal_strlit("comp-lzo");
    reveal_strlit("compress");
    reveal_strlit("fragment");
    reveal_strlit("http-proxy");
    reveal_strlit("socks-proxy");
    reveal_strlit("static-challenge");
}

/// Whether a file with this line or block in it can be used at all.
pub open spec fn can_be_honoured(entry: Entry) -> bool {
    match entry {
        Entry::Line(words) => words.len() > 0 ==> {
            let first = words[0];
            let bare = words.len() == 1;
            &&& first == "remote"@ ==> !bare && (words.len() > 2 ==> names_a_port(words[2])) && (
            words.len() > 3 ==> names_a_transport(words[3]))
            &&& first == "proto"@ ==> !bare && names_a_transport(words[1])
            &&& first == "port"@ || first == "rport"@ ==> !bare && names_a_port(words[1])
            &&& first == "dev"@ || first == "dev-type"@ ==> bare || text::begins_with(
                words[1],
                "tun"@,
            )
            &&& first == "auth"@ ==> !bare && config::digest_named(words[1]) is Some
            &&& first == "data-ciphers"@ || first == "ncp-ciphers"@ ==> !bare
                && config::known_ciphers(text::split_at_char(words[1], ':')).len() > 0
            &&& first == "auth-user-pass"@ ==> bare
            &&& first == "key-direction"@ ==> !bare && text::parsed_number(words[1], 255) is Some
            &&& first == "comp-lzo"@ || first == "compress"@ ==> bare || words[1] == "no"@
                || words[1] == "stub"@ || words[1] == "stub-v2"@
            &&& first != "ca"@ && first != "cert"@ && first != "key"@ && first != "tls-auth"@
            &&& first != "tls-crypt"@ && first != "tls-crypt-v2"@ && first != "pkcs12"@
            &&& first != "secret"@ && first != "fragment"@ && first != "static-challenge"@
            &&& first != "http-proxy"@ && first != "socks-proxy"@
        },
        Entry::Block(tag, body) => {
            let pem = vstd::utf8::encode_utf8(body);
            &&& tag == "ca"@ || tag == "cert"@ ==> (config::pem_certificates(pem) matches Ok(list)
                && list.len() > 0)
            &&& tag == "key"@ ==> config::pem_private_key(pem) == Ok::<bool, Seq<char>>(true)
            &&& tag == "tls-auth"@ || tag == "tls-crypt"@ ==> config::static_key_of(body, tag) is Ok
            &&& tag != "tls-crypt-v2"@
        },
    }
}

/// The draft once one line or block has been read.
spec fn entry_read(draft: Draft, entry: Entry) -> Result<Draft, Seq<char>> {
    match entry {
        Entry::Line(words) => if words.len() == 0 {
            Ok(draft)
        } else {
            config::directive_read(draft, words[0], words.skip(1))
        },
        Entry::Block(tag, body) => config::inline_read(draft, tag, body),
    }
}

spec fn entries_read(draft: Draft, es: Seq<Entry>) -> Result<Draft, Seq<char>>
    decreases es.len(),
{
    if es.len() == 0 {
        Ok(draft)
    } else {
        match entries_read(draft, es.drop_last()) {
            Ok(next) => entry_read(next, es.last()),
            Err(why) => Err(why),
        }
    }
}

proof fn lemma_read_in_two(draft: Draft, a: Seq<Entry>, b: Seq<Entry>)
    ensures
        entries_read(draft, a + b) == match entries_read(draft, a) {
            Ok(next) => entries_read(next, b),
            Err(why) => Err::<Draft, Seq<char>>(why),
        },
    decreases b.len(),
{
    if b.len() == 0 {
        assert(a + b =~= a);
    } else {
        assert((a + b).drop_last() =~= a + b.drop_last());
        assert((a + b).last() == b.last());
        lemma_read_in_two(draft, a, b.drop_last());
    }
}

proof fn lemma_read_one(draft: Draft, entry: Entry)
    ensures
        entries_read(draft, seq![entry]) == entry_read(draft, entry),
{
    assert(seq![entry].drop_last() =~= Seq::<Entry>::empty());
    assert(entries_read(draft, seq![entry].drop_last()) == Ok::<Draft, Seq<char>>(draft));
}

proof fn lemma_connection_as_entries(draft: Draft, lines: Seq<Seq<char>>)
    ensures
        config::connection_read(draft, lines) == entries_read(draft, connection_entries(lines)),
    decreases lines.len(),
{
    if lines.len() > 0 {
        let words = config::words_of(config::comment_stripped(lines[0]));
        let rest = lines.skip(1);
        if says_where_to_dial(words) {
            lemma_read_in_two(draft, seq![Entry::Line(words)], connection_entries(rest));
            lemma_read_one(draft, Entry::Line(words));
            if let Ok(next) = entry_read(draft, Entry::Line(words)) {
                lemma_connection_as_entries(next, rest);
            }
        } else {
            lemma_connection_as_entries(draft, rest);
        }
    }
}

proof fn lemma_lines_as_entries(draft: Draft, lines: Seq<Seq<char>>)
    ensures
        all_closed(lines) ==> config::lines_read(draft, lines) == entries_read(
            draft,
            entries(lines),
        ),
        !all_closed(lines) ==> config::lines_read(draft, lines) is Err,
    decreases lines.len(),
{
    if lines.len() > 0 {
        let line = config::comment_stripped(lines[0]);
        let rest = lines.skip(1);
        match config::opened_tag(line) {
            None => {
                let first = Entry::Line(config::words_of(line));
                lemma_read_in_two(draft, seq![first], entries(rest));
                lemma_read_one(draft, first);
                if let Ok(next) = entry_read(draft, first) {
                    lemma_lines_as_entries(next, rest);
                } else {
                    lemma_lines_as_entries(draft, rest);
                }
            },
            Some(tag) => {
                let n = config::closing_index(rest, config::closing_line(tag)) as int;
                if n < rest.len() {
                    let body = config::block_text(rest.take(n));
                    let after = rest.skip(n + 1);
                    lemma_refused_words();
                    if tag == "connection"@ {
                        let front = connection_entries(text::lines_of(body));
                        lemma_connection_as_entries(draft, text::lines_of(body));
                        lemma_read_in_two(draft, front, entries(after));
                    } else {
                        lemma_read_in_two(draft, seq![Entry::Block(tag, body)], entries(after));
                        lemma_read_one(draft, Entry::Block(tag, body));
                    }
                    if let Ok(next) = config::inline_read(draft, tag, body) {
                        lemma_lines_as_entries(next, after);
                    } else {
                        lemma_lines_as_entries(draft, after);
                    }
                }
            },
        }
    }
}

/// What one line changes.
proof fn lemma_line_read(draft: Draft, words: Seq<Seq<char>>)
    requires
        words.len() > 0,
    ensures
        entry_read(draft, Entry::Line(words)) is Ok <==> can_be_honoured(Entry::Line(words)),
        entry_read(draft, Entry::Line(words)) matches Ok(next) ==> {
            let first = words[0];
            &&& next.remotes == if first == "remote"@ {
                draft.remotes.push(
                    DraftRemote {
                        host: words[1],
                        port: if words.len() > 2 {
                            Some(port_in(words[2]))
                        } else {
                            None
                        },
                        protocol: if words.len() > 3 {
                            Some(transport(words[3]))
                        } else {
                            None
                        },
                    },
                )
            } else {
                draft.remotes
            }
            &&& next.protocol == if first == "proto"@ {
                Some(transport(words[1]))
            } else {
                draft.protocol
            }
            &&& next.port == if first == "port"@ || first == "rport"@ {
                Some(port_in(words[1]))
            } else {
                draft.port
            }
            &&& next.digest == if first == "auth"@ {
                config::digest_named(words[1])
            } else {
                draft.digest
            }
            &&& next.legacy_cipher == if first == "cipher"@ {
                if words.len() > 1 {
                    config::cipher_named(words[1])
                } else {
                    None
                }
            } else {
                draft.legacy_cipher
            }
            &&& next.ciphers == if first == "data-ciphers"@ || first == "ncp-ciphers"@ {
                Some(config::known_ciphers(text::split_at_char(words[1], ':')))
            } else {
                draft.ciphers
            }
            &&& next.wants_credentials == (first == "auth-user-pass"@ || draft.wants_credentials)
            &&& next.key_direction == if first == "key-direction"@ {
                Some(text::parsed_number(words[1], 255)->0 as u8)
            } else {
                draft.key_direction
            }
            &&& next.tun_mtu == if first == "tun-mtu"@ {
                if words.len() > 1 && text::parsed_number(words[1], 0xffff) is Some {
                    Some(text::parsed_number(words[1], 0xffff)->0 as u16)
                } else {
                    None
                }
            } else {
                draft.tun_mtu
            }
            &&& next.reneg_seconds == if first == "reneg-sec"@ {
                if words.len() > 1 && text::parsed_number(words[1], u64::MAX as nat) is Some {
                    Some(text::parsed_number(words[1], u64::MAX as nat)->0 as u64)
                } else {
                    None
                }
            } else {
                draft.reneg_seconds
            }
            &&& next.ca == draft.ca && next.client_certs == draft.client_certs
            &&& next.client_key == draft.client_key
            &&& next.tls_auth == draft.tls_auth && next.tls_crypt == draft.tls_crypt
        },
{
    lemma_first_words();
    lemma_refused_words();
    let arguments = words.skip(1);
    if words.len() > 1 {
        assert(arguments[0] == words[1]);
        lemma_transport(words[1]);
        lemma_port(words[1]);
    }
    if words.len() > 2 {
        assert(arguments[1] == words[2]);
        lemma_port(words[2]);
    }
    if words.len() > 3 {
        assert(arguments[2] == words[3]);
        lemma_transport(words[3]);
    }
}

/// What one block changes.
proof fn lemma_block_read(draft: Draft, tag: Seq<char>, body: Seq<char>)
    requires
        tag != "connection"@,
    ensures
        entry_read(draft, Entry::Block(tag, body)) is Ok <==> can_be_honoured(
            Entry::Block(tag, body),
        ),
        entry_read(draft, Entry::Block(tag, body)) matches Ok(next) ==> {
            let pem = vstd::utf8::encode_utf8(body);
            &&& next.ca == if tag == "ca"@ {
                config::pem_certificates(pem)->Ok_0
            } else {
                draft.ca
            }
            &&& next.client_certs == if tag == "cert"@ {
                config::pem_certificates(pem)->Ok_0
            } else {
                draft.client_certs
            }
            &&& next.client_key == if tag == "key"@ {
                Some(body)
            } else {
                draft.client_key
            }
            &&& next.tls_auth == if tag == "tls-auth"@ {
                Some(config::static_key_of(body, tag)->Ok_0)
            } else {
                draft.tls_auth
            }
            &&& next.tls_crypt == if tag == "tls-crypt"@ {
                Some(config::static_key_of(body, tag)->Ok_0)
            } else {
                draft.tls_crypt
            }
            &&& next == Draft {
                ca: next.ca,
                client_certs: next.client_certs,
                client_key: next.client_key,
                tls_auth: next.tls_auth,
                tls_crypt: next.tls_crypt,
                ..draft
            }
        },
{
    lemma_refused_words();
}

/// Whether a draft holds what the last lines and blocks of each kind say.
spec fn agrees(draft: Draft, es: Seq<Entry>) -> bool {
    let dialled = remote_lines(es);
    &&& draft.remotes.len() == dialled.len()
    &&& forall|k: int|
        0 <= k < dialled.len() ==> (#[trigger] dialled[k]).len() > 1 && draft.remotes[k]
            == (DraftRemote {
            host: dialled[k][1],
            port: if dialled[k].len() > 2 {
                Some(port_in(dialled[k][2]))
            } else {
                None
            },
            protocol: if dialled[k].len() > 3 {
                Some(transport(dialled[k][3]))
            } else {
                None
            },
        })
    &&& draft.protocol == match last_line(es, "proto"@, "proto"@) {
        Some(words) => Some(transport(words[1])),
        None => None,
    }
    &&& draft.port == match last_line(es, "port"@, "rport"@) {
        Some(words) => Some(port_in(words[1])),
        None => None,
    }
    &&& draft.digest == match last_line(es, "auth"@, "auth"@) {
        Some(words) => config::digest_named(words[1]),
        None => None,
    }
    &&& last_line(es, "auth"@, "auth"@) is Some ==> draft.digest is Some
    &&& draft.legacy_cipher == match last_line(es, "cipher"@, "cipher"@) {
        Some(words) => if words.len() > 1 {
            config::cipher_named(words[1])
        } else {
            None
        },
        None => None,
    }
    &&& draft.ciphers == match last_line(es, "data-ciphers"@, "ncp-ciphers"@) {
        Some(words) => Some(config::known_ciphers(text::split_at_char(words[1], ':'))),
        None => None,
    }
    &&& draft.wants_credentials == last_line(es, "auth-user-pass"@, "auth-user-pass"@) is Some
    &&& draft.key_direction == match last_line(es, "key-direction"@, "key-direction"@) {
        Some(words) => Some(text::parsed_number(words[1], 255)->0 as u8),
        None => None,
    }
    &&& draft.tun_mtu == match last_line(es, "tun-mtu"@, "tun-mtu"@) {
        Some(words) => if words.len() > 1 && text::parsed_number(words[1], 0xffff) is Some {
            Some(text::parsed_number(words[1], 0xffff)->0 as u16)
        } else {
            None
        },
        None => None,
    }
    &&& draft.reneg_seconds == match last_line(es, "reneg-sec"@, "reneg-sec"@) {
        Some(words) => if words.len() > 1 && text::parsed_number(words[1], u64::MAX as nat) is Some {
            Some(text::parsed_number(words[1], u64::MAX as nat)->0 as u64)
        } else {
            None
        },
        None => None,
    }
    &&& draft.ca == match last_block(es, "ca"@) {
        Some(body) => config::pem_certificates(vstd::utf8::encode_utf8(body))->Ok_0,
        None => Seq::<Seq<u8>>::empty(),
    }
    &&& last_block(es, "ca"@) is Some <==> draft.ca.len() > 0
    &&& draft.client_certs == match last_block(es, "cert"@) {
        Some(body) => config::pem_certificates(vstd::utf8::encode_utf8(body))->Ok_0,
        None => Seq::<Seq<u8>>::empty(),
    }
    &&& last_block(es, "cert"@) is Some <==> draft.client_certs.len() > 0
    &&& draft.client_key == last_block(es, "key"@)
    &&& draft.tls_auth == match last_block(es, "tls-auth"@) {
        Some(body) => Some(config::static_key_of(body, "tls-auth"@)->Ok_0),
        None => None,
    }
    &&& draft.tls_crypt == match last_block(es, "tls-crypt"@) {
        Some(body) => Some(config::static_key_of(body, "tls-crypt"@)->Ok_0),
        None => None,
    }
}

/// Whether no entry is a `<connection>` block, which is how `entries` has them.
spec fn flat(es: Seq<Entry>) -> bool {
    forall|k: int|
        0 <= k < es.len() ==> ((#[trigger] es[k]) matches Entry::Block(tag, _) ==> tag
            != "connection"@)
}

proof fn lemma_agrees(es: Seq<Entry>)
    requires
        flat(es),
    ensures
        entries_read(config::blank_draft(), es) matches Ok(draft) ==> agrees(draft, es),
        entries_read(config::blank_draft(), es) is Ok <==> forall|k: int|
            0 <= k < es.len() ==> can_be_honoured(#[trigger] es[k]),
    decreases es.len(),
{
    if es.len() > 0 {
        let less = es.drop_last();
        assert forall|k: int| 0 <= k < less.len() implies ((#[trigger] less[k]) matches Entry::Block(
            tag,
            _,
        ) ==> tag != "connection"@) by {
            assert(less[k] == es[k]);
        }
        lemma_agrees(less);
        let last = es[es.len() - 1];
        assert(es.last() == last);
        match entries_read(config::blank_draft(), less) {
            Ok(before) => {
                match last {
                    Entry::Line(words) => {
                        if words.len() > 0 {
                            lemma_line_read(before, words);
                        }
                    },
                    Entry::Block(tag, body) => {
                        lemma_block_read(before, tag, body);
                    },
                }
                assert forall|k: int| 0 <= k < less.len() implies can_be_honoured(
                    #[trigger] es[k],
                ) by {
                    assert(less[k] == es[k]);
                }
            },
            Err(_) => {
                if forall|k: int| 0 <= k < es.len() ==> can_be_honoured(#[trigger] es[k]) {
                    assert forall|k: int| 0 <= k < less.len() implies can_be_honoured(
                        #[trigger] less[k],
                    ) by {
                        assert(less[k] == es[k]);
                    }
                }
            },
        }
    }
}

proof fn lemma_flat_connection(lines: Seq<Seq<char>>)
    ensures
        flat(connection_entries(lines)),
    decreases lines.len(),
{
    if lines.len() > 0 {
        lemma_flat_connection(lines.skip(1));
    }
}

proof fn lemma_flat(lines: Seq<Seq<char>>)
    ensures
        flat(entries(lines)),
    decreases lines.len(),
{
    if lines.len() > 0 {
        let line = config::comment_stripped(lines[0]);
        let rest = lines.skip(1);
        lemma_flat(rest);
        if let Some(tag) = config::opened_tag(line) {
            let n = config::closing_index(rest, config::closing_line(tag)) as int;
            if n < rest.len() {
                lemma_flat_connection(text::lines_of(config::block_text(rest.take(n))));
                lemma_flat(rest.skip(n + 1));
            }
        }
    }
}

/// The draft that a file makes, told by its lines and blocks.
proof fn lemma_file_read(source: Seq<char>)
    ensures
        ({
            let lines = text::lines_of(source);
            let read = config::lines_read(config::blank_draft(), lines);
            &&& read is Ok <==> all_closed(lines) && forall|k: int|
                0 <= k < entries(lines).len() ==> can_be_honoured(#[trigger] entries(lines)[k])
            &&& read matches Ok(draft) ==> agrees(draft, entries(lines))
        }),
{
    let lines = text::lines_of(source);
    lemma_lines_as_entries(config::blank_draft(), lines);
    lemma_flat(lines);
    lemma_agrees(entries(lines));
}

/// Where a file says to connect to. Each `remote` line is one server, in the
/// order of the file, by the name on the line. The line's own transport holds
/// for it; where it has none, that of the last `proto` line does, wherever in
/// the file that stands; where there is none either, it is UDP. The last `port`
/// line holds for every server; without one, the line's own port does, and
/// otherwise it is 1194.
pub proof fn every_remote_line_is_a_server(source: Seq<char>)
    ensures
        config::parsed_config(source) matches Ok(config) ==> {
            let es = entries(text::lines_of(source));
            let dialled = remote_lines(es);
            &&& config.remotes.len() == dialled.len()
            &&& forall|k: int|
                #![trigger dialled[k]]
                #![trigger config.remotes[k]]
                0 <= k < dialled.len() ==> {
                    let words = dialled[k];
                    let remote = config.remotes[k];
                    &&& words.len() > 1
                    &&& remote.host == words[1]
                    &&& words.len() > 3 ==> remote.protocol == transport(words[3])
                    &&& words.len() <= 3 ==> remote.protocol == match last_line(
                        es,
                        "proto"@,
                        "proto"@,
                    ) {
                        Some(line) => transport(line[1]),
                        None => Protocol::Udp,
                    }
                    &&& remote.port == match last_line(es, "port"@, "rport"@) {
                        Some(line) => port_in(line[1]),
                        None => if words.len() > 2 {
                            port_in(words[2])
                        } else {
                            1194
                        },
                    }
                }
        },
{
    lemma_file_read(source);
}

/// What a file says of the tunnel. The last line of each kind holds: `tun-mtu`,
/// 1500 where there is none; `auth`, SHA-1 where there is none; `reneg-sec`; and
/// the login is wanted exactly where a line asks for it.
pub proof fn the_last_line_of_a_kind_holds(source: Seq<char>)
    ensures
        config::parsed_config(source) matches Ok(config) ==> {
            let es = entries(text::lines_of(source));
            &&& config.wants_credentials <==> last_line(
                es,
                "auth-user-pass"@,
                "auth-user-pass"@,
            ) is Some
            &&& match last_line(es, "auth"@, "auth"@) {
                Some(words) => config::digest_named(words[1]) == Some(config.digest),
                None => config.digest == Digest::Sha1,
            }
            &&& match last_line(es, "tun-mtu"@, "tun-mtu"@) {
                Some(words) => config.tun_mtu == if words.len() > 1 && text::parsed_number(
                    words[1],
                    0xffff,
                ) is Some {
                    text::parsed_number(words[1], 0xffff)->0
                } else {
                    1500
                },
                None => config.tun_mtu == 1500,
            }
            &&& match last_line(es, "reneg-sec"@, "reneg-sec"@) {
                Some(words) => match config.reneg_seconds {
                    Some(seconds) => words.len() > 1 && text::parsed_number(
                        words[1],
                        u64::MAX as nat,
                    ) == Some(seconds as nat),
                    None => words.len() <= 1 || text::parsed_number(
                        words[1],
                        u64::MAX as nat,
                    ) is None,
                },
                None => config.reneg_seconds is None,
            }
        },
{
    lemma_file_read(source);
}

/// What a file says of its keys. The last block of each kind holds, and control
/// packets are encrypted where there is a `<tls-crypt>` key, signed where there
/// is only a `<tls-auth>` key, and bare where there is neither. What is signed
/// is signed by the half that the last `key-direction` line names, and by the
/// same half both ways where there is no such line.
pub proof fn the_last_block_of_a_kind_holds(source: Seq<char>)
    ensures
        config::parsed_config(source) matches Ok(config) ==> {
            let es = entries(text::lines_of(source));
            &&& last_block(es, "ca"@) matches Some(ca) && config::pem_certificates(
                vstd::utf8::encode_utf8(ca),
            ) == Ok::<Seq<Seq<u8>>, Seq<char>>(config.ca)
            &&& config.client_key == last_block(es, "key"@)
            &&& match last_block(es, "cert"@) {
                Some(cert) => config::pem_certificates(vstd::utf8::encode_utf8(cert)) == Ok::<
                    Seq<Seq<u8>>,
                    Seq<char>,
                >(config.client_certs),
                None => config.client_certs.len() == 0,
            }
            &&& match config.control_auth {
                AuthModel::TlsCrypt { key } => last_block(es, "tls-crypt"@) matches Some(body)
                    && config::static_key_of(body, "tls-crypt"@) == Ok::<Seq<u8>, Seq<char>>(key),
                AuthModel::TlsAuth { key, direction, digest } => {
                    &&& last_block(es, "tls-crypt"@) is None
                    &&& last_block(es, "tls-auth"@) matches Some(body) && config::static_key_of(
                        body,
                        "tls-auth"@,
                    ) == Ok::<Seq<u8>, Seq<char>>(key)
                    &&& digest == config.digest
                    &&& match last_line(es, "key-direction"@, "key-direction"@) {
                        None => direction == KeyDirection::Bidirectional,
                        Some(words) => {
                            ||| text::parsed_number(words[1], 255) == Some(0nat) && direction
                                == KeyDirection::Normal
                            ||| text::parsed_number(words[1], 255) == Some(1nat) && direction
                                == KeyDirection::Inverse
                        },
                    }
                },
                AuthModel::Plain => last_block(es, "tls-crypt"@) is None && last_block(
                    es,
                    "tls-auth"@,
                ) is None,
            }
        },
{
    lemma_file_read(source);
    let es = entries(text::lines_of(source));
    lemma_last_block_is_there(es, "ca"@);
    lemma_last_block_is_there(es, "cert"@);
    lemma_last_block_is_there(es, "tls-auth"@);
    lemma_last_block_is_there(es, "tls-crypt"@);
    lemma_last_line_is_there(es, "key-direction"@, "key-direction"@);
}

proof fn lemma_last_block_is_there(es: Seq<Entry>, tag: Seq<char>)
    ensures
        last_block(es, tag) matches Some(body) ==> exists|k: int|
            0 <= k < es.len() && #[trigger] es[k] == Entry::Block(tag, body),
    decreases es.len(),
{
    if es.len() > 0 {
        let less = es.drop_last();
        lemma_last_block_is_there(less, tag);
        if let Some(body) = last_block(es, tag) {
            if es.last() == Entry::Block(tag, body) {
                assert(es[es.len() - 1] == Entry::Block(tag, body));
            } else {
                let k = choose|k: int|
                    0 <= k < less.len() && #[trigger] less[k] == Entry::Block(tag, body);
                assert(es[k] == less[k]);
            }
        }
    }
}

proof fn lemma_last_line_is_there(es: Seq<Entry>, word: Seq<char>, other: Seq<char>)
    ensures
        last_line(es, word, other) matches Some(words) ==> words.len() > 0 && (words[0] == word
            || words[0] == other) && exists|k: int|
            0 <= k < es.len() && #[trigger] es[k] == Entry::Line(words),
    decreases es.len(),
{
    if es.len() > 0 {
        let less = es.drop_last();
        lemma_last_line_is_there(less, word, other);
        if let Some(words) = last_line(es, word, other) {
            if es.last() == Entry::Line(words) {
                assert(es[es.len() - 1] == Entry::Line(words));
            } else {
                let k = choose|k: int|
                    0 <= k < less.len() && #[trigger] less[k] == Entry::Line(words);
                assert(es[k] == less[k]);
            }
        }
    }
}

/// Which ciphers are offered. A `data-ciphers` list is offered as it stands,
/// without the names that are not known. Otherwise every known cipher is offered
/// once, the one of the last `cipher` line first where it is known, and
/// AES-256-GCM first where it is not.
pub proof fn every_cipher_can_be_chosen(source: Seq<char>, cipher: DataCipher)
    ensures
        config::parsed_config(source) matches Ok(config) ==> {
            let es = entries(text::lines_of(source));
            match last_line(es, "data-ciphers"@, "ncp-ciphers"@) {
                Some(words) => config.data_ciphers == config::known_ciphers(
                    text::split_at_char(words[1], ':'),
                ),
                None => {
                    &&& config.data_ciphers.len() == 3
                    &&& config.data_ciphers.contains(cipher)
                    &&& match last_line(es, "cipher"@, "cipher"@) {
                        Some(words) if words.len() > 1 && config::cipher_named(
                            words[1],
                        ) is Some => Some(config.data_ciphers[0]) == config::cipher_named(words[1]),
                        _ => config.data_ciphers[0] == DataCipher::Aes256Gcm,
                    }
                    &&& config.data_ciphers[1] == if config.data_ciphers[0]
                        == DataCipher::Aes256Gcm {
                        DataCipher::Aes128Gcm
                    } else {
                        DataCipher::Aes256Gcm
                    }
                },
            }
        },
{
    lemma_file_read(source);
    if let Ok(config) = config::parsed_config(source) {
        let es = entries(text::lines_of(source));
        if last_line(es, "data-ciphers"@, "ncp-ciphers"@) is None {
            let offered = config.data_ciphers;
            assert(offered[0] == cipher || offered[1] == cipher || offered[2] == cipher);
        }
    }
}

/// Which files are accepted: those whose blocks are all closed and whose lines
/// can all be honoured, with a server, a certificate authority, a certificate
/// and its key together or not at all, a way to authenticate, and a direction
/// for a key that control packets are signed with.
pub proof fn a_file_is_accepted_by_its_lines(source: Seq<char>)
    ensures
        config::parsed_config(source) is Ok <==> {
            let lines = text::lines_of(source);
            let es = entries(lines);
            &&& all_closed(lines)
            &&& forall|k: int| 0 <= k < es.len() ==> can_be_honoured(#[trigger] es[k])
            &&& remote_lines(es).len() > 0
            &&& last_block(es, "ca"@) is Some
            &&& last_block(es, "cert"@) is Some <==> last_block(es, "key"@) is Some
            &&& last_block(es, "key"@) is Some || last_line(
                es,
                "auth-user-pass"@,
                "auth-user-pass"@,
            ) is Some
            &&& last_block(es, "tls-auth"@) is Some && last_block(es, "tls-crypt"@) is None ==> (
            last_line(es, "key-direction"@, "key-direction"@) matches Some(words)
                ==> text::parsed_number(words[1], 255)->0 <= 1)
        },
{
    lemma_file_read(source);
    let lines = text::lines_of(source);
    let es = entries(lines);
    lemma_last_line_is_there(es, "key-direction"@, "key-direction"@);
}

/// A word that needs no quotes: something, without white space or quotes in it.
pub open spec fn plain_word(word: Seq<char>) -> bool {
    text::is_word(word) && forall|i: int| 0 <= i < word.len() ==> #[trigger] word[i] != '"'
}

proof fn lemma_plain_read(current: Seq<char>, word: Seq<char>, rest: Seq<char>, quoted: bool)
    requires
        forall|i: int| 0 <= i < word.len() ==> #[trigger] word[i] != '"',
        !quoted ==> forall|i: int| 0 <= i < word.len() ==> !text::is_space(#[trigger] word[i]),
    ensures
        config::words_from(word + rest, current, quoted) == config::words_from(
            rest,
            current + word,
            quoted,
        ),
    decreases word.len(),
{
    if word.len() == 0 {
        assert(word + rest =~= rest);
        assert(current + word =~= current);
    } else {
        let s = word + rest;
        let less = word.skip(1);
        assert(s[0] == word[0]);
        assert(s.skip(1) =~= less + rest);
        assert forall|i: int| 0 <= i < less.len() implies #[trigger] less[i] != '"' by {
            assert(less[i] == word[i + 1]);
        }
        if !quoted {
            assert forall|i: int| 0 <= i < less.len() implies !text::is_space(#[trigger] less[i]) by {
                assert(less[i] == word[i + 1]);
            }
        }
        lemma_plain_read(current.push(s[0]), less, rest, quoted);
        assert(current.push(s[0]) + less =~= current + word);
    }
}

/// A line is read word by word. White space ends a word, and quotes make one
/// word of what stands between them, white space and all.
pub proof fn a_line_is_read_word_by_word(
    word: Seq<char>,
    gap: char,
    rest: Seq<char>,
    held: Seq<char>,
)
    requires
        plain_word(word),
        text::is_space(gap),
        held.len() > 0,
        forall|i: int| 0 <= i < held.len() ==> #[trigger] held[i] != '"',
    ensures
        config::words_of(word) == seq![word],
        config::words_of(word + seq![gap] + rest) == seq![word] + config::words_of(rest),
        config::words_of(seq!['"'] + held + seq!['"']) == seq![held],
        config::words_of(seq!['"'] + held + seq!['"', gap] + rest) == seq![held] + config::words_of(
            rest,
        ),
{
    let none = Seq::<char>::empty();
    lemma_plain_read(none, word, none, false);
    assert(word + none =~= word);
    assert(none + word =~= word);
    let behind = seq![gap] + rest;
    assert(word + seq![gap] + rest =~= word + behind);
    lemma_plain_read(none, word, behind, false);
    assert(behind.skip(1) =~= rest);
    let close = seq!['"'];
    let alone = seq!['"'] + held + close;
    assert(alone.skip(1) =~= held + close);
    assert(none + held =~= held);
    lemma_plain_read(none, held, close, true);
    assert(close.skip(1) =~= none);
    assert(alone[0] == '"');
    assert(config::words_from(alone, none, false) == config::words_from(held + close, none, true));
    assert(config::words_from(close, held, true) == config::words_from(none, held, false));
    let more = seq!['"', gap] + rest;
    let all = seq!['"'] + held + seq!['"', gap] + rest;
    assert(all.skip(1) =~= held + more);
    lemma_plain_read(none, held, more, true);
    assert(more.skip(1) =~= behind);
    assert(all[0] == '"');
    assert(config::words_from(all, none, false) == config::words_from(held + more, none, true));
    assert(config::words_from(more, held, true) == config::words_from(behind, held, false));
}

/// A line that begins with `#` or `;`, after white space or not, says nothing,
/// and neither does an empty one.
pub proof fn a_comment_says_nothing(line: Seq<char>)
    requires
        line.len() > 0,
        line[0] == '#' || line[0] == ';',
    ensures
        config::comment_stripped(line).len() == 0,
        config::comment_stripped(seq![' '] + line).len() == 0,
        config::comment_stripped(seq!['\t'] + line).len() == 0,
        config::words_of(Seq::<char>::empty()).len() == 0,
        config::opened_tag(Seq::<char>::empty()) is None,
{
    lemma_front_stays(line);
    let spaced = seq![' '] + line;
    let tabbed = seq!['\t'] + line;
    assert(spaced.skip(1) =~= line);
    assert(tabbed.skip(1) =~= line);
    assert(text::trimmed_start(spaced) == text::trimmed_start(line));
    assert(text::trimmed_start(tabbed) == text::trimmed_start(line));
}

proof fn lemma_front_stays(line: Seq<char>)
    requires
        line.len() > 0,
        !text::is_space(line[0]),
    ensures
        text::trimmed_end(line).len() > 0,
        text::trimmed_end(line)[0] == line[0],
        text::trimmed(line) == text::trimmed_end(line),
    decreases line.len(),
{
    if text::is_space(line.last()) {
        assert(line.len() > 1);
        lemma_front_stays(line.drop_last());
    }
}

/// A line that holds neither a known first word nor a tag changes nothing,
/// wherever it stands.
pub proof fn an_unknown_line_changes_nothing(
    before: Seq<Entry>,
    words: Seq<Seq<char>>,
    word: Seq<char>,
    other: Seq<char>,
)
    requires
        words.len() > 0,
        words[0] != word,
        words[0] != other,
        words[0] != "remote"@,
    ensures
        last_line(before.push(Entry::Line(words)), word, other) == last_line(before, word, other),
        remote_lines(before.push(Entry::Line(words))) == remote_lines(before),
        last_block(before.push(Entry::Line(words)), word) == last_block(before, word),
{
    assert(before.push(Entry::Line(words)).drop_last() =~= before);
}

/// A cipher is known by its name, in capitals or not, and so is a digest, with
/// its hyphen or without.
pub proof fn a_cipher_is_known_by_its_name(cipher: DataCipher, digest: Digest, name: Seq<char>)
    ensures
        config::cipher_named(cipher.name()) == Some(cipher),
        config::digest_named(digest.name()) == Some(digest),
        config::cipher_named(text::lower(name)) == config::cipher_named(name),
        config::digest_named(text::lower(name)) == config::digest_named(name),
        config::cipher_named(name) matches Some(found) ==> text::upper(name) == found.name()
            || text::upper(name) == "CHACHA20POLY1305"@ && found == DataCipher::ChaCha20Poly1305,
{
    crate::openvpn::settings::lemma_cipher_name(cipher);
    reveal_strlit("SHA1");
    reveal_strlit("SHA256");
    reveal_strlit("SHA512");
    assert("SHA256"@[3] == '2' && "SHA512"@[3] == '5');
    assert(text::upper(digest.name()) =~= digest.name());
    lemma_nothing_removed(digest.name(), '-');
    assert(text::upper(text::lower(name)) =~= text::upper(name));
}

proof fn lemma_nothing_removed(s: Seq<char>, c: char)
    requires
        forall|i: int| 0 <= i < s.len() ==> s[i] != c,
    ensures
        text::without_char(s, c) == s,
    decreases s.len(),
{
    if s.len() > 0 {
        lemma_nothing_removed(s.drop_last(), c);
        assert(s.drop_last().push(s.last()) =~= s);
    }
}

/// Bytes in hexadecimal, two digits each, the high one first.
pub open spec fn hexadecimal(data: Seq<u8>) -> Seq<char> {
    Seq::new(
        2 * data.len(),
        |i: int|
            if i % 2 == 0 {
                text::hex_char((data[i / 2] / 16) as nat)
            } else {
                text::hex_char((data[i / 2] % 16) as nat)
            },
    )
}

/// A static key reads back from its hexadecimal digits, however they are laid
/// out in lines between the lines that only frame them.
pub proof fn a_static_key_reads_back(key: Seq<u8>, body: Seq<char>, tag: Seq<char>)
    requires
        config::key_text(text::lines_of(body)) == hexadecimal(key),
    ensures
        key.len() == 256 ==> config::static_key_of(body, tag) == Ok::<Seq<u8>, Seq<char>>(key),
        key.len() != 256 ==> config::static_key_of(body, tag) is Err,
{
    let hex = hexadecimal(key);
    assert forall|i: int| 0 <= i < hex.len() implies text::is_hex_digit(#[trigger] hex[i]) by {
        lemma_hex_digit((key[i / 2] / 16) as nat);
        lemma_hex_digit((key[i / 2] % 16) as nat);
    }
    let read = config::hex_bytes(hex);
    assert forall|i: int| 0 <= i < key.len() implies #[trigger] read[i] == key[i] by {
        lemma_hex_digit((key[i] / 16) as nat);
        lemma_hex_digit((key[i] % 16) as nat);
        assert((2 * i) / 2 == i && (2 * i + 1) / 2 == i);
        assert((2 * i) % 2 == 0 && (2 * i + 1) % 2 == 1);
    }
    assert(read =~= key);
}

proof fn lemma_hex_digit(d: nat)
    requires
        d < 16,
    ensures
        text::is_hex_digit(text::hex_char(d)),
        text::hex_value(text::hex_char(d)) == d,
{
}

/// The lines of a key count in order, without the white space around them; the
/// lines that frame the key and the comments do not count.
pub proof fn framing_lines_are_left_out(lines: Seq<Seq<char>>, line: Seq<char>)
    requires
        line.len() > 0,
        !text::is_space(line[0]),
        !text::is_space(line.last()),
    ensures
        config::key_text(lines.push(line)) == if line[0] == '-' || line[0] == '#' {
            config::key_text(lines)
        } else {
            config::key_text(lines) + line
        },
        config::key_text(Seq::<Seq<char>>::empty()).len() == 0,
{
    text::lemma_trimmed_as_it_is(line);
    assert(lines.push(line).drop_last() =~= lines);
}

/// A list of cipher names is read in order, and names that are not known are
/// passed over.
pub proof fn a_cipher_list_is_read_in_order(names: Seq<Seq<char>>, name: Seq<char>)
    ensures
        config::known_ciphers(names.push(name)) == match config::cipher_named(name) {
            Some(cipher) => config::known_ciphers(names).push(cipher),
            None => config::known_ciphers(names),
        },
        config::known_ciphers(Seq::<Seq<char>>::empty()).len() == 0,
{
    assert(names.push(name).drop_last() =~= names);
}

proof fn lemma_closed_at(body: Seq<Seq<char>>, closing: Seq<char>, rest: Seq<Seq<char>>)
    requires
        forall|k: int| 0 <= k < body.len() ==> text::trimmed(#[trigger] body[k]) != closing,
        text::trimmed(closing) == closing,
    ensures
        config::closing_index(body + seq![closing] + rest, closing) == body.len(),
    decreases body.len(),
{
    let all = body + seq![closing] + rest;
    if body.len() == 0 {
        assert(all[0] == closing);
    } else {
        assert(all[0] == body[0]);
        let less = body.skip(1);
        assert forall|k: int| 0 <= k < less.len() implies text::trimmed(#[trigger] less[k])
            != closing by {
            assert(less[k] == body[k + 1]);
        }
        assert(all.skip(1) =~= less + seq![closing] + rest);
        lemma_closed_at(less, closing, rest);
    }
}

/// A block holds the lines between its two tags, each with its newline, and the
/// file goes on behind it.
pub proof fn a_block_holds_what_stands_between_its_tags(
    tag: Seq<char>,
    body: Seq<Seq<char>>,
    rest: Seq<Seq<char>>,
    line: Seq<char>,
)
    requires
        tag.len() > 0,
        tag[0] != '/',
        forall|k: int|
            0 <= k < body.len() ==> text::trimmed(#[trigger] body[k]) != seq!['<', '/'] + tag + seq![
                '>',
            ],
    ensures
        ({
            let opening = seq!['<'] + tag + seq!['>'];
            let closing = seq!['<', '/'] + tag + seq!['>'];
            let lines = seq![opening] + body + seq![closing] + rest;
            &&& tag != "connection"@ ==> entries(lines) == seq![
                Entry::Block(tag, config::block_text(body)),
            ] + entries(rest)
            &&& tag == "connection"@ ==> entries(lines) == connection_entries(
                text::lines_of(config::block_text(body)),
            ) + entries(rest)
            &&& all_closed(lines) <==> all_closed(rest)
        }),
        config::block_text(body.push(line)) == config::block_text(body) + line + seq!['\n'],
        config::block_text(Seq::<Seq<char>>::empty()).len() == 0,
{
    let opening = seq!['<'] + tag + seq!['>'];
    let closing = seq!['<', '/'] + tag + seq!['>'];
    let lines = seq![opening] + body + seq![closing] + rest;
    assert(opening.last() == '>' && opening[0] == '<' && opening[1] == tag[0]);
    assert(closing.last() == '>' && closing[0] == '<');
    text::lemma_trimmed_as_it_is(opening);
    text::lemma_trimmed_as_it_is(closing);
    assert(opening.subrange(1, opening.len() - 1) =~= tag);
    reveal_strlit("</");
    reveal_strlit(">");
    assert(config::closing_line(tag) =~= closing);
    let behind = lines.skip(1);
    assert(behind =~= body + seq![closing] + rest);
    lemma_closed_at(body, closing, rest);
    let n = body.len() as int;
    assert(behind.take(n) =~= body);
    assert(behind.skip(n + 1) =~= rest);
    assert(lines[0] == opening);
    assert(body.push(line).drop_last() =~= body);
    assert((config::block_text(body) + line).push('\n') =~= config::block_text(body) + line + seq![
        '\n',
    ]);
}

/// An ordinary line is one entry, and the file goes on behind it.
pub proof fn an_ordinary_line_is_one_entry(line: Seq<char>, rest: Seq<Seq<char>>)
    requires
        config::comment_stripped(line).len() > 0 ==> config::comment_stripped(line)[0] != '<',
    ensures
        entries(seq![line] + rest) == seq![
            Entry::Line(config::words_of(config::comment_stripped(line))),
        ] + entries(rest),
        all_closed(seq![line] + rest) <==> all_closed(rest),
{
    let lines = seq![line] + rest;
    assert(lines[0] == line);
    assert(lines.skip(1) =~= rest);
}

/// A line opens a block exactly where it is a tag in angle brackets that does not
/// close one.
pub proof fn a_tag_stands_in_angle_brackets(line: Seq<char>, tag: Seq<char>)
    ensures
        config::opened_tag(line) == Some(tag) <==> tag.len() > 0 && tag[0] != '/' && line == seq!['<']
            + tag + seq!['>'],
{
    let whole = seq!['<'] + tag + seq!['>'];
    if config::opened_tag(line) == Some(tag) {
        assert(tag == line.subrange(1, line.len() - 1));
        assert(tag[0] == line[1]);
        assert(line =~= whole);
    }
    if tag.len() > 0 && tag[0] != '/' && line == whole {
        assert(line[1] == tag[0]);
        assert(line.last() == '>');
        assert(line.subrange(1, line.len() - 1) =~= tag);
    }
}

/// A comment is only what a line begins with: anywhere else those characters are
/// part of a word.
pub proof fn a_comment_begins_its_line(line: Seq<char>)
    requires
        line.len() > 0,
        !text::is_space(line[0]),
        !text::is_space(line.last()),
        line[0] != '#',
        line[0] != ';',
    ensures
        config::comment_stripped(line) == line,
        config::comment_stripped(seq![' '] + line) == line,
        config::comment_stripped(line + seq!['\r']) == line,
{
    text::lemma_trimmed_as_it_is(line);
    let before = seq![' '] + line;
    assert(before.skip(1) =~= line);
    assert(text::trimmed_start(before) == text::trimmed_start(line));
    let behind = line + seq!['\r'];
    assert(behind[0] == line[0]);
    assert(text::trimmed_start(behind) == behind);
    assert(behind.last() == '\r');
    assert(behind.drop_last() =~= line);
    assert(text::trimmed_end(behind) == text::trimmed_end(line));
}

} // verus!
