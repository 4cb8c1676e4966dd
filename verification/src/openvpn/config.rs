//! Parsing of the `.ovpn` files providers hand out.
//!
//! Only the directives that change what the client puts on the wire are read.
//! Everything else -- verbosity, reconnection policy, the many directives that
//! matter only to a platform's own tun handling -- is ignored, because a
//! provider's file is full of them and failing on an unknown line would reject
//! configurations that work perfectly well.
//!
//! Directives that cannot be honoured are a different matter. Those are rejected
//! by name, so the user is told what about their file is unsupported instead of
//! watching a connection fail with no reason given.

use vstd::prelude::*;
use vstd::slice::slice_subrange;
use vstd::string::StringExecFns;

use crate::net::{Endpoint, IpAddress};
use crate::netutil;
use crate::text;

verus! {

/// How control packets are protected before TLS even starts.
#[derive(Clone)]
pub enum ControlAuth {
    /// Nothing wraps the control packets. Common for the username/password
    /// providers that ship a `<ca>` block and nothing else.
    Plain,
    /// `--tls-auth`: every control packet carries an HMAC.
    TlsAuth { key: Box<StaticKey>, direction: KeyDirection, digest: Digest },
    /// `--tls-crypt`: control packets are encrypted as well as authenticated.
    TlsCrypt { key: Box<StaticKey> },
}

impl ControlAuth {
    pub open spec fn name(&self) -> Seq<char> {
        match self {
            ControlAuth::Plain => "plain"@,
            ControlAuth::TlsAuth { .. } => "tls-auth"@,
            ControlAuth::TlsCrypt { .. } => "tls-crypt"@,
        }
    }

    pub fn as_str(&self) -> (name: &'static str)
        ensures
            name@ == self.name(),
    {
        match self {
            ControlAuth::Plain => "plain",
            ControlAuth::TlsAuth { .. } => "tls-auth",
            ControlAuth::TlsCrypt { .. } => "tls-crypt",
        }
    }
}

/// An `openvpn --genkey` static key: two independent keys, each 64 bytes of
/// cipher key followed by 64 bytes of HMAC key.
#[derive(Clone, Copy)]
pub struct StaticKey(pub [u8; 256]);

impl StaticKey {
    pub open spec fn cipher_half(&self, index: int) -> Seq<u8> {
        self.0@.subrange(index * 128, index * 128 + 64)
    }

    pub open spec fn hmac_half(&self, index: int) -> Seq<u8> {
        self.0@.subrange(index * 128 + 64, index * 128 + 128)
    }

    /// The cipher half of one of the two keys.
    pub fn cipher(&self, index: usize) -> (half: &[u8])
        requires
            index < 2,
        ensures
            half@ == self.cipher_half(index as int),
            half@.len() == 64,
    {
        slice_subrange(self.0.as_slice(), index * 128, index * 128 + 64)
    }

    /// The HMAC half of one of the two keys.
    pub fn hmac(&self, index: usize) -> (half: &[u8])
        requires
            index < 2,
        ensures
            half@ == self.hmac_half(index as int),
            half@.len() == 64,
    {
        slice_subrange(self.0.as_slice(), index * 128 + 64, index * 128 + 128)
    }
}

/// Which of the two keys in a static key file each side sends with.
///
/// OpenVPN keeps two keys in one file and picks by direction, so that the two
/// ends never sign with the same key.
#[derive(Debug, Clone, Copy, PartialEq, Eq, Structural)]
pub enum KeyDirection {
    /// `--key-direction 0`: send with key 0, receive with key 1.
    Normal,
    /// `--key-direction 1`, the client's usual setting: the mirror image.
    Inverse,
    /// No direction given, so both ends use key 0 for everything.
    Bidirectional,
}

impl KeyDirection {
    pub open spec fn key_indexes(self) -> (usize, usize) {
        match self {
            KeyDirection::Normal => (0, 1),
            KeyDirection::Inverse => (1, 0),
            KeyDirection::Bidirectional => (0, 0),
        }
    }

    /// The direction that the other end of the link has to use.
    pub open spec fn mirrored(self) -> KeyDirection {
        match self {
            KeyDirection::Normal => KeyDirection::Inverse,
            KeyDirection::Inverse => KeyDirection::Normal,
            KeyDirection::Bidirectional => KeyDirection::Bidirectional,
        }
    }

    /// `(index of the key we send with, index of the key we receive with)`
    pub fn indexes(self) -> (r: (usize, usize))
        ensures
            r == self.key_indexes(),
    {
        match self {
            KeyDirection::Normal => (0, 1),
            KeyDirection::Inverse => (1, 0),
            KeyDirection::Bidirectional => (0, 0),
        }
    }
}

#[derive(Debug, Clone, Copy, PartialEq, Eq, Structural)]
pub enum Digest {
    Sha1,
    Sha256,
    Sha512,
}

impl Digest {
    pub open spec fn size(self) -> usize {
        match self {
            Digest::Sha1 => 20,
            Digest::Sha256 => 32,
            Digest::Sha512 => 64,
        }
    }

    pub open spec fn name(self) -> Seq<char> {
        match self {
            Digest::Sha1 => "SHA1"@,
            Digest::Sha256 => "SHA256"@,
            Digest::Sha512 => "SHA512"@,
        }
    }

    pub fn output_len(self) -> (size: usize)
        ensures
            size == self.size(),
    {
        match self {
            Digest::Sha1 => 20,
            Digest::Sha256 => 32,
            Digest::Sha512 => 64,
        }
    }

    pub fn as_str(self) -> (name: &'static str)
        ensures
            name@ == self.name(),
    {
        match self {
            Digest::Sha1 => "SHA1",
            Digest::Sha256 => "SHA256",
            Digest::Sha512 => "SHA512",
        }
    }
}

/// The data-channel ciphers this client implements.
///
/// All three are AEAD. OpenVPN's older CBC-plus-HMAC construction is
/// deliberately absent: it is deprecated upstream, no current provider needs
/// it, and supporting it would double the size of the data channel for nothing.
#[derive(Debug, Clone, Copy, PartialEq, Eq, Structural)]
pub enum DataCipher {
    Aes256Gcm,
    Aes128Gcm,
    ChaCha20Poly1305,
}

impl DataCipher {
    pub open spec fn name(self) -> Seq<char> {
        match self {
            DataCipher::Aes256Gcm => "AES-256-GCM"@,
            DataCipher::Aes128Gcm => "AES-128-GCM"@,
            DataCipher::ChaCha20Poly1305 => "CHACHA20-POLY1305"@,
        }
    }

    pub open spec fn key_size(self) -> usize {
        match self {
            DataCipher::Aes128Gcm => 16,
            _ => 32,
        }
    }

    pub fn as_str(self) -> (name: &'static str)
        ensures
            name@ == self.name(),
    {
        match self {
            DataCipher::Aes256Gcm => "AES-256-GCM",
            DataCipher::Aes128Gcm => "AES-128-GCM",
            DataCipher::ChaCha20Poly1305 => "CHACHA20-POLY1305",
        }
    }

    pub fn key_len(self) -> (size: usize)
        ensures
            size == self.key_size(),
    {
        match self {
            DataCipher::Aes128Gcm => 16,
            _ => 32,
        }
    }
}

/// The transport of a connection.
#[derive(Debug, Clone, Copy, PartialEq, Eq, Structural)]
pub enum Protocol {
    Udp,
    Tcp,
}

impl Protocol {
    pub open spec fn name(self) -> Seq<char> {
        match self {
            Protocol::Udp => "udp"@,
            Protocol::Tcp => "tcp"@,
        }
    }

    pub open spec fn options_word(self) -> Seq<char> {
        match self {
            Protocol::Udp => "UDPv4"@,
            Protocol::Tcp => "TCPv4_CLIENT"@,
        }
    }

    pub fn as_str(self) -> (name: &'static str)
        ensures
            name@ == self.name(),
    {
        match self {
            Protocol::Udp => "udp",
            Protocol::Tcp => "tcp",
        }
    }

    /// The name used in the options string the two ends compare.
    pub fn options_name(self) -> (name: &'static str)
        ensures
            name@ == self.options_word(),
    {
        match self {
            Protocol::Udp => "UDPv4",
            Protocol::Tcp => "TCPv4_CLIENT",
        }
    }
}

/// The digest that a name stands for: letter case and hyphens do not matter.
pub open spec fn digest_named(name: Seq<char>) -> Option<Digest> {
    let plain = text::without_char(text::upper(name), '-');
    if plain == "SHA1"@ {
        Some(Digest::Sha1)
    } else if plain == "SHA256"@ {
        Some(Digest::Sha256)
    } else if plain == "SHA512"@ {
        Some(Digest::Sha512)
    } else {
        None
    }
}

/// The cipher that a name stands for, whatever its letter case.
pub open spec fn cipher_named(name: Seq<char>) -> Option<DataCipher> {
    let upper = text::upper(name);
    if upper == "AES-256-GCM"@ {
        Some(DataCipher::Aes256Gcm)
    } else if upper == "AES-128-GCM"@ {
        Some(DataCipher::Aes128Gcm)
    } else if upper == "CHACHA20-POLY1305"@ || upper == "CHACHA20POLY1305"@ {
        Some(DataCipher::ChaCha20Poly1305)
    } else {
        None
    }
}

fn digest_of(name: &[char]) -> (r: Option<Digest>)
    ensures
        r == digest_named(name@),
{
    let upper = text::to_upper(name);
    let plain = text::remove_char(upper.as_slice(), '-');
    let word = plain.as_slice();
    if text::spells(word, "SHA1") {
        Some(Digest::Sha1)
    } else if text::spells(word, "SHA256") {
        Some(Digest::Sha256)
    } else if text::spells(word, "SHA512") {
        Some(Digest::Sha512)
    } else {
        None
    }
}

fn cipher_of(name: &[char]) -> (r: Option<DataCipher>)
    ensures
        r == cipher_named(name@),
{
    let upper = text::to_upper(name);
    let word = upper.as_slice();
    if text::spells(word, "AES-256-GCM") {
        Some(DataCipher::Aes256Gcm)
    } else if text::spells(word, "AES-128-GCM") {
        Some(DataCipher::Aes128Gcm)
    } else if text::spells(word, "CHACHA20-POLY1305") || text::spells(word, "CHACHA20POLY1305") {
        Some(DataCipher::ChaCha20Poly1305)
    } else {
        None
    }
}

impl Digest {
    pub fn parse(name: &str) -> (r: Option<Self>)
        ensures
            r == digest_named(name@),
    {
        digest_of(text::chars(name).as_slice())
    }
}

impl DataCipher {
    pub fn parse(name: &str) -> (r: Option<Self>)
        ensures
            r == cipher_named(name@),
    {
        cipher_of(text::chars(name).as_slice())
    }
}

pub const SERVER_CONFIGURATION: &'static str =
    "this is a server configuration, not a client one; it listens rather than connecting";

/// The protocol that a name stands for.
pub open spec fn protocol_named(name: Seq<char>) -> Result<Protocol, Seq<char>> {
    let word = text::lower(name);
    if word == "udp"@ || word == "udp4"@ || word == "udp6"@ {
        Ok(Protocol::Udp)
    } else if word == "tcp"@ || word == "tcp4"@ || word == "tcp6"@ || word == "tcp-client"@ || word
        == "tcp4-client"@ || word == "tcp6-client"@ {
        Ok(Protocol::Tcp)
    } else if word == "tcp-server"@ || word == "udp-server"@ {
        Err(SERVER_CONFIGURATION@)
    } else {
        Err("`"@ + word + "` is not a protocol GamePath understands"@)
    }
}

fn parse_protocol(name: &[char]) -> (r: Result<Protocol, String>)
    ensures
        match protocol_named(name@) {
            Ok(protocol) => r == Ok::<Protocol, String>(protocol),
            Err(why) => r matches Err(message) && message@ == why,
        },
{
    let lower = text::to_lower(name);
    let word = lower.as_slice();
    if text::spells(word, "udp") || text::spells(word, "udp4") || text::spells(word, "udp6") {
        Ok(Protocol::Udp)
    } else if text::spells(word, "tcp") || text::spells(word, "tcp4") || text::spells(word, "tcp6")
        || text::spells(word, "tcp-client") || text::spells(word, "tcp4-client") || text::spells(
        word,
        "tcp6-client",
    ) {
        Ok(Protocol::Tcp)
    } else if text::spells(word, "tcp-server") || text::spells(word, "udp-server") {
        Err(SERVER_CONFIGURATION.to_owned())
    } else {
        Err(
            text::concat3(
                "`",
                text::string(word).as_str(),
                "` is not a protocol GamePath understands",
            ),
        )
    }
}

/// The port that a text stands for: a number from 1 to 65535.
pub open spec fn port_named(value: Seq<char>) -> Result<u16, Seq<char>> {
    match text::parsed_number(value, 0xffff) {
        Some(port) if port != 0 => Ok(port as u16),
        _ => Err("`"@ + value + "` is not a usable port number"@),
    }
}

fn parse_port(value: &[char]) -> (r: Result<u16, String>)
    ensures
        match port_named(value@) {
            Ok(port) => r == Ok::<u16, String>(port),
            Err(why) => r matches Err(message) && message@ == why,
        },
{
    match text::parse_number(value, 0xffff) {
        Some(port) if port != 0 => Ok(port as u16),
        _ => Err(
            text::concat3("`", text::string(value).as_str(), "` is not a usable port number"),
        ),
    }
}

/// A line without its surroundings, or nothing where it is a comment.
pub open spec fn comment_stripped(line: Seq<char>) -> Seq<char> {
    let bare = text::trimmed(line);
    if bare.len() > 0 && (bare[0] == '#' || bare[0] == ';') {
        Seq::<char>::empty()
    } else {
        bare
    }
}

fn strip_comment(line: &[char]) -> (r: &[char])
    ensures
        r@ == comment_stripped(line@),
{
    let bare = text::trim(line);
    if bare.len() > 0 && (bare[0] == '#' || bare[0] == ';') {
        let r = slice_subrange(bare, 0, 0);
        assert(r@ =~= Seq::<char>::empty());
        return r;
    }
    bare
}

/// The tag that a line such as `<ca>` opens.
pub open spec fn opened_tag(line: Seq<char>) -> Option<Seq<char>> {
    if line.len() >= 3 && line[0] == '<' && line.last() == '>' && line[1] != '/' {
        Some(line.subrange(1, line.len() - 1))
    } else {
        None
    }
}

fn inline_open_tag(line: &[char]) -> (r: Option<&[char]>)
    ensures
        match opened_tag(line@) {
            Some(tag) => r matches Some(found) && found@ == tag,
            None => r is None,
        },
{
    let size: usize = line.len();
    if size >= 3 && line[0] == '<' && line[size - 1] == '>' && line[1] != '/' {
        Some(slice_subrange(line, 1, size - 1))
    } else {
        None
    }
}

/// The words of a line, given the word that is being read and whether a quote
/// is open. White space parts words unless it is quoted.
pub open spec fn words_from(s: Seq<char>, current: Seq<char>, quoted: bool) -> Seq<Seq<char>>
    decreases s.len(),
{
    if s.len() == 0 {
        if current.len() == 0 {
            Seq::<Seq<char>>::empty()
        } else {
            seq![current]
        }
    } else if s[0] == '"' {
        words_from(s.skip(1), current, !quoted)
    } else if text::is_space(s[0]) && !quoted {
        if current.len() == 0 {
            words_from(s.skip(1), current, quoted)
        } else {
            seq![current] + words_from(s.skip(1), Seq::<char>::empty(), quoted)
        }
    } else {
        words_from(s.skip(1), current.push(s[0]), quoted)
    }
}

/// The words of a line, keeping quoted arguments whole.
pub open spec fn words_of(line: Seq<char>) -> Seq<Seq<char>> {
    words_from(line, Seq::<char>::empty(), false)
}

/// Splits a directive into tokens, keeping quoted arguments whole.
fn tokenize(line: &[char]) -> (tokens: Vec<Vec<char>>)
    ensures
        text::views(tokens@) == words_of(line@),
{
    let mut tokens: Vec<Vec<char>> = Vec::new();
    let mut current: Vec<char> = Vec::new();
    let mut quoted: bool = false;
    let mut at: usize = 0;
    assert(line@.skip(0) =~= line@);
    assert(current@ =~= Seq::<char>::empty());
    assert(text::views(tokens@) + words_of(line@) =~= words_of(line@));
    while at < line.len()
        invariant
            at <= line@.len(),
            words_of(line@) == text::views(tokens@) + words_from(
                line@.skip(at as int),
                current@,
                quoted,
            ),
        decreases line@.len() - at,
    {
        let c = line[at];
        proof {
            assert(line@.skip(at as int)[0] == c);
            assert(line@.skip(at as int).skip(1) =~= line@.skip(at + 1));
        }
        if c == '"' {
            quoted = !quoted;
        } else if text::is_white_space(c) && !quoted {
            if current.len() > 0 {
                let mut word: Vec<char> = Vec::new();
                core::mem::swap(&mut word, &mut current);
                let ghost before = tokens@;
                tokens.push(word);
                proof {
                    let rest = words_from(line@.skip(at + 1), Seq::<char>::empty(), quoted);
                    assert(current@ =~= Seq::<char>::empty());
                    assert(text::views(tokens@) =~= text::views(before).push(word@));
                    assert(text::views(before) + (seq![word@] + rest) =~= text::views(tokens@)
                        + rest);
                }
            }
        } else {
            current.push(c);
        }
        at = at + 1;
    }
    assert(line@.skip(at as int) =~= Seq::<char>::empty());
    if current.len() > 0 {
        let ghost before = tokens@;
        tokens.push(current);
        assert(text::views(tokens@) =~= text::views(before).push(current@));
        assert(text::views(before) + seq![current@] =~= text::views(tokens@));
    } else {
        assert(text::views(tokens@) + Seq::<Seq<char>>::empty() =~= text::views(tokens@));
    }
    tokens
}

pub const REMOTE_NEEDS_HOST: &'static str =
    "a `remote` line in the OpenVPN configuration has no host";

pub const PROTO_NEEDS_NAME: &'static str = "`proto` needs udp or tcp";

pub const PORT_NEEDS_NUMBER: &'static str = "`port` needs a number";

pub const AUTH_NEEDS_NAME: &'static str = "`auth` needs a digest name";

pub const CIPHERS_NEED_LIST: &'static str = "`data-ciphers` needs a list";

pub const DIRECTION_NEEDS_NUMBER: &'static str = "`key-direction` needs 0 or 1";

pub const NEEDS_TUN: &'static str =
    "`. GamePath carries IP packets, so it needs a `tun` configuration; ask the provider for one.";

pub const UNKNOWN_DIGEST: &'static str = "` digest, which GamePath does not implement";

pub const UNKNOWN_CIPHERS: &'static str =
    "` are implemented by GamePath, which supports AES-256-GCM, AES-128-GCM and CHACHA20-POLY1305";

pub const CREDENTIALS_IN_FILE: &'static str =
    "`. Remove that filename and enter the credentials in GamePath instead.";

pub const SEPARATE_FILE: &'static str =
    "` in a separate file. GamePath needs one self-contained file, with the certificates and keys inline between `<";

pub const STATIC_KEY_MODE: &'static str =
    "this configuration uses OpenVPN's static-key mode, which has no TLS handshake and is removed in current OpenVPN releases. Ask the provider for a normal TLS configuration.";

pub const NO_COMPRESSION: &'static str =
    "`. GamePath does not compress tunnelled traffic, because compression leaks information about it and adds latency. Ask the provider for a configuration without compression.";

pub const NO_FRAGMENT: &'static str =
    "this configuration uses `--fragment`, OpenVPN's own packet splitting, which GamePath does not implement. Ask the provider for a configuration without it.";

pub const PROXY_INSIDE: &'static str =
    "`. Add that proxy as its own GamePath node instead of naming it inside the OpenVPN file.";

pub const NO_CHALLENGE: &'static str =
    "this configuration asks for a one-time code at connect time, which GamePath cannot prompt for.";

pub const NO_TLS_CRYPT_V2: &'static str =
    "this configuration uses `tls-crypt-v2`, which GamePath does not implement yet. A `tls-crypt` or plain configuration from the same provider will work.";

pub const NO_REMOTE: &'static str =
    "this OpenVPN configuration has no `remote` line, so there is no server to connect to";

pub const NO_CA: &'static str =
    "this OpenVPN configuration has no `<ca>` block, so the server's certificate cannot be checked against anything.";

pub const HALF_A_CERTIFICATE: &'static str =
    "this OpenVPN configuration has only one of `<cert>` and `<key>`. Certificate authentication needs both.";

pub const NO_AUTHENTICATION: &'static str =
    "this OpenVPN configuration has neither `auth-user-pass` nor a client certificate, so there is no way to authenticate to the server.";

pub const BAD_DIRECTION: &'static str =
    "` is neither 0 nor 1, so GamePath cannot tell which half of the `<tls-auth>` key to sign with";

pub const NOT_A_STATIC_KEY: &'static str =
    ">` block is not an OpenVPN static key; it should hold 2048 bits written as 512 hex digits";

pub const NO_PRIVATE_KEY: &'static str =
    "the `<key>` block does not contain a private key GamePath can read. A              passphrase-protected key has to be decrypted first.";

/// A `remote` before `--proto` and `--port` elsewhere in the file have been
/// applied to it.
pub struct DraftRemote {
    pub host: Seq<char>,
    pub port: Option<u16>,
    pub protocol: Option<Protocol>,
}

/// What has been read of a file so far.
#[verifier::ext_equal]
pub struct Draft {
    pub remotes: Seq<DraftRemote>,
    pub protocol: Option<Protocol>,
    pub port: Option<u16>,
    pub ca: Seq<Seq<u8>>,
    pub client_certs: Seq<Seq<u8>>,
    pub client_key: Option<Seq<char>>,
    pub tls_auth: Option<Seq<u8>>,
    pub key_direction: Option<u8>,
    pub tls_crypt: Option<Seq<u8>>,
    pub ciphers: Option<Seq<DataCipher>>,
    pub legacy_cipher: Option<DataCipher>,
    pub digest: Option<Digest>,
    pub wants_credentials: bool,
    pub reneg_seconds: Option<u64>,
    pub tun_mtu: Option<u16>,
}

/// The known ciphers among some names, in their order.
pub open spec fn known_ciphers(names: Seq<Seq<char>>) -> Seq<DataCipher>
    decreases names.len(),
{
    if names.len() == 0 {
        Seq::<DataCipher>::empty()
    } else {
        match cipher_named(names.last()) {
            Some(cipher) => known_ciphers(names.drop_last()).push(cipher),
            None => known_ciphers(names.drop_last()),
        }
    }
}

/// A number argument, or nothing where it is not one.
pub open spec fn number_argument(arguments: Seq<Seq<char>>, max: nat) -> Option<nat> {
    if arguments.len() == 0 {
        None
    } else {
        text::parsed_number(arguments[0], max)
    }
}

/// The draft once a `remote` line has been read.
pub open spec fn remote_read(draft: Draft, arguments: Seq<Seq<char>>) -> Result<Draft, Seq<char>> {
    if arguments.len() == 0 {
        Err(REMOTE_NEEDS_HOST@)
    } else if arguments.len() >= 2 && port_named(arguments[1]) is Err {
        Err(port_named(arguments[1])->Err_0)
    } else if arguments.len() >= 3 && protocol_named(arguments[2]) is Err {
        Err(protocol_named(arguments[2])->Err_0)
    } else {
        let remote = DraftRemote {
            host: arguments[0],
            port: if arguments.len() >= 2 {
                Some(port_named(arguments[1])->Ok_0)
            } else {
                None
            },
            protocol: if arguments.len() >= 3 {
                Some(protocol_named(arguments[2])->Ok_0)
            } else {
                None
            },
        };
        Ok(Draft { remotes: draft.remotes.push(remote), ..draft })
    }
}

/// The draft once a `data-ciphers` line has been read.
pub open spec fn ciphers_read(draft: Draft, arguments: Seq<Seq<char>>) -> Result<
    Draft,
    Seq<char>,
> {
    if arguments.len() == 0 {
        Err(CIPHERS_NEED_LIST@)
    } else {
        let found = known_ciphers(text::split_at_char(arguments[0], ':'));
        if found.len() == 0 {
            Err("none of the ciphers in `data-ciphers "@ + arguments[0] + UNKNOWN_CIPHERS@)
        } else {
            Ok(Draft { ciphers: Some(found), ..draft })
        }
    }
}

/// The draft once one directive has been read.
pub open spec fn directive_read(
    draft: Draft,
    directive: Seq<char>,
    arguments: Seq<Seq<char>>,
) -> Result<Draft, Seq<char>> {
    let bare = arguments.len() == 0;
    if directive == "remote"@ {
        remote_read(draft, arguments)
    } else if directive == "proto"@ {
        if bare {
            Err(PROTO_NEEDS_NAME@)
        } else {
            match protocol_named(arguments[0]) {
                Ok(protocol) => Ok(Draft { protocol: Some(protocol), ..draft }),
                Err(why) => Err(why),
            }
        }
    } else if directive == "port"@ || directive == "rport"@ {
        if bare {
            Err(PORT_NEEDS_NUMBER@)
        } else {
            match port_named(arguments[0]) {
                Ok(port) => Ok(Draft { port: Some(port), ..draft }),
                Err(why) => Err(why),
            }
        }
    } else if directive == "dev"@ || directive == "dev-type"@ {
        if bare || text::begins_with(arguments[0], "tun"@) {
            Ok(draft)
        } else {
            Err("this configuration uses `dev "@ + arguments[0] + NEEDS_TUN@)
        }
    } else if directive == "auth"@ {
        if bare {
            Err(AUTH_NEEDS_NAME@)
        } else {
            match digest_named(arguments[0]) {
                Some(digest) => Ok(Draft { digest: Some(digest), ..draft }),
                None => Err(
                    "this configuration asks for the `"@ + arguments[0] + UNKNOWN_DIGEST@,
                ),
            }
        }
    } else if directive == "cipher"@ {
        Ok(
            Draft {
                legacy_cipher: if bare {
                    None
                } else {
                    cipher_named(arguments[0])
                },
                ..draft
            },
        )
    } else if directive == "data-ciphers"@ || directive == "ncp-ciphers"@ {
        ciphers_read(draft, arguments)
    } else if directive == "auth-user-pass"@ {
        if bare {
            Ok(Draft { wants_credentials: true, ..draft })
        } else {
            Err(
                "this configuration reads its username and password from `"@ + arguments[0]
                    + CREDENTIALS_IN_FILE@,
            )
        }
    } else if directive == "reneg-sec"@ {
        Ok(
            Draft {
                reneg_seconds: match number_argument(arguments, u64::MAX as nat) {
                    Some(n) => Some(n as u64),
                    None => None,
                },
                ..draft
            },
        )
    } else if directive == "tun-mtu"@ {
        Ok(
            Draft {
                tun_mtu: match number_argument(arguments, 0xffff) {
                    Some(n) => Some(n as u16),
                    None => None,
                },
                ..draft
            },
        )
    } else if directive == "key-direction"@ {
        match number_argument(arguments, 0xff) {
            Some(n) => Ok(Draft { key_direction: Some(n as u8), ..draft }),
            None => Err(DIRECTION_NEEDS_NUMBER@),
        }
    } else if directive == "ca"@ || directive == "cert"@ || directive == "key"@ || directive
        == "tls-auth"@ || directive == "tls-crypt"@ || directive == "tls-crypt-v2"@ || directive
        == "pkcs12"@ {
        Err(
            "this configuration keeps its `"@ + directive + SEPARATE_FILE@ + directive + ">` and `</"@
                + directive + ">` tags."@,
        )
    } else if directive == "secret"@ {
        Err(STATIC_KEY_MODE@)
    } else if directive == "comp-lzo"@ || directive == "compress"@ {
        if bare || arguments[0] == "no"@ || arguments[0] == "stub"@ || arguments[0] == "stub-v2"@ {
            Ok(draft)
        } else {
            Err(
                "this configuration turns on `"@ + directive + " "@ + arguments[0]
                    + NO_COMPRESSION@,
            )
        }
    } else if directive == "fragment"@ {
        Err(NO_FRAGMENT@)
    } else if directive == "http-proxy"@ || directive == "socks-proxy"@ {
        Err("this configuration reaches its server through `"@ + directive + PROXY_INSIDE@)
    } else if directive == "static-challenge"@ {
        Err(NO_CHALLENGE@)
    } else {
        Ok(draft)
    }
}

struct PendingRemote {
    host: String,
    port: Option<u16>,
    protocol: Option<Protocol>,
}

struct Parser {
    remotes: Vec<PendingRemote>,
    protocol: Option<Protocol>,
    port: Option<u16>,
    ca: Vec<Vec<u8>>,
    client_certs: Vec<Vec<u8>>,
    client_key: Option<String>,
    tls_auth: Option<Box<StaticKey>>,
    /// `--key-direction`, which may appear either side of the `<tls-auth>`
    /// block it applies to, so it cannot be resolved as it is read.
    key_direction: Option<u8>,
    tls_crypt: Option<Box<StaticKey>>,
    ciphers: Option<Vec<DataCipher>>,
    /// `--cipher`, kept apart from `--data-ciphers` because it is only what a
    /// server too old to negotiate will use.
    legacy_cipher: Option<DataCipher>,
    digest: Option<Digest>,
    wants_credentials: bool,
    reneg_seconds: Option<u64>,
    tun_mtu: Option<u16>,
}

spec fn draft_remotes(list: Seq<PendingRemote>) -> Seq<DraftRemote> {
    Seq::new(
        list.len(),
        |i: int|
            DraftRemote {
                host: list[i].host@,
                port: list[i].port,
                protocol: list[i].protocol,
            },
    )
}

/// The contents of a list of byte vectors.
pub open spec fn byte_views(list: Seq<Vec<u8>>) -> Seq<Seq<u8>> {
    Seq::new(list.len(), |i: int| list[i]@)
}

spec fn key_view(key: Option<Box<StaticKey>>) -> Option<Seq<u8>> {
    match key {
        Some(key) => Some(key.0@),
        None => None,
    }
}

spec fn text_view(s: Option<String>) -> Option<Seq<char>> {
    match s {
        Some(s) => Some(s@),
        None => None,
    }
}

impl View for Parser {
    type V = Draft;

    closed spec fn view(&self) -> Draft {
        Draft {
            remotes: draft_remotes(self.remotes@),
            protocol: self.protocol,
            port: self.port,
            ca: byte_views(self.ca@),
            client_certs: byte_views(self.client_certs@),
            client_key: text_view(self.client_key),
            tls_auth: key_view(self.tls_auth),
            key_direction: self.key_direction,
            tls_crypt: key_view(self.tls_crypt),
            ciphers: match self.ciphers {
                Some(list) => Some(list@),
                None => None,
            },
            legacy_cipher: self.legacy_cipher,
            digest: self.digest,
            wants_credentials: self.wants_credentials,
            reneg_seconds: self.reneg_seconds,
            tun_mtu: self.tun_mtu,
        }
    }
}

fn known(names: &Vec<Vec<char>>) -> (r: Vec<DataCipher>)
    ensures
        r@ == known_ciphers(text::views(names@)),
{
    let mut r: Vec<DataCipher> = Vec::new();
    let mut at: usize = 0;
    let ghost all = text::views(names@);
    assert(all.take(0) =~= Seq::<Seq<char>>::empty());
    while at < names.len()
        invariant
            at <= names@.len(),
            all == text::views(names@),
            r@ == known_ciphers(all.take(at as int)),
        decreases names@.len() - at,
    {
        assert(all.take(at + 1).drop_last() =~= all.take(at as int));
        if let Some(cipher) = cipher_of(names[at].as_slice()) {
            r.push(cipher);
        }
        at = at + 1;
    }
    assert(all.take(at as int) =~= all);
    r
}

impl Parser {
    fn remote(&mut self, tokens: &Vec<Vec<char>>) -> (r: Result<(), String>)
        requires
            tokens@.len() > 0,
        ensures
            match remote_read(old(self)@, text::views(tokens@).skip(1)) {
                Ok(next) => r is Ok && final(self)@ == next,
                Err(why) => final(self)@ == old(self)@ && (r matches Err(message) && message@
                    == why),
            },
    {
        let ghost arguments = text::views(tokens@).skip(1);
        if tokens.len() < 2 {
            return Err(REMOTE_NEEDS_HOST.to_owned());
        }
        assert(arguments[0] == tokens@[1]@);
        let mut port: Option<u16> = None;
        if tokens.len() >= 3 {
            assert(arguments[1] == tokens@[2]@);
            match parse_port(tokens[2].as_slice()) {
                Ok(found) => {
                    port = Some(found);
                },
                Err(message) => return Err(message),
            }
        }
        let mut protocol: Option<Protocol> = None;
        if tokens.len() >= 4 {
            assert(arguments[2] == tokens@[3]@);
            match parse_protocol(tokens[3].as_slice()) {
                Ok(found) => {
                    protocol = Some(found);
                },
                Err(message) => return Err(message),
            }
        }
        let ghost before = self@;
        self.remotes.push(
            PendingRemote { host: text::string(tokens[1].as_slice()), port, protocol },
        );
        assert(self@.remotes =~= before.remotes.push(
            DraftRemote { host: tokens@[1]@, port, protocol },
        ));
        Ok(())
    }

    fn data_ciphers(&mut self, tokens: &Vec<Vec<char>>) -> (r: Result<(), String>)
        requires
            tokens@.len() > 0,
        ensures
            match ciphers_read(old(self)@, text::views(tokens@).skip(1)) {
                Ok(next) => r is Ok && final(self)@ == next,
                Err(why) => final(self)@ == old(self)@ && (r matches Err(message) && message@
                    == why),
            },
    {
        let ghost arguments = text::views(tokens@).skip(1);
        if tokens.len() < 2 {
            return Err(CIPHERS_NEED_LIST.to_owned());
        }
        assert(arguments[0] == tokens@[1]@);
        let names = text::split(tokens[1].as_slice(), ':');
        let found = known(&names);
        if found.len() == 0 {
            return Err(
                text::concat3(
                    "none of the ciphers in `data-ciphers ",
                    text::string(tokens[1].as_slice()).as_str(),
                    UNKNOWN_CIPHERS,
                ),
            );
        }
        self.ciphers = Some(found);
        Ok(())
    }

    fn number(tokens: &Vec<Vec<char>>, max: u64) -> (r: Option<u64>)
        requires
            tokens@.len() > 0,
        ensures
            match number_argument(text::views(tokens@).skip(1), max as nat) {
                Some(n) => r matches Some(found) && found == n && found <= max,
                None => r is None,
            },
    {
        let ghost arguments = text::views(tokens@).skip(1);
        if tokens.len() < 2 {
            return None;
        }
        assert(arguments[0] == tokens@[1]@);
        text::parse_number(tokens[1].as_slice(), max)
    }

    /// Reads one directive: its name, then its arguments.
    fn directive(&mut self, tokens: &Vec<Vec<char>>) -> (r: Result<(), String>)
        requires
            tokens@.len() > 0,
        ensures
            match directive_read(
                old(self)@,
                text::views(tokens@)[0],
                text::views(tokens@).skip(1),
            ) {
                Ok(next) => r is Ok && final(self)@ == next,
                Err(why) => final(self)@ == old(self)@ && (r matches Err(message) && message@
                    == why),
            },
    {
        let name = tokens[0].as_slice();
        let bare: bool = tokens.len() < 2;
        let ghost arguments = text::views(tokens@).skip(1);
        proof {
            if !bare {
                assert(arguments[0] == tokens@[1]@);
            }
        }
        if text::spells(name, "remote") {
            self.remote(tokens)
        } else if text::spells(name, "proto") {
            if bare {
                return Err(PROTO_NEEDS_NAME.to_owned());
            }
            match parse_protocol(tokens[1].as_slice()) {
                Ok(protocol) => {
                    self.protocol = Some(protocol);
                    Ok(())
                },
                Err(message) => Err(message),
            }
        } else if text::spells(name, "port") || text::spells(name, "rport") {
            if bare {
                return Err(PORT_NEEDS_NUMBER.to_owned());
            }
            match parse_port(tokens[1].as_slice()) {
                Ok(port) => {
                    self.port = Some(port);
                    Ok(())
                },
                Err(message) => Err(message),
            }
        } else if text::spells(name, "dev") || text::spells(name, "dev-type") {
            if bare || text::starts_with(tokens[1].as_slice(), "tun") {
                Ok(())
            } else {
                Err(
                    text::concat3(
                        "this configuration uses `dev ",
                        text::string(tokens[1].as_slice()).as_str(),
                        NEEDS_TUN,
                    ),
                )
            }
        } else if text::spells(name, "auth") {
            if bare {
                return Err(AUTH_NEEDS_NAME.to_owned());
            }
            match digest_of(tokens[1].as_slice()) {
                Some(digest) => {
                    self.digest = Some(digest);
                    Ok(())
                },
                None => Err(
                    text::concat3(
                        "this configuration asks for the `",
                        text::string(tokens[1].as_slice()).as_str(),
                        UNKNOWN_DIGEST,
                    ),
                ),
            }
        } else if text::spells(name, "cipher") {
            // A server that can negotiate replaces this, so a name we do not
            // know is only a problem if negotiation never happens.
            self.legacy_cipher = if bare {
                None
            } else {
                cipher_of(tokens[1].as_slice())
            };
            Ok(())
        } else if text::spells(name, "data-ciphers") || text::spells(name, "ncp-ciphers") {
            self.data_ciphers(tokens)
        } else if text::spells(name, "auth-user-pass") {
            if !bare {
                return Err(
                    text::concat3(
                        "this configuration reads its username and password from `",
                        text::string(tokens[1].as_slice()).as_str(),
                        CREDENTIALS_IN_FILE,
                    ),
                );
            }
            self.wants_credentials = true;
            Ok(())
        } else if text::spells(name, "reneg-sec") {
            self.reneg_seconds = Self::number(tokens, u64::MAX);
            Ok(())
        } else if text::spells(name, "tun-mtu") {
            self.tun_mtu = match Self::number(tokens, 0xffff) {
                Some(n) => Some(n as u16),
                None => None,
            };
            Ok(())
        } else if text::spells(name, "key-direction") {
            match Self::number(tokens, 0xff) {
                Some(n) => {
                    self.key_direction = Some(n as u8);
                    Ok(())
                },
                None => Err(DIRECTION_NEEDS_NUMBER.to_owned()),
            }
        } else if text::spells(name, "ca") || text::spells(name, "cert") || text::spells(
            name,
            "key",
        ) || text::spells(name, "tls-auth") || text::spells(name, "tls-crypt") || text::spells(
            name,
            "tls-crypt-v2",
        ) || text::spells(name, "pkcs12") {
            let word = text::string(name);
            let mut message = text::concat5(
                "this configuration keeps its `",
                word.as_str(),
                SEPARATE_FILE,
                word.as_str(),
                ">` and `</",
            );
            message.append(word.as_str());
            message.append(">` tags.");
            Err(message)
        } else if text::spells(name, "secret") {
            Err(STATIC_KEY_MODE.to_owned())
        } else if text::spells(name, "comp-lzo") || text::spells(name, "compress") {
            if bare || text::spells(tokens[1].as_slice(), "no") || text::spells(
                tokens[1].as_slice(),
                "stub",
            ) || text::spells(tokens[1].as_slice(), "stub-v2") {
                Ok(())
            } else {
                Err(
                    text::concat5(
                        "this configuration turns on `",
                        text::string(name).as_str(),
                        " ",
                        text::string(tokens[1].as_slice()).as_str(),
                        NO_COMPRESSION,
                    ),
                )
            }
        } else if text::spells(name, "fragment") {
            Err(NO_FRAGMENT.to_owned())
        } else if text::spells(name, "http-proxy") || text::spells(name, "socks-proxy") {
            Err(
                text::concat3(
                    "this configuration reaches its server through `",
                    text::string(name).as_str(),
                    PROXY_INSIDE,
                ),
            )
        } else if text::spells(name, "static-challenge") {
            Err(NO_CHALLENGE.to_owned())
        } else {
            Ok(())
        }
    }
}

/// The certificates, in DER form, that `rustls_pemfile::certs` finds in a PEM
/// text, or what it says is wrong with the text.
pub uninterp spec fn pem_certificates(pem: Seq<u8>) -> Result<Seq<Seq<u8>>, Seq<char>>;

/// Whether `rustls_pemfile::private_key` finds a key in a PEM text, or what it
/// says is wrong with the text.
pub uninterp spec fn pem_private_key(pem: Seq<u8>) -> Result<bool, Seq<char>>;

/// A list of certificates, or a message, by its contents.
pub open spec fn certificates_view(r: Result<Vec<Vec<u8>>, String>) -> Result<
    Seq<Seq<u8>>,
    Seq<char>,
> {
    match r {
        Ok(list) => Ok(byte_views(list@)),
        Err(message) => Err(message@),
    }
}

/// A yes or no, or a message, by its contents.
pub open spec fn presence_view(r: Result<bool, String>) -> Result<bool, Seq<char>> {
    match r {
        Ok(found) => Ok(found),
        Err(message) => Err(message@),
    }
}

/// Calls `rustls_pemfile::certs` and collects what it yields. The outcome, with
/// the text of the error, is a function of the PEM text.
#[verifier::external_body]
fn read_pem_certificates(pem: &[u8]) -> (r: Result<Vec<Vec<u8>>, String>)
    ensures
        certificates_view(r) == pem_certificates(pem@),
{
    let mut reader = std::io::Cursor::new(pem);
    rustls_pemfile::certs(&mut reader)
        .map(|found| found.map(|der| der.to_vec()))
        .collect::<Result<Vec<Vec<u8>>, std::io::Error>>()
        .map_err(|error| error.to_string())
}

/// Calls `rustls_pemfile::private_key`. Whether it finds a key, with the text of
/// its error, is a function of the PEM text.
#[verifier::external_body]
fn read_pem_private_key(pem: &[u8]) -> (r: Result<bool, String>)
    ensures
        presence_view(r) == pem_private_key(pem@),
{
    let mut reader = std::io::Cursor::new(pem);
    rustls_pemfile::private_key(&mut reader)
        .map(|found| found.is_some())
        .map_err(|error| error.to_string())
}

/// What a block of certificates holds, given what the PEM reader made of it.
pub open spec fn certificates_checked(
    found: Result<Seq<Seq<u8>>, Seq<char>>,
    tag: Seq<char>,
) -> Result<Seq<Seq<u8>>, Seq<char>> {
    match found {
        Err(why) => Err("the `<"@ + tag + ">` block is not readable PEM: "@ + why),
        Ok(list) => if list.len() == 0 {
            Err("the `<"@ + tag + ">` block does not contain a certificate"@)
        } else {
            Ok(list)
        },
    }
}

/// Checks what the PEM reader made of a block of certificates.
pub fn check_certificates(found: Result<Vec<Vec<u8>>, String>, tag: &str) -> (r: Result<
    Vec<Vec<u8>>,
    String,
>)
    ensures
        certificates_view(r) == certificates_checked(certificates_view(found), tag@),
{
    match found {
        Err(why) => {
            let mut message = text::concat3("the `<", tag, ">` block is not readable PEM: ");
            message.append(why.as_str());
            Err(message)
        },
        Ok(list) => {
            if list.len() == 0 {
                Err(text::concat3("the `<", tag, ">` block does not contain a certificate"))
            } else {
                Ok(list)
            }
        },
    }
}

/// Whether a `<key>` block can be used, given what the PEM reader made of it.
pub open spec fn private_key_checked(found: Result<bool, Seq<char>>) -> Result<(), Seq<char>> {
    match found {
        Err(why) => Err("the `<key>` block is not readable PEM: "@ + why),
        Ok(found) => if found {
            Ok(())
        } else {
            Err(NO_PRIVATE_KEY@)
        },
    }
}

/// Checks what the PEM reader made of a `<key>` block.
pub fn check_private_key(found: Result<bool, String>) -> (r: Result<(), String>)
    ensures
        match private_key_checked(presence_view(found)) {
            Ok(_) => r is Ok,
            Err(why) => r matches Err(message) && message@ == why,
        },
{
    match found {
        Err(why) => {
            let mut message = "the `<key>` block is not readable PEM: ".to_owned();
            message.append(why.as_str());
            Err(message)
        },
        Ok(found) => {
            if found {
                Ok(())
            } else {
                Err(NO_PRIVATE_KEY.to_owned())
            }
        },
    }
}

/// Whether a trimmed line of a static key file holds key material rather than a
/// header, a footer or a comment.
pub open spec fn is_key_line(line: Seq<char>) -> bool {
    line.len() > 0 && line[0] != '-' && line[0] != '#'
}

/// The key material of a static key file, as one run of characters.
pub open spec fn key_text(lines: Seq<Seq<char>>) -> Seq<char>
    decreases lines.len(),
{
    if lines.len() == 0 {
        Seq::<char>::empty()
    } else {
        let line = text::trimmed(lines.last());
        if is_key_line(line) {
            key_text(lines.drop_last()) + line
        } else {
            key_text(lines.drop_last())
        }
    }
}

pub open spec fn all_hex(s: Seq<char>) -> bool {
    forall|i: int| 0 <= i < s.len() ==> text::is_hex_digit(#[trigger] s[i])
}

/// The bytes that pairs of hex digits spell.
pub open spec fn hex_bytes(s: Seq<char>) -> Seq<u8> {
    Seq::new(
        s.len() / 2,
        |i: int| (text::hex_value(s[2 * i]) * 16 + text::hex_value(s[2 * i + 1])) as u8,
    )
}

/// Reads an `openvpn --genkey` static key: 2048 bits written as hex between a
/// header and a footer.
pub open spec fn static_key_of(body: Seq<char>, tag: Seq<char>) -> Result<Seq<u8>, Seq<char>> {
    let hex = key_text(text::lines_of(body));
    if hex.len() == 512 && all_hex(hex) {
        Ok(hex_bytes(hex))
    } else {
        Err("the `<"@ + tag + NOT_A_STATIC_KEY@)
    }
}

/// Reads an `openvpn --genkey` static key: 2048 bits written as hex between a
/// header and a footer.
pub fn read_static_key(body: &str, tag: &str) -> (r: Result<Box<StaticKey>, String>)
    ensures
        match static_key_of(body@, tag@) {
            Ok(key) => r matches Ok(found) && found.0@ == key,
            Err(why) => r matches Err(message) && message@ == why,
        },
{
    let lines = text::lines(text::chars(body).as_slice());
    let ghost all = text::views(lines@);
    let mut hex: Vec<char> = Vec::new();
    let mut at: usize = 0;
    assert(all.take(0) =~= Seq::<Seq<char>>::empty());
    while at < lines.len()
        invariant
            at <= lines@.len(),
            all == text::views(lines@),
            hex@ == key_text(all.take(at as int)),
        decreases lines@.len() - at,
    {
        assert(all.take(at + 1).drop_last() =~= all.take(at as int));
        let line = text::trim(lines[at].as_slice());
        if line.len() > 0 && line[0] != '-' && line[0] != '#' {
            hex.extend_from_slice(line);
        }
        at = at + 1;
    }
    assert(all.take(at as int) =~= all);
    let mut key: [u8; 256] = [0u8; 256];
    if hex.len() != 512 {
        return Err(text::concat3("the `<", tag, NOT_A_STATIC_KEY));
    }
    let mut k: usize = 0;
    while k < 256
        invariant
            k <= 256,
            hex@.len() == 512,
            hex@ == key_text(text::lines_of(body@)),
            forall|i: int| 0 <= i < 2 * k ==> text::is_hex_digit(#[trigger] hex@[i]),
            forall|i: int| 0 <= i < k ==> #[trigger] key@[i] == hex_bytes(hex@)[i],
        decreases 256 - k,
    {
        let high: u8 = match text::hex_digit(hex[2 * k]) {
            Some(high) => high,
            None => {
                assert(!text::is_hex_digit(hex@[2 * k]));
                return Err(text::concat3("the `<", tag, NOT_A_STATIC_KEY));
            },
        };
        let low: u8 = match text::hex_digit(hex[2 * k + 1]) {
            Some(low) => low,
            None => {
                assert(!text::is_hex_digit(hex@[2 * k + 1]));
                return Err(text::concat3("the `<", tag, NOT_A_STATIC_KEY));
            },
        };
        key[k] = high * 16 + low;
        k = k + 1;
    }
    assert(key@ =~= hex_bytes(hex@));
    Ok(Box::new(StaticKey(key)))
}

/// The draft once the directives of a `<connection>` block have been read. Only
/// those that describe a remote are.
pub open spec fn connection_read(draft: Draft, lines: Seq<Seq<char>>) -> Result<Draft, Seq<char>>
    decreases lines.len(),
{
    if lines.len() == 0 {
        Ok(draft)
    } else {
        let words = words_of(comment_stripped(lines[0]));
        let rest = lines.skip(1);
        if words.len() > 0 && (words[0] == "remote"@ || words[0] == "proto"@ || words[0] == "port"@
            || words[0] == "rport"@) {
            match directive_read(draft, words[0], words.skip(1)) {
                Ok(next) => connection_read(next, rest),
                Err(why) => Err(why),
            }
        } else {
            connection_read(draft, rest)
        }
    }
}

/// The draft once an inline block has been read.
pub open spec fn inline_read(draft: Draft, tag: Seq<char>, body: Seq<char>) -> Result<
    Draft,
    Seq<char>,
> {
    let pem = vstd::utf8::encode_utf8(body);
    if tag == "ca"@ {
        match certificates_checked(pem_certificates(pem), "ca"@) {
            Ok(ca) => Ok(Draft { ca, ..draft }),
            Err(why) => Err(why),
        }
    } else if tag == "cert"@ {
        match certificates_checked(pem_certificates(pem), "cert"@) {
            Ok(client_certs) => Ok(Draft { client_certs, ..draft }),
            Err(why) => Err(why),
        }
    } else if tag == "key"@ {
        match private_key_checked(pem_private_key(pem)) {
            Ok(_) => Ok(Draft { client_key: Some(body), ..draft }),
            Err(why) => Err(why),
        }
    } else if tag == "tls-auth"@ {
        match static_key_of(body, tag) {
            Ok(key) => Ok(Draft { tls_auth: Some(key), ..draft }),
            Err(why) => Err(why),
        }
    } else if tag == "tls-crypt"@ {
        match static_key_of(body, tag) {
            Ok(key) => Ok(Draft { tls_crypt: Some(key), ..draft }),
            Err(why) => Err(why),
        }
    } else if tag == "tls-crypt-v2"@ {
        Err(NO_TLS_CRYPT_V2@)
    } else if tag == "connection"@ {
        connection_read(draft, text::lines_of(body))
    } else {
        Ok(draft)
    }
}

impl Parser {
    fn connection(&mut self, body: &[char]) -> (r: Result<(), String>)
        ensures
            match connection_read(old(self)@, text::lines_of(body@)) {
                Ok(next) => r is Ok && final(self)@ == next,
                Err(why) => r matches Err(message) && message@ == why,
            },
    {
        // A `<connection>` block holds one alternative remote. Only its own
        // directives are read -- running the whole parser over it would both
        // let a block change a global setting from inside and reject the block
        // for lacking the `<ca>` that belongs to the file around it.
        let lines = text::lines(body);
        let ghost all = text::views(lines@);
        let mut at: usize = 0;
        assert(all.skip(0) =~= all);
        while at < lines.len()
            invariant
                at <= lines@.len(),
                all == text::views(lines@),
                all == text::lines_of(body@),
                connection_read(old(self)@, all) == connection_read(self@, all.skip(at as int)),
            decreases lines@.len() - at,
        {
            proof {
                assert(all.skip(at as int)[0] == lines@[at as int]@);
                assert(all.skip(at as int).skip(1) =~= all.skip(at + 1));
            }
            let tokens = tokenize(strip_comment(lines[at].as_slice()));
            if tokens.len() > 0 {
                let name = tokens[0].as_slice();
                if text::spells(name, "remote") || text::spells(name, "proto") || text::spells(
                    name,
                    "port",
                ) || text::spells(name, "rport") {
                    match self.directive(&tokens) {
                        Ok(_) => {},
                        Err(message) => return Err(message),
                    }
                }
            }
            at = at + 1;
        }
        assert(all.skip(at as int) =~= Seq::<Seq<char>>::empty());
        Ok(())
    }

    fn inline(&mut self, tag: &[char], body: &[char]) -> (r: Result<(), String>)
        ensures
            match inline_read(old(self)@, tag@, body@) {
                Ok(next) => r is Ok && final(self)@ == next,
                Err(why) => r matches Err(message) && message@ == why,
            },
    {
        let block = text::string(body);
        let pem = block.as_str().as_bytes();
        if text::spells(tag, "ca") {
            match check_certificates(read_pem_certificates(pem), "ca") {
                Ok(ca) => {
                    self.ca = ca;
                    Ok(())
                },
                Err(message) => Err(message),
            }
        } else if text::spells(tag, "cert") {
            match check_certificates(read_pem_certificates(pem), "cert") {
                Ok(certs) => {
                    self.client_certs = certs;
                    Ok(())
                },
                Err(message) => Err(message),
            }
        } else if text::spells(tag, "key") {
            // The bytes are not unwrapped here: the TLS stack has to be told
            // which of the several private key encodings it is looking at, and
            // the PEM label already says.
            match check_private_key(read_pem_private_key(pem)) {
                Ok(_) => {
                    self.client_key = Some(block);
                    Ok(())
                },
                Err(message) => Err(message),
            }
        } else if text::spells(tag, "tls-auth") {
            match read_static_key(block.as_str(), text::string(tag).as_str()) {
                Ok(key) => {
                    self.tls_auth = Some(key);
                    Ok(())
                },
                Err(message) => Err(message),
            }
        } else if text::spells(tag, "tls-crypt") {
            match read_static_key(block.as_str(), text::string(tag).as_str()) {
                Ok(key) => {
                    self.tls_crypt = Some(key);
                    Ok(())
                },
                Err(message) => Err(message),
            }
        } else if text::spells(tag, "tls-crypt-v2") {
            Err(NO_TLS_CRYPT_V2.to_owned())
        } else if text::spells(tag, "connection") {
            self.connection(body)
        } else {
            Ok(())
        }
    }
}

/// The line that closes a tag.
pub open spec fn closing_line(tag: Seq<char>) -> Seq<char> {
    "</"@ + tag + ">"@
}

/// Where the first line that closes a tag stands, or the number of lines.
pub open spec fn closing_index(lines: Seq<Seq<char>>, closing: Seq<char>) -> nat
    decreases lines.len(),
{
    if lines.len() == 0 || text::trimmed(lines[0]) == closing {
        0
    } else {
        1 + closing_index(lines.skip(1), closing)
    }
}

/// The text of a block: its lines, each ended by a newline.
pub open spec fn block_text(lines: Seq<Seq<char>>) -> Seq<char>
    decreases lines.len(),
{
    if lines.len() == 0 {
        Seq::<char>::empty()
    } else {
        (block_text(lines.drop_last()) + lines.last()).push('\n')
    }
}

proof fn lemma_closing_index(lines: Seq<Seq<char>>, closing: Seq<char>, n: nat)
    requires
        n <= lines.len(),
        forall|i: int| 0 <= i < n ==> text::trimmed(#[trigger] lines[i]) != closing,
        n < lines.len() ==> text::trimmed(lines[n as int]) == closing,
    ensures
        closing_index(lines, closing) == n,
    decreases n,
{
    if n > 0 {
        assert forall|i: int| 0 <= i < n - 1 implies text::trimmed(#[trigger] lines.skip(1)[i])
            != closing by {
            assert(lines.skip(1)[i] == lines[i + 1]);
        }
        assert(text::trimmed(lines[0]) != closing);
        lemma_closing_index(lines.skip(1), closing, (n - 1) as nat);
    }
}

/// Collects the lines of a block up to the one that closes it. Returns the
/// block's text and where that line stands.
fn collect_inline(lines: &Vec<Vec<char>>, start: usize, tag: &[char]) -> (r: Result<
    (Vec<char>, usize),
    String,
>)
    requires
        start <= lines@.len(),
    ensures
        ({
            let rest = text::views(lines@).skip(start as int);
            let n = closing_index(rest, closing_line(tag@));
            match r {
                Ok((body, end)) => n < rest.len() && end == start + n && body@ == block_text(
                    rest.take(n as int),
                ),
                Err(message) => n >= rest.len() && message@ == "the OpenVPN configuration opens `<"@
                    + tag@ + ">` but never closes it"@,
            }
        }),
{
    let name = text::string(tag);
    let closing = text::concat3("</", name.as_str(), ">");
    let ghost rest = text::views(lines@).skip(start as int);
    let mut body: Vec<char> = Vec::new();
    let mut at: usize = start;
    assert(rest.take(0) =~= Seq::<Seq<char>>::empty());
    while at < lines.len()
        invariant
            start <= at <= lines@.len(),
            closing@ == closing_line(tag@),
            name@ == tag@,
            rest == text::views(lines@).skip(start as int),
            forall|i: int|
                0 <= i < at - start ==> text::trimmed(#[trigger] rest[i]) != closing_line(tag@),
            body@ == block_text(rest.take(at - start)),
        decreases lines@.len() - at,
    {
        let ghost n = at - start;
        assert(rest[n] == lines@[at as int]@);
        if text::spells(text::trim(lines[at].as_slice()), closing.as_str()) {
            proof {
                lemma_closing_index(rest, closing_line(tag@), n as nat);
            }
            return Ok((body, at));
        }
        assert(rest.take(n + 1).drop_last() =~= rest.take(n));
        body.extend_from_slice(lines[at].as_slice());
        body.push('\n');
        at = at + 1;
    }
    proof {
        lemma_closing_index(rest, closing_line(tag@), rest.len());
    }
    Err(
        text::concat3(
            "the OpenVPN configuration opens `<",
            name.as_str(),
            ">` but never closes it",
        ),
    )
}

/// The draft once all the lines of a file have been read.
pub open spec fn lines_read(draft: Draft, lines: Seq<Seq<char>>) -> Result<Draft, Seq<char>>
    decreases lines.len(),
{
    if lines.len() == 0 {
        Ok(draft)
    } else {
        let line = comment_stripped(lines[0]);
        let rest = lines.skip(1);
        match opened_tag(line) {
            Some(tag) => {
                let n = closing_index(rest, closing_line(tag)) as int;
                if n >= rest.len() {
                    Err("the OpenVPN configuration opens `<"@ + tag + ">` but never closes it"@)
                } else {
                    match inline_read(draft, tag, block_text(rest.take(n))) {
                        Ok(next) => lines_read(next, rest.skip(n + 1)),
                        Err(why) => Err(why),
                    }
                }
            },
            None => {
                let words = words_of(line);
                if words.len() == 0 {
                    lines_read(draft, rest)
                } else {
                    match directive_read(draft, words[0], words.skip(1)) {
                        Ok(next) => lines_read(next, rest),
                        Err(why) => Err(why),
                    }
                }
            },
        }
    }
}

/// A file of which nothing has been read.
pub open spec fn blank_draft() -> Draft {
    Draft {
        remotes: Seq::<DraftRemote>::empty(),
        protocol: None,
        port: None,
        ca: Seq::<Seq<u8>>::empty(),
        client_certs: Seq::<Seq<u8>>::empty(),
        client_key: None,
        tls_auth: None,
        key_direction: None,
        tls_crypt: None,
        ciphers: None,
        legacy_cipher: None,
        digest: None,
        wants_credentials: false,
        reneg_seconds: None,
        tun_mtu: None,
    }
}

impl Parser {
    fn blank() -> (parser: Self)
        ensures
            parser@ == blank_draft(),
    {
        let parser = Parser {
            remotes: Vec::new(),
            protocol: None,
            port: None,
            ca: Vec::new(),
            client_certs: Vec::new(),
            client_key: None,
            tls_auth: None,
            key_direction: None,
            tls_crypt: None,
            ciphers: None,
            legacy_cipher: None,
            digest: None,
            wants_credentials: false,
            reneg_seconds: None,
            tun_mtu: None,
        };
        assert(parser@ =~= blank_draft());
        parser
    }

    fn read(&mut self, source: &[char]) -> (r: Result<(), String>)
        ensures
            match lines_read(old(self)@, text::lines_of(source@)) {
                Ok(next) => r is Ok && final(self)@ == next,
                Err(why) => r matches Err(message) && message@ == why,
            },
    {
        let lines = text::lines(source);
        let ghost all = text::views(lines@);
        let mut at: usize = 0;
        assert(all.skip(0) =~= all);
        while at < lines.len()
            invariant
                at <= lines@.len(),
                all == text::views(lines@),
                all == text::lines_of(source@),
                lines_read(old(self)@, all) == lines_read(self@, all.skip(at as int)),
            decreases lines@.len() - at,
        {
            proof {
                assert(all.skip(at as int)[0] == lines@[at as int]@);
                assert(all.skip(at as int).skip(1) =~= all.skip(at + 1));
            }
            let line = strip_comment(lines[at].as_slice());
            match inline_open_tag(line) {
                Some(tag) => match collect_inline(&lines, at + 1, tag) {
                    Ok((body, end)) => {
                        proof {
                            let rest = all.skip(at + 1);
                            assert(rest.skip(end - at) =~= all.skip(end + 1));
                        }
                        match self.inline(tag, body.as_slice()) {
                            Ok(_) => {},
                            Err(message) => return Err(message),
                        }
                        at = end + 1;
                    },
                    Err(message) => return Err(message),
                },
                None => {
                    let tokens = tokenize(line);
                    if tokens.len() > 0 {
                        match self.directive(&tokens) {
                            Ok(_) => {},
                            Err(message) => return Err(message),
                        }
                    }
                    at = at + 1;
                },
            }
        }
        assert(all.skip(at as int) =~= Seq::<Seq<char>>::empty());
        Ok(())
    }
}

/// One `remote`, resolved.
pub struct RemoteModel {
    pub host: Seq<char>,
    pub port: u16,
    pub protocol: Protocol,
}

/// How control packets are protected.
pub enum AuthModel {
    Plain,
    TlsAuth { key: Seq<u8>, direction: KeyDirection, digest: Digest },
    TlsCrypt { key: Seq<u8> },
}

/// Everything the client needs from a provider's file.
#[verifier::ext_equal]
pub struct ConfigModel {
    pub remotes: Seq<RemoteModel>,
    pub ca: Seq<Seq<u8>>,
    pub client_certs: Seq<Seq<u8>>,
    pub client_key: Option<Seq<char>>,
    pub control_auth: AuthModel,
    pub data_ciphers: Seq<DataCipher>,
    pub digest: Digest,
    pub wants_credentials: bool,
    pub reneg_seconds: Option<u64>,
    pub tun_mtu: u16,
}

/// What is wrong with a draft as a whole, if anything.
pub open spec fn draft_fault(draft: Draft) -> Option<Seq<char>> {
    if draft.remotes.len() == 0 {
        Some(NO_REMOTE@)
    } else if draft.ca.len() == 0 {
        Some(NO_CA@)
    } else if (draft.client_certs.len() == 0) != (draft.client_key is None) {
        Some(HALF_A_CERTIFICATE@)
    } else if !draft.wants_credentials && draft.client_key is None {
        Some(NO_AUTHENTICATION@)
    } else if draft.tls_crypt is None && draft.tls_auth is Some && (draft.key_direction matches Some(
        n,
    ) && n > 1) {
        Some("`key-direction "@ + text::decimal(draft.key_direction->0 as nat) + BAD_DIRECTION@)
    } else {
        None
    }
}

/// The protection that a draft asks for. A file carrying both keys is
/// contradictory; `tls-crypt` is the stronger of the two and wins.
pub open spec fn draft_auth(draft: Draft, digest: Digest) -> AuthModel {
    match (draft.tls_crypt, draft.tls_auth) {
        (Some(key), _) => AuthModel::TlsCrypt { key },
        (None, Some(key)) => AuthModel::TlsAuth {
            key,
            direction: match draft.key_direction {
                Some(n) => if n == 0 {
                    KeyDirection::Normal
                } else {
                    KeyDirection::Inverse
                },
                None => KeyDirection::Bidirectional,
            },
            digest,
        },
        (None, None) => AuthModel::Plain,
    }
}

/// The ciphers to offer, most preferred first. `--data-ciphers` is the
/// negotiated list. When a file carries only the older `--cipher`, that one is
/// offered first and the rest are still advertised so a current server can
/// choose better.
pub open spec fn offered_ciphers(draft: Draft) -> Seq<DataCipher> {
    match (draft.ciphers, draft.legacy_cipher) {
        (Some(list), _) => list,
        (None, None) => seq![
            DataCipher::Aes256Gcm,
            DataCipher::Aes128Gcm,
            DataCipher::ChaCha20Poly1305,
        ],
        (None, Some(DataCipher::Aes256Gcm)) => seq![
            DataCipher::Aes256Gcm,
            DataCipher::Aes128Gcm,
            DataCipher::ChaCha20Poly1305,
        ],
        (None, Some(DataCipher::Aes128Gcm)) => seq![
            DataCipher::Aes128Gcm,
            DataCipher::Aes256Gcm,
            DataCipher::ChaCha20Poly1305,
        ],
        (None, Some(DataCipher::ChaCha20Poly1305)) => seq![
            DataCipher::ChaCha20Poly1305,
            DataCipher::Aes256Gcm,
            DataCipher::Aes128Gcm,
        ],
    }
}

/// A remote with the rest of the file applied to it. An explicit protocol on
/// the `remote` line wins over `--proto`; `--port` wins over the line's own.
pub open spec fn resolved_remote(draft: Draft, remote: DraftRemote) -> RemoteModel {
    RemoteModel {
        host: remote.host,
        port: match (draft.port, remote.port) {
            (Some(port), _) => port,
            (None, Some(port)) => port,
            (None, None) => 1194,
        },
        protocol: match (remote.protocol, draft.protocol) {
            (Some(protocol), _) => protocol,
            (None, Some(protocol)) => protocol,
            (None, None) => Protocol::Udp,
        },
    }
}

/// The configuration that a whole draft makes.
pub open spec fn finished(draft: Draft) -> Result<ConfigModel, Seq<char>> {
    match draft_fault(draft) {
        Some(why) => Err(why),
        None => {
            let digest = match draft.digest {
                Some(digest) => digest,
                None => Digest::Sha1,
            };
            Ok(
                ConfigModel {
                    remotes: Seq::new(
                        draft.remotes.len(),
                        |i: int| resolved_remote(draft, draft.remotes[i]),
                    ),
                    ca: draft.ca,
                    client_certs: draft.client_certs,
                    client_key: draft.client_key,
                    control_auth: draft_auth(draft, digest),
                    data_ciphers: offered_ciphers(draft),
                    digest,
                    wants_credentials: draft.wants_credentials,
                    reneg_seconds: draft.reneg_seconds,
                    tun_mtu: match draft.tun_mtu {
                        Some(mtu) => mtu,
                        None => 1500,
                    },
                },
            )
        },
    }
}

/// The configuration that a provider's file describes, or what is wrong with
/// the file.
pub open spec fn parsed_config(source: Seq<char>) -> Result<ConfigModel, Seq<char>> {
    match lines_read(blank_draft(), text::lines_of(source)) {
        Ok(draft) => finished(draft),
        Err(why) => Err(why),
    }
}

/// One `remote` line: where to dial and how.
#[derive(Debug, Clone, PartialEq, Eq)]
pub struct Remote {
    pub host: String,
    pub port: u16,
    pub protocol: Protocol,
}

impl Remote {
    pub open spec fn model(&self) -> RemoteModel {
        RemoteModel { host: self.host@, port: self.port, protocol: self.protocol }
    }

    pub open spec fn endpoint_text(&self) -> Seq<char> {
        self.host@ + ":"@ + text::decimal(self.port as nat)
    }

    pub fn endpoint(&self) -> (r: String)
        ensures
            r@ == self.endpoint_text(),
    {
        text::concat3(
            self.host.as_str(),
            ":",
            text::decimal_text(self.port as u64).as_str(),
        )
    }
}

impl ControlAuth {
    pub open spec fn model(&self) -> AuthModel {
        match self {
            ControlAuth::Plain => AuthModel::Plain,
            ControlAuth::TlsAuth { key, direction, digest } => AuthModel::TlsAuth {
                key: key.0@,
                direction: *direction,
                digest: *digest,
            },
            ControlAuth::TlsCrypt { key } => AuthModel::TlsCrypt { key: key.0@ },
        }
    }
}

/// Everything the client needs from a provider's file.
#[derive(Clone)]
pub struct OpenVpnConfig {
    /// Every `remote` in the file, in the order they were written, with the
    /// protocol each one resolves to.
    pub remotes: Vec<Remote>,
    /// The CA certificates the server's chain has to end at, in DER form.
    pub ca: Vec<Vec<u8>>,
    /// A client certificate chain, when the provider authenticates by
    /// certificate rather than by password.
    pub client_certs: Vec<Vec<u8>>,
    /// The client key exactly as the file carried it. It is kept as PEM so the
    /// TLS stack can decide how to read it, rather than being flattened to
    /// bytes here and having to be told its own format again later.
    pub client_key: Option<String>,
    pub control_auth: ControlAuth,
    /// The ciphers to offer, most preferred first.
    pub data_ciphers: Vec<DataCipher>,
    /// `--auth`, which sizes the `--tls-auth` HMAC.
    pub digest: Digest,
    /// True when the server expects a username and password.
    pub wants_credentials: bool,
    pub reneg_seconds: Option<u64>,
    pub tun_mtu: u16,
}

/// The models of a list of remotes.
pub open spec fn remote_models(list: Seq<Remote>) -> Seq<RemoteModel> {
    Seq::new(list.len(), |i: int| list[i].model())
}

impl View for OpenVpnConfig {
    type V = ConfigModel;

    open spec fn view(&self) -> ConfigModel {
        ConfigModel {
            remotes: remote_models(self.remotes@),
            ca: byte_views(self.ca@),
            client_certs: byte_views(self.client_certs@),
            client_key: match self.client_key {
                Some(key) => Some(key@),
                None => None,
            },
            control_auth: self.control_auth.model(),
            data_ciphers: self.data_ciphers@,
            digest: self.digest,
            wants_credentials: self.wants_credentials,
            reneg_seconds: self.reneg_seconds,
            tun_mtu: self.tun_mtu,
        }
    }
}

impl Parser {
    fn fault(&self) -> (r: Option<String>)
        ensures
            match draft_fault(self@) {
                Some(why) => r matches Some(message) && message@ == why,
                None => r is None,
            },
    {
        if self.remotes.len() == 0 {
            return Some(NO_REMOTE.to_owned());
        }
        if self.ca.len() == 0 {
            return Some(NO_CA.to_owned());
        }
        if (self.client_certs.len() == 0) != self.client_key.is_none() {
            return Some(HALF_A_CERTIFICATE.to_owned());
        }
        if !self.wants_credentials && self.client_key.is_none() {
            return Some(NO_AUTHENTICATION.to_owned());
        }
        if self.tls_crypt.is_none() && self.tls_auth.is_some() {
            if let Some(n) = self.key_direction {
                if n > 1 {
                    return Some(
                        text::concat3(
                            "`key-direction ",
                            text::decimal_text(n as u64).as_str(),
                            BAD_DIRECTION,
                        ),
                    );
                }
            }
        }
        None
    }

    fn offered(ciphers: Option<Vec<DataCipher>>, legacy: Option<DataCipher>) -> (r: Vec<DataCipher>)
        ensures
            forall|draft: Draft|
                draft.legacy_cipher == legacy && draft.ciphers == (match ciphers {
                    Some(list) => Some(list@),
                    None => None,
                }) ==> r@ == #[trigger] offered_ciphers(draft),
    {
        if let Some(list) = ciphers {
            return list;
        }
        let r: Vec<DataCipher> = match legacy {
            Some(DataCipher::Aes128Gcm) => vec![
                DataCipher::Aes128Gcm,
                DataCipher::Aes256Gcm,
                DataCipher::ChaCha20Poly1305,
            ],
            Some(DataCipher::ChaCha20Poly1305) => vec![
                DataCipher::ChaCha20Poly1305,
                DataCipher::Aes256Gcm,
                DataCipher::Aes128Gcm,
            ],
            _ => vec![
                DataCipher::Aes256Gcm,
                DataCipher::Aes128Gcm,
                DataCipher::ChaCha20Poly1305,
            ],
        };
        assert forall|draft: Draft|
            draft.legacy_cipher == legacy && draft.ciphers is None implies r@
            == #[trigger] offered_ciphers(draft) by {
            assert(r@ =~= offered_ciphers(draft));
        }
        r
    }

    fn finish(self) -> (r: Result<OpenVpnConfig, String>)
        ensures
            match finished(self@) {
                Ok(model) => r matches Ok(config) && config@ == model,
                Err(why) => r matches Err(message) && message@ == why,
            },
    {
        if let Some(message) = self.fault() {
            return Err(message);
        }
        let ghost draft = self@;
        let digest = match self.digest {
            Some(digest) => digest,
            None => Digest::Sha1,
        };
        let control_auth = match (self.tls_crypt, self.tls_auth) {
            // A file carrying both is contradictory; `tls-crypt` is the
            // stronger of the two.
            (Some(key), _) => ControlAuth::TlsCrypt { key },
            (None, Some(key)) => ControlAuth::TlsAuth {
                key,
                direction: match self.key_direction {
                    Some(n) => if n == 0 {
                        KeyDirection::Normal
                    } else {
                        KeyDirection::Inverse
                    },
                    None => KeyDirection::Bidirectional,
                },
                digest,
            },
            (None, None) => ControlAuth::Plain,
        };
        let data_ciphers = Self::offered(self.ciphers, self.legacy_cipher);
        let mut remotes: Vec<Remote> = Vec::new();
        let mut at: usize = 0;
        let pending = self.remotes;
        let port = self.port;
        let protocol = self.protocol;
        while at < pending.len()
            invariant
                at <= pending@.len(),
                draft.remotes == draft_remotes(pending@),
                draft.port == port,
                draft.protocol == protocol,
                remotes@.len() == at,
                forall|i: int|
                    0 <= i < at ==> (#[trigger] remotes@[i]).model() == resolved_remote(
                        draft,
                        draft.remotes[i],
                    ),
            decreases pending@.len() - at,
        {
            let remote = &pending[at];
            let resolved = Remote {
                host: remote.host.clone(),
                port: match (port, remote.port) {
                    (Some(port), _) => port,
                    (None, Some(port)) => port,
                    (None, None) => 1194,
                },
                protocol: match (remote.protocol, protocol) {
                    (Some(protocol), _) => protocol,
                    (None, Some(protocol)) => protocol,
                    (None, None) => Protocol::Udp,
                },
            };
            remotes.push(resolved);
            at = at + 1;
        }
        let config = OpenVpnConfig {
            remotes,
            ca: self.ca,
            client_certs: self.client_certs,
            client_key: self.client_key,
            control_auth,
            data_ciphers,
            digest,
            wants_credentials: self.wants_credentials,
            reneg_seconds: self.reneg_seconds,
            tun_mtu: match self.tun_mtu {
                Some(mtu) => mtu,
                None => 1500,
            },
        };
        proof {
            let model = finished(draft)->Ok_0;
            assert(config@.remotes =~= model.remotes);
            assert(config@ =~= model);
        }
        Ok(config)
    }
}

/// Cipher names, parted by colons.
pub open spec fn cipher_list(ciphers: Seq<DataCipher>) -> Seq<char>
    decreases ciphers.len(),
{
    if ciphers.len() == 0 {
        Seq::<char>::empty()
    } else if ciphers.len() == 1 {
        ciphers[0].name()
    } else {
        cipher_list(ciphers.drop_last()) + ":"@ + ciphers.last().name()
    }
}

impl OpenVpnConfig {
    /// Reads a provider's file.
    pub fn parse(source: &str) -> (r: Result<Self, String>)
        ensures
            match parsed_config(source@) {
                Ok(model) => r matches Ok(config) && config@ == model,
                Err(why) => r matches Err(message) && message@ == why,
            },
    {
        let mut parser = Parser::blank();
        match parser.read(text::chars(source).as_slice()) {
            Ok(_) => parser.finish(),
            Err(message) => Err(message),
        }
    }

    /// The cipher offered first.
    pub open spec fn first(&self) -> DataCipher {
        if self.data_ciphers@.len() > 0 {
            self.data_ciphers@[0]
        } else {
            DataCipher::Aes256Gcm
        }
    }

    pub fn first_cipher(&self) -> (r: DataCipher)
        ensures
            r == self.first(),
    {
        if self.data_ciphers.len() > 0 {
            self.data_ciphers[0]
        } else {
            DataCipher::Aes256Gcm
        }
    }

    pub open spec fn options_text(&self, protocol: Protocol) -> Seq<char> {
        "V4,dev-type tun,link-mtu 1549,tun-mtu "@ + text::decimal(self.tun_mtu as nat) + ",proto "@
            + protocol.options_word() + ",cipher "@ + self.first().name() + ",auth "@
            + self.digest.name() + ",keysize "@ + text::decimal(
            (self.first().key_size() * 8) as nat,
        ) + ",key-method 2,tls-client"@
    }

    /// The options string the two ends exchange after the TLS handshake. It has
    /// to describe the same session the server thinks it is building, or a
    /// server running `--opt-verify` hangs up.
    pub fn options_string(&self, protocol: Protocol) -> (r: String)
        ensures
            r@ == self.options_text(protocol),
    {
        let cipher = self.first_cipher();
        let mut options = "V4,dev-type tun,link-mtu 1549,tun-mtu ".to_owned();
        options.append(text::decimal_text(self.tun_mtu as u64).as_str());
        options.append(",proto ");
        options.append(protocol.options_name());
        options.append(",cipher ");
        options.append(cipher.as_str());
        options.append(",auth ");
        options.append(self.digest.as_str());
        options.append(",keysize ");
        options.append(text::decimal_text((cipher.key_len() * 8) as u64).as_str());
        options.append(",key-method 2,tls-client");
        options
    }

    fn cipher_names(&self) -> (r: String)
        ensures
            r@ == cipher_list(self.data_ciphers@),
    {
        let mut names = String::new();
        let mut at: usize = 0;
        let ghost all = self.data_ciphers@;
        assert(all.take(0) =~= Seq::<DataCipher>::empty());
        while at < self.data_ciphers.len()
            invariant
                at <= all.len(),
                all == self.data_ciphers@,
                names@ == cipher_list(all.take(at as int)),
            decreases all.len() - at,
        {
            assert(all.take(at + 1).drop_last() =~= all.take(at as int));
            if at > 0 {
                names.append(":");
                names.append(self.data_ciphers[at].as_str());
            } else {
                names = self.data_ciphers[at].as_str().to_owned();
            }
            at = at + 1;
        }
        assert(all.take(at as int) =~= all);
        names
    }

    pub open spec fn peer_info_text(&self, remote: &Remote) -> Seq<char> {
        "IV_VER=2.6.0\nIV_PLAT=win\nIV_TCPNL=1\nIV_MTU="@ + text::decimal(self.tun_mtu as nat)
            + "\nIV_NCP=2\nIV_CIPHERS="@ + cipher_list(self.data_ciphers@)
            + "\nIV_PROTO=22\nIV_LZO_STUB=1\nIV_COMP_STUB=1\nIV_COMP_STUBv2=1\nUV_ENDPOINT="@
            + remote.endpoint_text() + "\n"@
    }

    /// The `IV_` block that tells a modern server what this client supports.
    ///
    /// `IV_PROTO` asks for `P_DATA_V2` and its peer id (2), asks the server to
    /// push without being asked (4), and says that a deferred authentication
    /// reply is understood (16). The flag for keys derived from the TLS exporter
    /// is deliberately absent: this client implements OpenVPN's own PRF, which
    /// every server supports. `IV_CIPHERS` drives cipher negotiation so a
    /// current server can choose something better than the single `cipher` line
    /// an older file carries.
    pub fn peer_info(&self, remote: &Remote) -> (r: String)
        ensures
            r@ == self.peer_info_text(remote),
    {
        let mut info = "IV_VER=2.6.0\nIV_PLAT=win\nIV_TCPNL=1\nIV_MTU=".to_owned();
        info.append(text::decimal_text(self.tun_mtu as u64).as_str());
        info.append("\nIV_NCP=2\nIV_CIPHERS=");
        info.append(self.cipher_names().as_str());
        info.append(
            "\nIV_PROTO=22\nIV_LZO_STUB=1\nIV_COMP_STUB=1\nIV_COMP_STUBv2=1\nUV_ENDPOINT=",
        );
        info.append(remote.endpoint().as_str());
        info.append("\n");
        info
    }
}

/// What every draft keeps: ports are never zero, and a list of ciphers is never
/// empty.
spec fn draft_sound(draft: Draft) -> bool {
    &&& draft.ciphers matches Some(list) ==> list.len() > 0
    &&& draft.port != Some(0u16)
    &&& forall|i: int| 0 <= i < draft.remotes.len() ==> (#[trigger] draft.remotes[i]).port != Some(
        0u16,
    )
}

proof fn lemma_directive_sound(draft: Draft, directive: Seq<char>, arguments: Seq<Seq<char>>)
    requires
        draft_sound(draft),
    ensures
        directive_read(draft, directive, arguments) matches Ok(next) ==> draft_sound(next),
{
    if let Ok(next) = directive_read(draft, directive, arguments) {
        assert forall|i: int| 0 <= i < next.remotes.len() implies (#[trigger] next.remotes[i]).port
            != Some(0u16) by {
            if i < draft.remotes.len() {
                assert(next.remotes[i] == draft.remotes[i]);
            }
        }
    }
}

proof fn lemma_connection_sound(draft: Draft, lines: Seq<Seq<char>>)
    requires
        draft_sound(draft),
    ensures
        connection_read(draft, lines) matches Ok(next) ==> draft_sound(next),
    decreases lines.len(),
{
    if lines.len() > 0 {
        let words = words_of(comment_stripped(lines[0]));
        if words.len() > 0 {
            lemma_directive_sound(draft, words[0], words.skip(1));
            if let Ok(next) = directive_read(draft, words[0], words.skip(1)) {
                lemma_connection_sound(next, lines.skip(1));
            }
        }
        lemma_connection_sound(draft, lines.skip(1));
    }
}

proof fn lemma_lines_sound(draft: Draft, lines: Seq<Seq<char>>)
    requires
        draft_sound(draft),
    ensures
        lines_read(draft, lines) matches Ok(next) ==> draft_sound(next),
    decreases lines.len(),
{
    if lines.len() > 0 {
        let line = comment_stripped(lines[0]);
        let rest = lines.skip(1);
        match opened_tag(line) {
            Some(tag) => {
                let n = closing_index(rest, closing_line(tag)) as int;
                if n < rest.len() {
                    let body = block_text(rest.take(n));
                    lemma_connection_sound(draft, text::lines_of(body));
                    if let Ok(next) = inline_read(draft, tag, body) {
                        lemma_lines_sound(next, rest.skip(n + 1));
                    }
                }
            },
            None => {
                let words = words_of(line);
                if words.len() == 0 {
                    lemma_lines_sound(draft, rest);
                } else {
                    lemma_directive_sound(draft, words[0], words.skip(1));
                    if let Ok(next) = directive_read(draft, words[0], words.skip(1)) {
                        lemma_lines_sound(next, rest);
                    }
                }
            },
        }
    }
}

/// A file that is accepted has everything a connection needs: a server with a
/// usable port, a certificate authority to check it against, a cipher to offer,
/// and a way to authenticate, with a certificate and its key together or not at
/// all.
pub proof fn an_accepted_file_can_be_connected_with(source: Seq<char>)
    ensures
        parsed_config(source) matches Ok(config) ==> {
            &&& config.remotes.len() > 0
            &&& forall|i: int| 0 <= i < config.remotes.len() ==> (#[trigger] config.remotes[i]).port
                != 0
            &&& config.ca.len() > 0
            &&& config.data_ciphers.len() > 0
            &&& config.wants_credentials || config.client_key is Some
            &&& config.client_certs.len() > 0 <==> config.client_key is Some
        },
{
    let lines = text::lines_of(source);
    lemma_lines_sound(blank_draft(), lines);
    if let Ok(draft) = lines_read(blank_draft(), lines) {
        if let Ok(config) = finished(draft) {
            assert forall|i: int| 0 <= i < config.remotes.len() implies (
            #[trigger] config.remotes[i]).port != 0 by {
                assert(draft.remotes[i].port != Some(0u16));
            }
        }
    }
}

/// A yes or a no.
pub open spec fn yes_no(b: bool) -> Seq<char> {
    if b {
        "true"@
    } else {
        "false"@
    }
}

fn yes_no_word(b: bool) -> (r: &'static str)
    ensures
        r@ == yes_no(b),
{
    if b {
        "true"
    } else {
        "false"
    }
}

/// Where a server is dialled, given what its name resolved to: at the first IPv4
/// address.
pub fn resolve(remote: &Remote, found: Result<Vec<IpAddress>, String>) -> (r: Result<
    Endpoint,
    String,
>)
    ensures
        match found {
            Err(error) => r matches Err(message) && message@ == "could not resolve OpenVPN server "@
                + remote.host@ + ": "@ + error@,
            Ok(addresses) => match netutil::first_ipv4(addresses@) {
                Some(address) => r == Ok::<Endpoint, String>(
                    (Endpoint { address, port: remote.port }),
                ),
                None => r matches Err(message) && message@ == "OpenVPN server "@ + remote.host@
                    + " did not resolve to an IPv4 address"@,
            },
        },
{
    match found {
        Err(error) => {
            let mut message = text::concat3(
                "could not resolve OpenVPN server ",
                remote.host.as_str(),
                ": ",
            );
            message.append(error.as_str());
            Err(message)
        },
        Ok(addresses) => match netutil::find_ipv4(&addresses) {
            Some(address) => Ok(Endpoint { address, port: remote.port }),
            None => Err(
                text::concat3(
                    "OpenVPN server ",
                    remote.host.as_str(),
                    " did not resolve to an IPv4 address",
                ),
            ),
        },
    }
}

impl Protocol {
    /// The transport by the name it has in a log.
    pub open spec fn variant(self) -> Seq<char> {
        match self {
            Protocol::Udp => "Udp"@,
            Protocol::Tcp => "Tcp"@,
        }
    }

    fn variant_name(self) -> (r: &'static str)
        ensures
            r@ == self.variant(),
    {
        match self {
            Protocol::Udp => "Udp",
            Protocol::Tcp => "Tcp",
        }
    }
}

impl Digest {
    /// The digest by the name it has in a log.
    pub open spec fn variant(self) -> Seq<char> {
        match self {
            Digest::Sha1 => "Sha1"@,
            Digest::Sha256 => "Sha256"@,
            Digest::Sha512 => "Sha512"@,
        }
    }

    fn variant_name(self) -> (r: &'static str)
        ensures
            r@ == self.variant(),
    {
        match self {
            Digest::Sha1 => "Sha1",
            Digest::Sha256 => "Sha256",
            Digest::Sha512 => "Sha512",
        }
    }
}

impl DataCipher {
    /// The cipher by the name it has in a log.
    pub open spec fn variant(self) -> Seq<char> {
        match self {
            DataCipher::Aes256Gcm => "Aes256Gcm"@,
            DataCipher::Aes128Gcm => "Aes128Gcm"@,
            DataCipher::ChaCha20Poly1305 => "ChaCha20Poly1305"@,
        }
    }

    fn variant_name(self) -> (r: &'static str)
        ensures
            r@ == self.variant(),
    {
        match self {
            DataCipher::Aes256Gcm => "Aes256Gcm",
            DataCipher::Aes128Gcm => "Aes128Gcm",
            DataCipher::ChaCha20Poly1305 => "ChaCha20Poly1305",
        }
    }
}

impl Remote {
    /// The server as a log has it.
    pub open spec fn description(&self) -> Seq<char> {
        "Remote { host: "@ + text::shown(self.host@) + ", port: "@ + text::decimal(
            self.port as nat,
        ) + ", protocol: "@ + self.protocol.variant() + " }"@
    }

    fn describe(&self) -> (r: String)
        ensures
            r@ == self.description(),
    {
        let mut r = text::concat2("Remote { host: ", text::quoted(self.host.as_str()).as_str());
        r.append(", port: ");
        r.append(text::decimal_text(self.port as u64).as_str());
        r.append(", protocol: ");
        r.append(self.protocol.variant_name());
        r.append(" }");
        r
    }
}

/// The servers of a configuration, as a log has them.
pub open spec fn remote_texts(remotes: Seq<Remote>) -> Seq<Seq<char>> {
    Seq::new(remotes.len(), |i: int| remotes[i].description())
}

/// The ciphers of a configuration, as a log has them.
pub open spec fn cipher_texts(ciphers: Seq<DataCipher>) -> Seq<Seq<char>> {
    Seq::new(ciphers.len(), |i: int| ciphers[i].variant())
}

impl OpenVpnConfig {
    pub open spec fn description(&self) -> Seq<char> {
        "OpenVpnConfig { remotes: ["@ + text::separated(remote_texts(self.remotes@), ", "@)
            + "], certificate_authorities: "@ + text::decimal(self.ca@.len())
            + ", client_certificate: "@ + yes_no(self.client_certs@.len() > 0) + ", client_key: "@
            + (match self.client_key {
            Some(_) => "Some(\"<redacted>\")"@,
            None => "None"@,
        }) + ", control_auth: "@ + self.control_auth.name() + ", data_ciphers: ["@
            + text::separated(cipher_texts(self.data_ciphers@), ", "@) + "], digest: "@
            + self.digest.variant() + ", wants_credentials: "@ + yes_no(self.wants_credentials)
            + ", reneg_seconds: "@ + (match self.reneg_seconds {
            Some(seconds) => "Some("@ + text::decimal(seconds as nat) + ")"@,
            None => "None"@,
        }) + ", tun_mtu: "@ + text::decimal(self.tun_mtu as nat) + " }"@
    }

    fn describe_ciphers(&self) -> (r: String)
        ensures
            r@ == text::separated(cipher_texts(self.data_ciphers@), ", "@),
    {
        let mut names: Vec<String> = Vec::new();
        let mut at: usize = 0;
        while at < self.data_ciphers.len()
            invariant
                at <= self.data_ciphers@.len(),
                names@.len() == at,
                forall|i: int|
                    0 <= i < at ==> (#[trigger] names@[i])@ == cipher_texts(self.data_ciphers@)[i],
            decreases self.data_ciphers@.len() - at,
        {
            names.push(self.data_ciphers[at].variant_name().to_owned());
            at = at + 1;
        }
        assert(text::string_views(names@) =~= cipher_texts(self.data_ciphers@));
        text::join(&names, ", ")
    }

    fn describe_remotes(&self) -> (r: String)
        ensures
            r@ == text::separated(remote_texts(self.remotes@), ", "@),
    {
        let mut servers: Vec<String> = Vec::new();
        let mut at: usize = 0;
        while at < self.remotes.len()
            invariant
                at <= self.remotes@.len(),
                servers@.len() == at,
                forall|i: int|
                    0 <= i < at ==> (#[trigger] servers@[i])@ == remote_texts(self.remotes@)[i],
            decreases self.remotes@.len() - at,
        {
            servers.push(self.remotes[at].describe());
            at = at + 1;
        }
        assert(text::string_views(servers@) =~= remote_texts(self.remotes@));
        text::join(&servers, ", ")
    }

    /// A line for a log. It holds no certificate, no private key and no static
    /// key.
    pub fn describe(&self) -> (r: String)
        ensures
            r@ == self.description(),
    {
        let mut r = text::concat3(
            "OpenVpnConfig { remotes: [",
            self.describe_remotes().as_str(),
            "], certificate_authorities: ",
        );
        r.append(text::decimal_text(self.ca.len() as u64).as_str());
        r.append(", client_certificate: ");
        r.append(yes_no_word(self.client_certs.len() > 0));
        r.append(", client_key: ");
        match &self.client_key {
            Some(_) => r.append("Some(\"<redacted>\")"),
            None => r.append("None"),
        }
        r.append(", control_auth: ");
        r.append(self.control_auth.as_str());
        r.append(", data_ciphers: [");
        r.append(self.describe_ciphers().as_str());
        r.append("], digest: ");
        r.append(self.digest.variant_name());
        r.append(", wants_credentials: ");
        r.append(yes_no_word(self.wants_credentials));
        r.append(", reneg_seconds: ");
        match self.reneg_seconds {
            Some(seconds) => {
                let number = text::decimal_text(seconds);
                let some = text::concat3("Some(", number.as_str(), ")");
                r.append(some.as_str());
            },
            None => r.append("None"),
        }
        r.append(", tun_mtu: ");
        r.append(text::decimal_text(self.tun_mtu as u64).as_str());
        r.append(" }");
        r
    }
}

/// No secret of a configuration reaches a log: what is logged is the same
/// whatever the certificates, the private key and the static key hold.
pub proof fn a_description_holds_no_key(a: OpenVpnConfig, b: OpenVpnConfig)
    requires
        a.remotes == b.remotes,
        a.ca@.len() == b.ca@.len(),
        a.client_certs@.len() == b.client_certs@.len(),
        a.client_key is Some <==> b.client_key is Some,
        a.control_auth.name() == b.control_auth.name(),
        a.data_ciphers == b.data_ciphers,
        a.digest == b.digest,
        a.wants_credentials == b.wants_credentials,
        a.reneg_seconds == b.reneg_seconds,
        a.tun_mtu == b.tun_mtu,
    ensures
        a.description() == b.description(),
{
}

} // verus!
