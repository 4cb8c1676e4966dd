//! Enrolment with a relay, and the encryption of the frames exchanged with it.

use base64::{engine::general_purpose::URL_SAFE_NO_PAD, Engine as _};
use hkdf::Hkdf;
use sha2::Sha256;
use vstd::prelude::*;
use vstd::slice::{slice_subrange, slice_to_vec};

use crate::bytes;
use crate::net::Ipv4;
use crate::openvpn::config::DataCipher;
use crate::openvpn::crypto;
use crate::protocol;
use crate::protocol::{FrameHeader, HeaderModel, HEADER_LEN};
use crate::random::random_bytes;
use crate::text;

verus! {

pub const TOKEN_PREFIX: &'static str = "gpe1_";

pub const CLIENT_TO_SERVER_NONCE: u32 = 0x4354_5331;

pub const SERVER_TO_CLIENT_NONCE: u32 = 0x5354_4331;

pub const CLIENT_TO_SERVER_INFO: &'static str = "gamepath-v1 client-to-server";

pub const SERVER_TO_CLIENT_INFO: &'static str = "gamepath-v1 server-to-client";

/// The text that base64's `URL_SAFE_NO_PAD` engine makes of some bytes.
pub uninterp spec fn base64_text(data: Seq<u8>) -> Seq<char>;

/// The bytes that base64's `URL_SAFE_NO_PAD` engine reads in a text.
pub uninterp spec fn base64_bytes(s: Seq<char>) -> Option<Seq<u8>>;

/// The characters of the URL-safe alphabet.
pub open spec fn is_base64_char(c: char) -> bool {
    'A' <= c <= 'Z' || 'a' <= c <= 'z' || '0' <= c <= '9' || c == '-' || c == '_'
}

/// Calls `base64::engine::general_purpose::URL_SAFE_NO_PAD.encode`. The text is
/// a function of the bytes, keeps to the URL-safe alphabet, and decodes to them.
#[verifier::external_body]
fn encode_base64(data: &[u8]) -> (r: String)
    ensures
        r@ == base64_text(data@),
        base64_bytes(r@) == Some(data@),
        forall|i: int| 0 <= i < r@.len() ==> is_base64_char(#[trigger] r@[i]),
{
    URL_SAFE_NO_PAD.encode(data)
}

/// Calls `base64::engine::general_purpose::URL_SAFE_NO_PAD.decode`, whose result
/// is a function of the text.
#[verifier::external_body]
fn decode_base64(s: &str) -> (r: Option<Vec<u8>>)
    ensures
        r is Some <==> base64_bytes(s@) is Some,
        r matches Some(data) ==> base64_bytes(s@) == Some(data@),
{
    URL_SAFE_NO_PAD.decode(s).ok()
}

pub const BAD_PREFIX: &'static str = "invalid GamePath enrollment token prefix";

pub const BAD_ENCODING: &'static str = "invalid GamePath enrollment token encoding";

pub const BAD_PAYLOAD: &'static str = "invalid GamePath enrollment token payload";

pub const BAD_VERSION: &'static str = "unsupported GamePath enrollment version";

pub const BAD_CLIENT_ID: &'static str = "invalid enrollment client ID";

pub const BAD_KEY: &'static str = "invalid enrollment pre-shared key";

pub const CLIENT_ID_SIZE: &'static str = "client ID must be 16 bytes";

pub const KEY_SIZE: &'static str = "pre-shared key must be 32 bytes";

/// A client's id as it is shown.
pub fn client_id_text(id: &[u8; 16]) -> (r: String)
    ensures
        r@ == base64_text(id@),
        base64_bytes(r@) == Some(id@),
{
    encode_base64(id.as_slice())
}

/// What a relay hands a client so that the two can recognise each other.
#[derive(Debug, Clone, PartialEq, Eq)]
pub struct EnrollmentToken {
    pub version: u8,
    pub client_id: String,
    pub pre_shared_key: String,
    pub virtual_ipv4: Ipv4,
}

/// The client id and the key of a token.
pub open spec fn token_material(version: u8, client_id: Seq<char>, key: Seq<char>) -> Result<
    (Seq<u8>, Seq<u8>),
    Seq<char>,
> {
    if version != 1 {
        Err(BAD_VERSION@)
    } else if base64_bytes(client_id) is None {
        Err(BAD_CLIENT_ID@)
    } else if base64_bytes(key) is None {
        Err(BAD_KEY@)
    } else if base64_bytes(client_id)->0.len() != 16 {
        Err(CLIENT_ID_SIZE@)
    } else if base64_bytes(key)->0.len() != 32 {
        Err(KEY_SIZE@)
    } else {
        Ok((base64_bytes(client_id)->0, base64_bytes(key)->0))
    }
}

/// The payload of a token's text, before it is read as a token.
pub open spec fn token_payload(value: Seq<char>) -> Result<Seq<u8>, Seq<char>> {
    let bare = text::trimmed(value);
    if !text::begins_with(bare, TOKEN_PREFIX@) {
        Err(BAD_PREFIX@)
    } else {
        match base64_bytes(bare.skip(5)) {
            Some(payload) => Ok(payload),
            None => Err(BAD_ENCODING@),
        }
    }
}

impl EnrollmentToken {
    /// A fresh token for a client at `virtual_ipv4`.
    pub fn generate(virtual_ipv4: Ipv4) -> (r: Self)
        ensures
            r.virtual_ipv4 == virtual_ipv4,
            token_material(r.version, r.client_id@, r.pre_shared_key@) is Ok,
    {
        Self::with_material(random_bytes([0; 16]), random_bytes([0; 32]), virtual_ipv4)
    }

    /// The token for this client id and key.
    pub fn with_material(client_id: [u8; 16], key: [u8; 32], virtual_ipv4: Ipv4) -> (r: Self)
        ensures
            r.version == 1,
            r.client_id@ == base64_text(client_id@),
            r.pre_shared_key@ == base64_text(key@),
            r.virtual_ipv4 == virtual_ipv4,
            token_material(r.version, r.client_id@, r.pre_shared_key@) == Ok::<
                (Seq<u8>, Seq<u8>),
                Seq<char>,
            >((client_id@, key@)),
    {
        EnrollmentToken {
            version: 1,
            client_id: encode_base64(client_id.as_slice()),
            pre_shared_key: encode_base64(key.as_slice()),
            virtual_ipv4,
        }
    }

    /// The text that carries a token's payload. Reading it gives the payload
    /// back.
    pub fn encode_payload(payload: &[u8]) -> (r: String)
        ensures
            r@ == TOKEN_PREFIX@ + base64_text(payload@),
            token_payload(r@) == Ok::<Seq<u8>, Seq<char>>(payload@),
    {
        let body = encode_base64(payload);
        let r = text::concat2(TOKEN_PREFIX, body.as_str());
        proof {
            reveal_strlit("gpe1_");
            assert(r@[0] == 'g');
            assert(text::trimmed_start(r@) == r@);
            if body@.len() > 0 {
                assert(r@.last() == body@[body@.len() - 1]);
                assert(is_base64_char(body@[body@.len() - 1]));
            } else {
                assert(r@.last() == '_');
            }
            assert(text::trimmed_end(r@) == r@);
            assert(r@.take(5) =~= TOKEN_PREFIX@);
            assert(r@.skip(5) =~= body@);
        }
        r
    }

    /// The payload that a token's text carries.
    pub fn decode_payload(value: &str) -> (r: Result<Vec<u8>, String>)
        ensures
            match token_payload(value@) {
                Ok(payload) => r matches Ok(found) && found@ == payload,
                Err(why) => r matches Err(message) && message@ == why,
            },
    {
        let chars = text::chars(value);
        let bare = text::trim(chars.as_slice());
        if !text::starts_with(bare, TOKEN_PREFIX) {
            return Err(BAD_PREFIX.to_owned());
        }
        proof {
            reveal_strlit("gpe1_");
        }
        let rest = slice_subrange(bare, 5, bare.len());
        assert(rest@ =~= bare@.skip(5));
        match decode_base64(text::string(rest).as_str()) {
            Some(payload) => Ok(payload),
            None => Err(BAD_ENCODING.to_owned()),
        }
    }

    /// The token that a payload was read as, if it is one that can be used:
    /// `parsed` is what the payload's JSON holds, and nothing where that is no
    /// token.
    pub fn decode(parsed: Option<Self>) -> (r: Result<Self, String>)
        ensures
            match parsed {
                Some(token) => match token_material(
                    token.version,
                    token.client_id@,
                    token.pre_shared_key@,
                ) {
                    Ok(_) => r == Ok::<Self, String>(token),
                    Err(why) => r matches Err(message) && message@ == why,
                },
                None => r matches Err(message) && message@ == BAD_PAYLOAD@,
            },
    {
        match parsed {
            Some(token) => match token.material() {
                Ok(_) => Ok(token),
                Err(why) => Err(why),
            },
            None => Err(BAD_PAYLOAD.to_owned()),
        }
    }

    /// The client id and the key that a token holds.
    pub fn material(&self) -> (r: Result<([u8; 16], [u8; 32]), String>)
        ensures
            match token_material(self.version, self.client_id@, self.pre_shared_key@) {
                Ok((id, key)) => r matches Ok(found) && found.0@ == id && found.1@ == key,
                Err(why) => r matches Err(message) && message@ == why,
            },
    {
        if self.version != 1 {
            return Err(BAD_VERSION.to_owned());
        }
        let id = match decode_base64(self.client_id.as_str()) {
            Some(id) => id,
            None => return Err(BAD_CLIENT_ID.to_owned()),
        };
        let key = match decode_base64(self.pre_shared_key.as_str()) {
            Some(key) => key,
            None => return Err(BAD_KEY.to_owned()),
        };
        if id.len() != 16 {
            return Err(CLIENT_ID_SIZE.to_owned());
        }
        if key.len() != 32 {
            return Err(KEY_SIZE.to_owned());
        }
        Ok((bytes::filled([0u8; 16], id.as_slice()), bytes::filled([0u8; 32], key.as_slice())))
    }
}

/// The 32 bytes that `Hkdf::<Sha256>` derives from a salt, key material and
/// info.
pub uninterp spec fn hkdf_sha256(salt: Seq<u8>, material: Seq<u8>, info: Seq<u8>) -> [u8; 32];

/// Calls `hkdf::Hkdf::<Sha256>::new` and `expand` for 32 bytes, a length that
/// `expand` never refuses. The bytes are a function of the three inputs.
#[verifier::external_body]
fn derive_key(salt: &[u8], material: &[u8], info: &[u8]) -> (key: [u8; 32])
    ensures
        key == hkdf_sha256(salt@, material@, info@),
{
    let mut key = [0_u8; 32];
    Hkdf::<Sha256>::new(Some(salt), material).expand(info, &mut key).expect("32 bytes fit");
    key
}

/// The key for one direction of a session.
pub open spec fn session_key(pre_shared_key: Seq<u8>, session_id: u64, info: Seq<char>) -> Seq<u8> {
    hkdf_sha256(
        bytes::be_bytes(session_id as nat, 8),
        pre_shared_key,
        vstd::utf8::encode_utf8(info),
    )@
}

/// The nonce of a frame: the direction's prefix, then the sequence.
pub open spec fn frame_nonce(prefix: u32, sequence: u64) -> Seq<u8> {
    bytes::be_bytes(prefix as nat, 4) + bytes::be_bytes(sequence as nat, 8)
}

/// A sealed frame: the header, which the tag covers too, then the ciphertext and
/// the tag.
pub open spec fn sealed_frame(
    key: Seq<u8>,
    prefix: u32,
    header: HeaderModel,
    plaintext: Seq<u8>,
) -> Seq<u8> {
    let head = protocol::header_bytes(header);
    let nonce = frame_nonce(prefix, header.sequence);
    let body = crypto::ciphered(DataCipher::ChaCha20Poly1305, key, nonce, plaintext);
    head + (body + crypto::aead_tag(DataCipher::ChaCha20Poly1305, key, nonce, head, body))
}

/// The header and the plaintext of a frame, or why it is refused.
pub open spec fn opened_frame(key: Seq<u8>, prefix: u32, frame: Seq<u8>) -> Result<
    (HeaderModel, Seq<u8>),
    Seq<char>,
> {
    match protocol::header_of(frame) {
        Err(error) => Err("invalid frame: "@ + error.word()),
        Ok(header) => {
            let head = frame.take(40);
            let rest = frame.skip(40);
            let nonce = frame_nonce(prefix, header.sequence);
            let body = rest.take(rest.len() - 16);
            if rest.len() >= 16 && crypto::can_open(DataCipher::ChaCha20Poly1305, body.len())
                && rest.skip(rest.len() - 16) == crypto::aead_tag(
                DataCipher::ChaCha20Poly1305,
                key,
                nonce,
                head,
                body,
            ) {
                Ok(
                    (header, crypto::ciphered(DataCipher::ChaCha20Poly1305, key, nonce, body)),
                )
            } else {
                Err("packet authentication failed"@)
            }
        },
    }
}

fn nonce(prefix: u32, sequence: u64) -> (r: [u8; 12])
    ensures
        r@ == frame_nonce(prefix, sequence),
{
    let mut out = bytes::to_be(prefix as u64, 4);
    let tail = bytes::to_be(sequence, 8);
    out.extend_from_slice(tail.as_slice());
    proof {
        bytes::lemma_be_bytes_len(prefix as nat, 4);
        bytes::lemma_be_bytes_len(sequence as nat, 8);
        assert(out@ =~= frame_nonce(prefix, sequence));
    }
    bytes::filled([0u8; 12], out.as_slice())
}

fn seal(key: &[u8; 32], prefix: u32, header: FrameHeader, plaintext: &[u8]) -> (r: Result<
    Vec<u8>,
    String,
>)
    ensures
        r is Ok <==> crypto::can_seal(DataCipher::ChaCha20Poly1305, plaintext@.len()),
        r matches Ok(frame) ==> frame@ == sealed_frame(key@, prefix, header.model(), plaintext@),
        r matches Err(message) ==> message@ == "packet encryption failed"@,
{
    let head = header.encode();
    let mut body: Vec<u8> = slice_to_vec(plaintext);
    let n = nonce(prefix, header.sequence);
    let tag = match crypto::chacha_seal(
        key.as_slice(),
        &n,
        head.as_slice(),
        &mut body,
    ) {
        Some(tag) => tag,
        None => return Err("packet encryption failed".to_owned()),
    };
    assert(body@ =~= crypto::ciphered(
        DataCipher::ChaCha20Poly1305,
        key@,
        n@,
        plaintext@,
    ));
    let mut frame: Vec<u8> = Vec::new();
    frame.extend_from_slice(head.as_slice());
    frame.extend_from_slice(body.as_slice());
    frame.extend_from_slice(tag.as_slice());
    assert(frame@ =~= sealed_frame(key@, prefix, header.model(), plaintext@));
    Ok(frame)
}

fn open(key: &[u8; 32], prefix: u32, frame: &[u8]) -> (r: Result<(FrameHeader, Vec<u8>), String>)
    ensures
        match opened_frame(key@, prefix, frame@) {
            Ok((header, plaintext)) => r matches Ok(found) && found.0.model() == header && found.1@
                == plaintext,
            Err(why) => r matches Err(message) && message@ == why,
        },
{
    let header = match FrameHeader::decode(frame) {
        Ok(header) => header,
        Err(error) => return Err(text::concat2("invalid frame: ", error.name())),
    };
    if frame.len() < HEADER_LEN + 16 {
        return Err("packet authentication failed".to_owned());
    }
    let head = slice_subrange(frame, 0, HEADER_LEN);
    let end: usize = frame.len() - 16;
    let mut body: Vec<u8> = slice_to_vec(slice_subrange(frame, HEADER_LEN, end));
    let tag = bytes::filled([0u8; 16], slice_subrange(frame, end, frame.len()));
    let n = nonce(prefix, header.sequence);
    proof {
        let rest = frame@.skip(40);
        assert(head@ =~= frame@.take(40));
        assert(body@ =~= rest.take(rest.len() - 16));
        assert(tag@ =~= rest.skip(rest.len() - 16));
    }
    let ghost sealed = body@;
    if crypto::chacha_open(key.as_slice(), &n, head, &tag, &mut body) {
        assert(body@ =~= crypto::ciphered(DataCipher::ChaCha20Poly1305, key@, n@, sealed));
        Ok((header, body))
    } else {
        assert(forall|t: [u8; 16]| #[trigger] t@ == tag@ ==> t =~= tag);
        Err("packet authentication failed".to_owned())
    }
}

/// The keys of one session with the relay.
pub struct SessionCrypto {
    client_to_server: [u8; 32],
    server_to_client: [u8; 32],
}

impl SessionCrypto {
    /// The key that seals what the client sends.
    pub closed spec fn client_key(&self) -> Seq<u8> {
        self.client_to_server@
    }

    /// The key that seals what the server sends.
    pub closed spec fn server_key(&self) -> Seq<u8> {
        self.server_to_client@
    }

    pub fn new(pre_shared_key: &[u8; 32], session_id: u64) -> (r: Result<Self, String>)
        ensures
            r matches Ok(keys) && keys.client_key() == session_key(
                pre_shared_key@,
                session_id,
                CLIENT_TO_SERVER_INFO@,
            ) && keys.server_key() == session_key(
                pre_shared_key@,
                session_id,
                SERVER_TO_CLIENT_INFO@,
            ),
    {
        let salt = bytes::to_be(session_id, 8);
        Ok(
            SessionCrypto {
                client_to_server: derive_key(
                    salt.as_slice(),
                    pre_shared_key.as_slice(),
                    CLIENT_TO_SERVER_INFO.as_bytes(),
                ),
                server_to_client: derive_key(
                    salt.as_slice(),
                    pre_shared_key.as_slice(),
                    SERVER_TO_CLIENT_INFO.as_bytes(),
                ),
            },
        )
    }

    pub fn seal_client(&self, header: FrameHeader, plaintext: &[u8]) -> (r: Result<
        Vec<u8>,
        String,
    >)
        ensures
            r is Ok <==> crypto::can_seal(DataCipher::ChaCha20Poly1305, plaintext@.len()),
            r matches Ok(frame) ==> frame@ == sealed_frame(
                self.client_key(),
                CLIENT_TO_SERVER_NONCE,
                header.model(),
                plaintext@,
            ),
            r matches Err(message) ==> message@ == "packet encryption failed"@,
    {
        seal(&self.client_to_server, CLIENT_TO_SERVER_NONCE, header, plaintext)
    }

    pub fn open_client(&self, frame: &[u8]) -> (r: Result<(FrameHeader, Vec<u8>), String>)
        ensures
            match opened_frame(self.client_key(), CLIENT_TO_SERVER_NONCE, frame@) {
                Ok((header, plaintext)) => r matches Ok(found) && found.0.model() == header
                    && found.1@ == plaintext,
                Err(why) => r matches Err(message) && message@ == why,
            },
    {
        open(&self.client_to_server, CLIENT_TO_SERVER_NONCE, frame)
    }

    pub fn seal_server(&self, header: FrameHeader, plaintext: &[u8]) -> (r: Result<
        Vec<u8>,
        String,
    >)
        ensures
            r is Ok <==> crypto::can_seal(DataCipher::ChaCha20Poly1305, plaintext@.len()),
            r matches Ok(frame) ==> frame@ == sealed_frame(
                self.server_key(),
                SERVER_TO_CLIENT_NONCE,
                header.model(),
                plaintext@,
            ),
            r matches Err(message) ==> message@ == "packet encryption failed"@,
    {
        seal(&self.server_to_client, SERVER_TO_CLIENT_NONCE, header, plaintext)
    }

    pub fn open_server(&self, frame: &[u8]) -> (r: Result<(FrameHeader, Vec<u8>), String>)
        ensures
            match opened_frame(self.server_key(), SERVER_TO_CLIENT_NONCE, frame@) {
                Ok((header, plaintext)) => r matches Ok(found) && found.0.model() == header
                    && found.1@ == plaintext,
                Err(why) => r matches Err(message) && message@ == why,
            },
    {
        open(&self.server_to_client, SERVER_TO_CLIENT_NONCE, frame)
    }
}

/// A sealed frame opens under the same key and direction as the header and the
/// packet that went into it.
pub proof fn a_sealed_frame_opens(
    key: Seq<u8>,
    prefix: u32,
    header: HeaderModel,
    plaintext: Seq<u8>,
)
    requires
        header.client_id.len() == 16,
        crypto::can_seal(DataCipher::ChaCha20Poly1305, plaintext.len()),
    ensures
        opened_frame(key, prefix, sealed_frame(key, prefix, header, plaintext)) == Ok::<
            (HeaderModel, Seq<u8>),
            Seq<char>,
        >((header, plaintext)),
{
    let head = protocol::header_bytes(header);
    let nonce = frame_nonce(prefix, header.sequence);
    let body = crypto::ciphered(DataCipher::ChaCha20Poly1305, key, nonce, plaintext);
    let tag = crypto::aead_tag(DataCipher::ChaCha20Poly1305, key, nonce, head, body);
    let frame = sealed_frame(key, prefix, header, plaintext);
    protocol::a_header_reads_back(header, body + tag);
    assert(tag.len() == 16);
    assert(frame.take(40) =~= head);
    assert(frame.skip(40) =~= body + tag);
    assert((body + tag).take((body + tag).len() - 16) =~= body);
    assert((body + tag).skip((body + tag).len() - 16) =~= tag);
    crypto::ciphered_twice_is_the_data(DataCipher::ChaCha20Poly1305, key, nonce, plaintext);
}

/// No two frames of a session share a nonce: it tells the direction and the
/// sequence apart.
pub proof fn no_two_frames_share_a_nonce(first: u64, second: u64)
    ensures
        frame_nonce(CLIENT_TO_SERVER_NONCE, first).len() == 12,
        first != second ==> frame_nonce(CLIENT_TO_SERVER_NONCE, first) != frame_nonce(
            CLIENT_TO_SERVER_NONCE,
            second,
        ),
        frame_nonce(CLIENT_TO_SERVER_NONCE, first) != frame_nonce(SERVER_TO_CLIENT_NONCE, second),
{
    bytes::lemma_byte_ranges();
    let a = bytes::be_bytes(CLIENT_TO_SERVER_NONCE as nat, 4);
    let b = bytes::be_bytes(SERVER_TO_CLIENT_NONCE as nat, 4);
    let x = bytes::be_bytes(first as nat, 8);
    let y = bytes::be_bytes(second as nat, 8);
    bytes::lemma_be_bytes_len(CLIENT_TO_SERVER_NONCE as nat, 4);
    bytes::lemma_be_bytes_len(SERVER_TO_CLIENT_NONCE as nat, 4);
    bytes::lemma_be_bytes_len(first as nat, 8);
    bytes::lemma_be_bytes_len(second as nat, 8);
    bytes::lemma_be_round_trip(CLIENT_TO_SERVER_NONCE as nat, 4);
    bytes::lemma_be_round_trip(SERVER_TO_CLIENT_NONCE as nat, 4);
    bytes::lemma_be_round_trip(first as nat, 8);
    bytes::lemma_be_round_trip(second as nat, 8);
    assert((a + x).skip(4) =~= x);
    assert((a + y).skip(4) =~= y);
    assert((a + x).take(4) =~= a);
    assert((b + y).take(4) =~= b);
}

/// A frame is its header in the clear, then as many bytes as the packet has and
/// sixteen of tag; the packet itself is not in it in the clear, but enciphered
/// under the direction and the sequence.
pub proof fn a_sealed_frame_is_laid_out(
    key: Seq<u8>,
    prefix: u32,
    header: HeaderModel,
    plaintext: Seq<u8>,
)
    requires
        header.client_id.len() == 16,
    ensures
        sealed_frame(key, prefix, header, plaintext).len() == 56 + plaintext.len(),
        protocol::header_of(sealed_frame(key, prefix, header, plaintext)) == Ok::<
            HeaderModel,
            protocol::DecodeError,
        >(header),
        forall|i: int|
            0 <= i < plaintext.len() ==> #[trigger] sealed_frame(key, prefix, header, plaintext)[40
                + i] == plaintext[i] ^ crypto::chacha20_keystream(
                key,
                bytes::be_bytes(prefix as nat, 4) + bytes::be_bytes(header.sequence as nat, 8),
                i,
            ),
{
    let head = protocol::header_bytes(header);
    let nonce = frame_nonce(prefix, header.sequence);
    let body = crypto::ciphered(DataCipher::ChaCha20Poly1305, key, nonce, plaintext);
    let tag = crypto::aead_tag(DataCipher::ChaCha20Poly1305, key, nonce, head, body);
    protocol::a_header_reads_back(header, body + tag);
    let frame = sealed_frame(key, prefix, header, plaintext);
    assert forall|i: int| 0 <= i < plaintext.len() implies #[trigger] frame[40 + i] == plaintext[i]
        ^ crypto::chacha20_keystream(key, nonce, i) by {
        assert(frame[40 + i] == (body + tag)[i]);
    }
}

/// A token is told by its prefix, white space around it does not matter, and
/// what it holds has to be of this version and of the right sizes.
pub proof fn a_token_is_told_by_its_form(
    encoded: Seq<char>,
    version: u8,
    client_id: Seq<char>,
    key: Seq<char>,
)
    requires
        encoded.len() > 0,
        !text::is_space(encoded.last()),
    ensures
        ({
            let token = seq!['g', 'p', 'e', '1', '_'] + encoded;
            &&& token_payload(token) == match base64_bytes(encoded) {
                Some(payload) => Ok::<Seq<u8>, Seq<char>>(payload),
                None => Err::<Seq<u8>, Seq<char>>(BAD_ENCODING@),
            }
            &&& token_payload(seq![' '] + token) == token_payload(token)
            &&& token_payload(token + seq!['\n']) == token_payload(token)
        }),
        !text::is_space(encoded[0]) && encoded[0] != 'g' ==> token_payload(encoded) is Err,
        token_material(version, client_id, key) is Ok <==> version == 1 && (base64_bytes(
            client_id,
        ) matches Some(id) && id.len() == 16) && (base64_bytes(key) matches Some(secret)
            && secret.len() == 32),
        token_material(version, client_id, key) matches Ok((id, secret)) ==> Some(id)
            == base64_bytes(client_id) && Some(secret) == base64_bytes(key),
{
    let prefix = seq!['g', 'p', 'e', '1', '_'];
    let token = prefix + encoded;
    reveal_strlit("gpe1_");
    assert(TOKEN_PREFIX@ =~= prefix);
    assert(token.last() == encoded.last());
    text::lemma_trimmed_as_it_is(token);
    assert(token.take(5) =~= prefix);
    assert(token.skip(5) =~= encoded);
    let before = seq![' '] + token;
    assert(before.skip(1) =~= token);
    assert(text::trimmed_start(before) == text::trimmed_start(token));
    let behind = token + seq!['\n'];
    assert(behind[0] == 'g');
    assert(text::trimmed_start(behind) == behind);
    assert(behind.last() == '\n');
    assert(behind.drop_last() =~= token);
    assert(text::trimmed_end(behind) == text::trimmed_end(token));
    if !text::is_space(encoded[0]) && encoded[0] != 'g' {
        text::lemma_trimmed_as_it_is(encoded);
        if text::begins_with(encoded, prefix) {
            assert(encoded.take(5)[0] == 'g');
        }
    }
}

/// The key of either direction is derived from the pre-shared key under the
/// session's number and the direction's own label.
pub proof fn each_direction_has_its_own_key(pre_shared_key: Seq<u8>, session_id: u64)
    ensures
        session_key(pre_shared_key, session_id, CLIENT_TO_SERVER_INFO@) == hkdf_sha256(
            bytes::be_bytes(session_id as nat, 8),
            pre_shared_key,
            vstd::utf8::encode_utf8("gamepath-v1 client-to-server"@),
        )@,
        session_key(pre_shared_key, session_id, SERVER_TO_CLIENT_INFO@) == hkdf_sha256(
            bytes::be_bytes(session_id as nat, 8),
            pre_shared_key,
            vstd::utf8::encode_utf8("gamepath-v1 server-to-client"@),
        )@,
        CLIENT_TO_SERVER_NONCE == 0x4354_5331,
        SERVER_TO_CLIENT_NONCE == 0x5354_4331,
{
}

} // verus!
