//! OpenVPN's key derivation and its two encrypted channels.
//!
//! Several of the wire details here are ordered the opposite way round from how
//! OpenVPN's documentation reads. Where that is so it is called out in a
//! comment, so the next person to doubt one of these offsets does not have to
//! re-derive it.

use aes::cipher::{KeyIvInit, StreamCipher};
use aes::Aes256;
use aes_gcm::aead::{AeadInPlace, KeyInit};
use aes_gcm::{Aes128Gcm, Aes256Gcm};
use chacha20poly1305::ChaCha20Poly1305;
use hmac::{Hmac, Mac};
use md5::Md5;
use sha1::Sha1;
use sha2::{Sha256, Sha512};
use vstd::prelude::*;
use vstd::slice::slice_subrange;

use crate::bits;
use crate::bytes;
use crate::openvpn::config::{DataCipher, Digest, KeyDirection, StaticKey};
use crate::random::random_bytes;
use crate::text;

verus! {

pub const TAG_LEN: usize = 16;

/// What `Hmac::<Md5>` returns for a key and a message.
pub uninterp spec fn hmac_md5(key: Seq<u8>, message: Seq<u8>) -> [u8; 16];

/// What `Hmac::<Sha1>` returns for a key and a message.
pub uninterp spec fn hmac_sha1(key: Seq<u8>, message: Seq<u8>) -> [u8; 20];

/// What `Hmac::<Sha256>` returns for a key and a message.
pub uninterp spec fn hmac_sha256(key: Seq<u8>, message: Seq<u8>) -> [u8; 32];

/// What `Hmac::<Sha512>` returns for a key and a message.
pub uninterp spec fn hmac_sha512(key: Seq<u8>, message: Seq<u8>) -> [u8; 64];

/// Calls `hmac::Hmac::<md5::Md5>`: the tag is a function of the key, which may
/// have any length, and of the message.
#[verifier::external_body]
fn keyed_md5(key: &[u8], message: &[u8]) -> (tag: [u8; 16])
    ensures
        tag == hmac_md5(key@, message@),
{
    let mut mac = <Hmac<Md5> as Mac>::new_from_slice(key).expect("HMAC takes any key");
    mac.update(message);
    mac.finalize().into_bytes().into()
}

/// Calls `hmac::Hmac::<sha1::Sha1>`: the tag is a function of the key, which may
/// have any length, and of the message.
#[verifier::external_body]
fn keyed_sha1(key: &[u8], message: &[u8]) -> (tag: [u8; 20])
    ensures
        tag == hmac_sha1(key@, message@),
{
    let mut mac = <Hmac<Sha1> as Mac>::new_from_slice(key).expect("HMAC takes any key");
    mac.update(message);
    mac.finalize().into_bytes().into()
}

/// Calls `hmac::Hmac::<sha2::Sha256>`: the tag is a function of the key, which
/// may have any length, and of the message.
#[verifier::external_body]
fn keyed_sha256(key: &[u8], message: &[u8]) -> (tag: [u8; 32])
    ensures
        tag == hmac_sha256(key@, message@),
{
    let mut mac = <Hmac<Sha256> as Mac>::new_from_slice(key).expect("HMAC takes any key");
    mac.update(message);
    mac.finalize().into_bytes().into()
}

/// Calls `hmac::Hmac::<sha2::Sha512>`: the tag is a function of the key, which
/// may have any length, and of the message.
#[verifier::external_body]
fn keyed_sha512(key: &[u8], message: &[u8]) -> (tag: [u8; 64])
    ensures
        tag == hmac_sha512(key@, message@),
{
    let mut mac = <Hmac<Sha512> as Mac>::new_from_slice(key).expect("HMAC takes any key");
    mac.update(message);
    mac.finalize().into_bytes().into()
}

/// The keyed hashes that the two channels use.
#[derive(Debug, Clone, Copy, PartialEq, Eq, Structural)]
pub enum Keyed {
    Md5,
    Sha1,
    Sha256,
    Sha512,
}

impl Keyed {
    /// The tag of `message` under `key`.
    pub open spec fn tag(self, key: Seq<u8>, message: Seq<u8>) -> Seq<u8> {
        match self {
            Keyed::Md5 => hmac_md5(key, message)@,
            Keyed::Sha1 => hmac_sha1(key, message)@,
            Keyed::Sha256 => hmac_sha256(key, message)@,
            Keyed::Sha512 => hmac_sha512(key, message)@,
        }
    }

    pub open spec fn size(self) -> nat {
        match self {
            Keyed::Md5 => 16,
            Keyed::Sha1 => 20,
            Keyed::Sha256 => 32,
            Keyed::Sha512 => 64,
        }
    }

    /// The hash that `digest` names.
    pub open spec fn of(digest: Digest) -> Keyed {
        match digest {
            Digest::Sha1 => Keyed::Sha1,
            Digest::Sha256 => Keyed::Sha256,
            Digest::Sha512 => Keyed::Sha512,
        }
    }

    fn mac(self, key: &[u8], message: &[u8]) -> (tag: Vec<u8>)
        ensures
            tag@ == self.tag(key@, message@),
            tag@.len() == self.size(),
    {
        let mut tag: Vec<u8> = Vec::new();
        match self {
            Keyed::Md5 => tag.extend_from_slice(keyed_md5(key, message).as_slice()),
            Keyed::Sha1 => tag.extend_from_slice(keyed_sha1(key, message).as_slice()),
            Keyed::Sha256 => tag.extend_from_slice(keyed_sha256(key, message).as_slice()),
            Keyed::Sha512 => tag.extend_from_slice(keyed_sha512(key, message).as_slice()),
        }
        tag
    }
}

/// The HMAC used by `--tls-auth`, and by `tls-crypt` at a fixed SHA-256.
pub fn hmac(digest: Digest, key: &[u8], parts: &[&[u8]]) -> (tag: Vec<u8>)
    ensures
        tag@ == Keyed::of(digest).tag(key@, bytes::joined(bytes::contents(parts@))),
        tag@.len() == digest.size(),
{
    let message = bytes::join(parts);
    let keyed = match digest {
        Digest::Sha1 => Keyed::Sha1,
        Digest::Sha256 => Keyed::Sha256,
        Digest::Sha512 => Keyed::Sha512,
    };
    keyed.mac(key, message.as_slice())
}

/// The `A(i)` of TLS 1.0's `P_hash`, counted from one: the seed's tag, then the
/// tag of the one before.
pub open spec fn p_hash_chain(keyed: Keyed, secret: Seq<u8>, seed: Seq<u8>, i: nat) -> Seq<u8>
    decreases i,
{
    if i <= 1 {
        keyed.tag(secret, seed)
    } else {
        keyed.tag(secret, p_hash_chain(keyed, secret, seed, (i - 1) as nat))
    }
}

/// The first `n` blocks of TLS 1.0's `P_hash`.
pub open spec fn p_hash_blocks(keyed: Keyed, secret: Seq<u8>, seed: Seq<u8>, n: nat) -> Seq<u8>
    decreases n,
{
    if n == 0 {
        Seq::<u8>::empty()
    } else {
        p_hash_blocks(keyed, secret, seed, (n - 1) as nat) + keyed.tag(
            secret,
            p_hash_chain(keyed, secret, seed, n) + seed,
        )
    }
}

/// TLS 1.0's `P_hash`: as many blocks as `length` bytes take, cut to `length`.
pub open spec fn p_hash_bytes(
    keyed: Keyed,
    secret: Seq<u8>,
    seed: Seq<u8>,
    length: nat,
) -> Seq<u8> {
    p_hash_blocks(
        keyed,
        secret,
        seed,
        ((length + keyed.size() - 1) / keyed.size() as int) as nat,
    ).take(length as int)
}

proof fn lemma_block_count(length: nat, size: nat, n: nat)
    by (nonlinear_arith)
    requires
        size > 0,
        n * size >= length,
        n == 0 || (n - 1) * size < length,
    ensures
        (length + size - 1) / size as int == n,
{
    if n == 0 {
        assert(length == 0);
        assert((size - 1) / size as int == 0);
    } else {
        let x = length + size - 1;
        assert(n * size <= x < (n + 1) * size);
        assert(x / (size as int) == n);
    }
}

/// TLS 1.0's `P_hash`: HMAC chained until enough bytes exist.
fn p_hash(keyed: Keyed, secret: &[u8], seed: &[u8], length: usize) -> (output: Vec<u8>)
    ensures
        output@ == p_hash_bytes(keyed, secret@, seed@, length as nat),
        output@.len() == length,
{
    let mut output: Vec<u8> = Vec::new();
    let mut a: Vec<u8> = keyed.mac(secret, seed);
    let ghost mut n: nat = 0;
    let ghost size = keyed.size();
    while output.len() < length
        invariant
            size == keyed.size(),
            0 < size <= 64,
            output@ == p_hash_blocks(keyed, secret@, seed@, n),
            output@.len() == n * size,
            n == 0 || (n - 1) * size < length,
            a@ == p_hash_chain(keyed, secret@, seed@, n + 1),
        decreases length + 64 - output@.len(),
    {
        let parts: [&[u8]; 2] = [a.as_slice(), seed];
        let block = keyed.mac(secret, bytes::join(parts.as_slice()).as_slice());
        proof {
            assert(bytes::contents(parts@) =~= seq![a@, seed@]);
            bytes::lemma_joined2(a@, seed@);
            assert((n + 1) * size == n * size + size) by (nonlinear_arith);
            n = n + 1;
        }
        output.extend_from_slice(block.as_slice());
        a = keyed.mac(secret, a.as_slice());
    }
    proof {
        lemma_block_count(length as nat, size, n);
    }
    output.truncate(length);
    output
}

/// TLS 1.0's PRF over a secret, seed and length.
pub open spec fn tls1_prf_bytes(secret: Seq<u8>, seed: Seq<u8>, length: nat) -> Seq<u8> {
    let half = (secret.len() + 1) / 2;
    let left = p_hash_bytes(Keyed::Md5, secret.take(half as int), seed, length);
    let right = p_hash_bytes(Keyed::Sha1, secret.skip(secret.len() - half), seed, length);
    Seq::new(length, |i: int| left[i] ^ right[i])
}

/// TLS 1.0's PRF: `P_MD5` over the first half of the secret exclusive-ored with
/// `P_SHA1` over the second.
///
/// OpenVPN's key method 2 derives the data keys with this construction over
/// material exchanged inside the TLS channel, independently of whatever the TLS
/// session itself negotiated. That is why this client works with servers of
/// every vintage without needing the TLS key exporter.
pub fn tls1_prf(secret: &[u8], seed: &[u8], length: usize) -> (output: Vec<u8>)
    ensures
        output@ == tls1_prf_bytes(secret@, seed@, length as nat),
        output@.len() == length,
{
    let half: usize = secret.len() / 2 + secret.len() % 2;
    let first = slice_subrange(secret, 0, half);
    let second = slice_subrange(secret, secret.len() - half, secret.len());
    proof {
        assert(half == (secret@.len() + 1) / 2);
        assert(first@ =~= secret@.take(half as int));
        assert(second@ =~= secret@.skip(secret@.len() - half));
    }
    let left = p_hash(Keyed::Md5, first, seed, length);
    let right = p_hash(Keyed::Sha1, second, seed, length);
    let mut output: Vec<u8> = Vec::new();
    let mut at: usize = 0;
    while at < length
        invariant
            at <= length,
            left@.len() == length,
            right@.len() == length,
            output@.len() == at,
            forall|i: int| 0 <= i < at ==> output@[i] == left@[i] ^ right@[i],
        decreases length - at,
    {
        output.push(left[at] ^ right[at]);
        at = at + 1;
    }
    assert(output@ =~= tls1_prf_bytes(secret@, seed@, length as nat));
    output
}

/// The random material each side contributes to the data-channel keys.
///
/// The client sends all three fields; the server answers with the two random
/// values and no pre-master.
pub struct KeySource {
    pub pre_master: [u8; 48],
    pub random1: [u8; 32],
    pub random2: [u8; 32],
}

impl KeySource {
    /// Fresh random material.
    pub fn random() -> (source: Self) {
        KeySource {
            pre_master: random_bytes([0; 48]),
            random1: random_bytes([0; 32]),
            random2: random_bytes([0; 32]),
        }
    }
}

/// The seed of one OpenVPN key derivation.
pub open spec fn prf_seed(
    label: Seq<char>,
    client_seed: Seq<u8>,
    server_seed: Seq<u8>,
    session_ids: Seq<u8>,
) -> Seq<u8> {
    vstd::utf8::encode_utf8(label) + client_seed + server_seed + session_ids
}

fn openvpn_prf(
    secret: &[u8],
    label: &str,
    client_seed: &[u8],
    server_seed: &[u8],
    session_ids: &[u8],
    length: usize,
) -> (output: Vec<u8>)
    ensures
        output@ == tls1_prf_bytes(
            secret@,
            prf_seed(label@, client_seed@, server_seed@, session_ids@),
            length as nat,
        ),
        output@.len() == length,
{
    let mut seed: Vec<u8> = Vec::new();
    seed.extend_from_slice(label.as_bytes());
    seed.extend_from_slice(client_seed);
    seed.extend_from_slice(server_seed);
    seed.extend_from_slice(session_ids);
    assert(seed@ =~= prf_seed(label@, client_seed@, server_seed@, session_ids@));
    tls1_prf(secret, seed.as_slice(), length)
}

/// The master secret that both ends compute from the exchanged material.
pub open spec fn master_secret(client: KeySource, server_random1: Seq<u8>) -> Seq<u8> {
    tls1_prf_bytes(
        client.pre_master@,
        prf_seed("OpenVPN master secret"@, client.random1@, server_random1, Seq::<u8>::empty()),
        48,
    )
}

/// The expanded key material that both ends compute.
pub open spec fn key_expansion(
    client: KeySource,
    server_random1: Seq<u8>,
    server_random2: Seq<u8>,
    client_session_id: Seq<u8>,
    server_session_id: Seq<u8>,
) -> Seq<u8> {
    tls1_prf_bytes(
        master_secret(client, server_random1),
        prf_seed(
            "OpenVPN key expansion"@,
            client.random2@,
            server_random2,
            client_session_id + server_session_id,
        ),
        256,
    )
}

/// The 256 bytes of expanded key material: two keys of 64 bytes of cipher
/// material followed by 64 bytes of HMAC material.
pub struct KeyMaterial(pub [u8; 256]);

impl KeyMaterial {
    pub fn derive(
        client: &KeySource,
        server_random1: &[u8; 32],
        server_random2: &[u8; 32],
        client_session_id: &[u8; 8],
        server_session_id: &[u8; 8],
    ) -> (material: Self)
        ensures
            material.0@ == key_expansion(
                *client,
                server_random1@,
                server_random2@,
                client_session_id@,
                server_session_id@,
            ),
    {
        let none: [u8; 0] = [];
        assert(none@ =~= Seq::<u8>::empty());
        let master = openvpn_prf(
            client.pre_master.as_slice(),
            "OpenVPN master secret",
            client.random1.as_slice(),
            server_random1.as_slice(),
            none.as_slice(),
            48,
        );
        let mut session_ids: Vec<u8> = Vec::new();
        session_ids.extend_from_slice(client_session_id.as_slice());
        session_ids.extend_from_slice(server_session_id.as_slice());
        assert(session_ids@ =~= client_session_id@ + server_session_id@);
        let expanded = openvpn_prf(
            master.as_slice(),
            "OpenVPN key expansion",
            client.random2.as_slice(),
            server_random2.as_slice(),
            session_ids.as_slice(),
            256,
        );
        KeyMaterial(bytes::filled([0u8; 256], expanded.as_slice()))
    }

    pub open spec fn key(&self, index: int, length: int) -> Seq<u8> {
        self.0@.subrange(index * 128, index * 128 + length)
    }

    pub open spec fn iv(&self, index: int) -> Seq<u8> {
        self.0@.subrange(index * 128 + 64, index * 128 + 72)
    }

    /// The front of one key's cipher material.
    pub fn cipher_key(&self, index: usize, length: usize) -> (key: &[u8])
        requires
            index < 2,
            index * 128 + length <= 256,
        ensures
            key@ == self.key(index as int, length as int),
            key@.len() == length,
    {
        slice_subrange(self.0.as_slice(), index * 128, index * 128 + length)
    }

    /// The implicit half of an AEAD nonce.
    ///
    /// It is the front of the key's HMAC material, not of its cipher material,
    /// even though AEAD ciphers use no separate HMAC key. Taking it from the
    /// cipher half does not authenticate against a live server.
    pub fn implicit_iv(&self, index: usize) -> (iv: [u8; 8])
        requires
            index < 2,
        ensures
            iv@ == self.iv(index as int),
    {
        bytes::filled(
            [0u8; 8],
            slice_subrange(self.0.as_slice(), index * 128 + 64, index * 128 + 72),
        )
    }
}

/// The keys `--tls-auth` signs control packets with.
pub struct TlsAuthKeys {
    pub send: Vec<u8>,
    pub receive: Vec<u8>,
    pub digest: Digest,
}

impl TlsAuthKeys {
    /// As much of each direction's HMAC key as the digest is wide.
    pub fn new(key: &StaticKey, direction: KeyDirection, digest: Digest) -> (keys: Self)
        ensures
            keys.send@ == key.hmac_half(direction.key_indexes().0 as int).take(digest.size() as int),
            keys.receive@ == key.hmac_half(direction.key_indexes().1 as int).take(
                digest.size() as int,
            ),
            keys.digest == digest,
    {
        let (send, receive) = direction.indexes();
        let size: usize = digest.output_len();
        let send_key = slice_subrange(key.hmac(send), 0, size);
        let receive_key = slice_subrange(key.hmac(receive), 0, size);
        let keys = TlsAuthKeys {
            send: vstd::slice::slice_to_vec(send_key),
            receive: vstd::slice::slice_to_vec(receive_key),
            digest,
        };
        assert(keys.send@ =~= key.hmac_half(send as int).take(size as int));
        assert(keys.receive@ =~= key.hmac_half(receive as int).take(size as int));
        keys
    }
}

/// The keys `--tls-crypt` encrypts control packets with.
///
/// Unlike the data channel, this direction mapping follows OpenVPN's own
/// numbering: a client sends with key 1 and receives with key 0.
pub struct TlsCryptKeys {
    pub send_cipher: [u8; 32],
    pub send_hmac: [u8; 32],
    pub receive_cipher: [u8; 32],
    pub receive_hmac: [u8; 32],
}

impl TlsCryptKeys {
    /// The first 32 bytes of each of the key's four parts.
    pub fn new(key: &StaticKey) -> (keys: Self)
        ensures
            keys.send_cipher@ == key.cipher_half(1).take(32),
            keys.send_hmac@ == key.hmac_half(1).take(32),
            keys.receive_cipher@ == key.cipher_half(0).take(32),
            keys.receive_hmac@ == key.hmac_half(0).take(32),
    {
        let keys = TlsCryptKeys {
            send_cipher: bytes::filled([0u8; 32], slice_subrange(key.cipher(1), 0, 32)),
            send_hmac: bytes::filled([0u8; 32], slice_subrange(key.hmac(1), 0, 32)),
            receive_cipher: bytes::filled([0u8; 32], slice_subrange(key.cipher(0), 0, 32)),
            receive_hmac: bytes::filled([0u8; 32], slice_subrange(key.hmac(0), 0, 32)),
        };
        assert(keys.send_cipher@ =~= key.cipher_half(1).take(32));
        assert(keys.send_hmac@ =~= key.hmac_half(1).take(32));
        assert(keys.receive_cipher@ =~= key.cipher_half(0).take(32));
        assert(keys.receive_hmac@ =~= key.hmac_half(0).take(32));
        keys
    }
}

/// The byte that `ctr::Ctr128BE::<Aes256>` combines with the data at `position`.
pub uninterp spec fn aes256_ctr_keystream(key: Seq<u8>, iv: Seq<u8>, position: int) -> u8;

/// Data combined with the AES-256 counter-mode keystream.
pub open spec fn ctr_applied(key: Seq<u8>, iv: Seq<u8>, data: Seq<u8>) -> Seq<u8> {
    Seq::new(data.len(), |i: int| data[i] ^ aes256_ctr_keystream(key, iv, i))
}

/// Calls `ctr::Ctr128BE::<Aes256>::apply_keystream`, which exclusive-ors the data
/// with a keystream that the key and the initial counter block alone determine.
#[verifier::external_body]
fn apply_aes256_ctr(key: &[u8; 32], iv: &[u8; 16], data: &mut Vec<u8>)
    ensures
        final(data)@.len() == old(data)@.len(),
        forall|i: int|
            0 <= i < old(data)@.len() ==> #[trigger] final(data)@[i] == old(data)@[i]
                ^ aes256_ctr_keystream(key@, iv@, i),
{
    let mut cipher = ctr::Ctr128BE::<Aes256>::new(key.into(), iv.into());
    cipher.apply_keystream(data.as_mut_slice());
}

/// Encrypts a `tls-crypt` payload in place with AES-256 in counter mode, keyed
/// by the first half of the packet's own authentication tag.
pub fn tls_crypt_apply(key: &[u8; 32], tag: &[u8], payload: &mut Vec<u8>)
    requires
        tag@.len() >= 16,
    ensures
        final(payload)@ == ctr_applied(key@, tag@.take(16), old(payload)@),
{
    let iv = bytes::filled([0u8; 16], slice_subrange(tag, 0, 16));
    assert(iv@ =~= tag@.take(16));
    apply_aes256_ctr(key, &iv, payload);
    assert(payload@ =~= ctr_applied(key@, tag@.take(16), old(payload)@));
}

proof fn lemma_xor_twice(a: u8, k: u8)
    by (bit_vector)
    ensures
        (a ^ k) ^ k == a,
{
}

/// Applying the same keystream twice gives the data back.
pub proof fn ctr_applied_twice_is_the_data(key: Seq<u8>, iv: Seq<u8>, data: Seq<u8>)
    ensures
        ctr_applied(key, iv, ctr_applied(key, iv, data)) == data,
{
    let twice = ctr_applied(key, iv, ctr_applied(key, iv, data));
    assert forall|i: int| 0 <= i < data.len() implies twice[i] == data[i] by {
        lemma_xor_twice(data[i], aes256_ctr_keystream(key, iv, i));
    }
    assert(twice =~= data);
}

/// The byte that `Aes128Gcm` combines with the data at `position`.
pub uninterp spec fn aes128_gcm_keystream(key: Seq<u8>, nonce: Seq<u8>, position: int) -> u8;

/// The tag that `Aes128Gcm` gives a ciphertext and its associated data.
pub uninterp spec fn aes128_gcm_tag(
    key: Seq<u8>,
    nonce: Seq<u8>,
    aad: Seq<u8>,
    ciphertext: Seq<u8>,
) -> [u8; 16];

/// The byte that `Aes256Gcm` combines with the data at `position`.
pub uninterp spec fn aes256_gcm_keystream(key: Seq<u8>, nonce: Seq<u8>, position: int) -> u8;

/// The tag that `Aes256Gcm` gives a ciphertext and its associated data.
pub uninterp spec fn aes256_gcm_tag(
    key: Seq<u8>,
    nonce: Seq<u8>,
    aad: Seq<u8>,
    ciphertext: Seq<u8>,
) -> [u8; 16];

/// The byte that `ChaCha20Poly1305` combines with the data at `position`.
pub uninterp spec fn chacha20_keystream(key: Seq<u8>, nonce: Seq<u8>, position: int) -> u8;

/// The tag that `ChaCha20Poly1305` gives a ciphertext and its associated data.
pub uninterp spec fn chacha20_poly1305_tag(
    key: Seq<u8>,
    nonce: Seq<u8>,
    aad: Seq<u8>,
    ciphertext: Seq<u8>,
) -> [u8; 16];

/// The most bytes that `aes-gcm` takes, of a message and of associated data. It
/// opens a ciphertext that is sixteen bytes longer.
pub const GCM_LIMIT: u64 = 0x10_0000_0000;

/// The first message size that `chacha20poly1305` has no keystream for: one
/// block of 2^32 is spent on the tag, and its stream cipher never hands out the
/// last.
pub const CHACHA_LIMIT: u64 = 0x3f_ffff_ff81;

/// Calls `aes_gcm::Aes128Gcm::encrypt_in_place_detached`. It refuses a message
/// or associated data over its limit, and otherwise exclusive-ors the message
/// with a keystream that the key and nonce determine, and returns a tag over
/// the associated data and the ciphertext.
#[verifier::external_body]
fn aes128_gcm_seal(key: &[u8], nonce: &[u8; 12], aad: &[u8], buffer: &mut Vec<u8>) -> (tag: Option<
    [u8; 16],
>)
    requires
        key@.len() == 16,
    ensures
        tag is Some <==> (old(buffer)@.len() <= GCM_LIMIT && aad@.len() <= GCM_LIMIT),
        tag is Some ==> final(buffer)@.len() == old(buffer)@.len(),
        tag is Some ==> forall|i: int|
            0 <= i < old(buffer)@.len() ==> #[trigger] final(buffer)@[i] == old(buffer)@[i]
                ^ aes128_gcm_keystream(key@, nonce@, i),
        tag matches Some(t) ==> t == aes128_gcm_tag(key@, nonce@, aad@, final(buffer)@),
{
    let cipher = Aes128Gcm::new_from_slice(key).expect("a 16-byte key");
    let tag = cipher.encrypt_in_place_detached(nonce.into(), aad, buffer.as_mut_slice());
    tag.ok().map(|tag| tag.into())
}

/// Calls `aes_gcm::Aes128Gcm::decrypt_in_place_detached`. Within the limits it
/// accepts exactly the tag that encryption gives this ciphertext, and then
/// exclusive-ors it with the same keystream.
#[verifier::external_body]
fn aes128_gcm_open(
    key: &[u8],
    nonce: &[u8; 12],
    aad: &[u8],
    tag: &[u8; 16],
    buffer: &mut Vec<u8>,
) -> (ok: bool)
    requires
        key@.len() == 16,
    ensures
        ok == (old(buffer)@.len() <= GCM_LIMIT + 16 && aad@.len() <= GCM_LIMIT && *tag
            == aes128_gcm_tag(key@, nonce@, aad@, old(buffer)@)),
        ok ==> final(buffer)@.len() == old(buffer)@.len(),
        ok ==> forall|i: int|
            0 <= i < old(buffer)@.len() ==> #[trigger] final(buffer)@[i] == old(buffer)@[i]
                ^ aes128_gcm_keystream(key@, nonce@, i),
{
    let cipher = Aes128Gcm::new_from_slice(key).expect("a 16-byte key");
    cipher.decrypt_in_place_detached(nonce.into(), aad, buffer.as_mut_slice(), tag.into()).is_ok()
}

/// Calls `aes_gcm::Aes256Gcm::encrypt_in_place_detached`. It refuses a message
/// or associated data over its limit, and otherwise exclusive-ors the message
/// with a keystream that the key and nonce determine, and returns a tag over
/// the associated data and the ciphertext.
#[verifier::external_body]
fn aes256_gcm_seal(key: &[u8], nonce: &[u8; 12], aad: &[u8], buffer: &mut Vec<u8>) -> (tag: Option<
    [u8; 16],
>)
    requires
        key@.len() == 32,
    ensures
        tag is Some <==> (old(buffer)@.len() <= GCM_LIMIT && aad@.len() <= GCM_LIMIT),
        tag is Some ==> final(buffer)@.len() == old(buffer)@.len(),
        tag is Some ==> forall|i: int|
            0 <= i < old(buffer)@.len() ==> #[trigger] final(buffer)@[i] == old(buffer)@[i]
                ^ aes256_gcm_keystream(key@, nonce@, i),
        tag matches Some(t) ==> t == aes256_gcm_tag(key@, nonce@, aad@, final(buffer)@),
{
    let cipher = Aes256Gcm::new_from_slice(key).expect("a 32-byte key");
    let tag = cipher.encrypt_in_place_detached(nonce.into(), aad, buffer.as_mut_slice());
    tag.ok().map(|tag| tag.into())
}

/// Calls `aes_gcm::Aes256Gcm::decrypt_in_place_detached`. Within the limits it
/// accepts exactly the tag that encryption gives this ciphertext, and then
/// exclusive-ors it with the same keystream.
#[verifier::external_body]
fn aes256_gcm_open(
    key: &[u8],
    nonce: &[u8; 12],
    aad: &[u8],
    tag: &[u8; 16],
    buffer: &mut Vec<u8>,
) -> (ok: bool)
    requires
        key@.len() == 32,
    ensures
        ok == (old(buffer)@.len() <= GCM_LIMIT + 16 && aad@.len() <= GCM_LIMIT && *tag
            == aes256_gcm_tag(key@, nonce@, aad@, old(buffer)@)),
        ok ==> final(buffer)@.len() == old(buffer)@.len(),
        ok ==> forall|i: int|
            0 <= i < old(buffer)@.len() ==> #[trigger] final(buffer)@[i] == old(buffer)@[i]
                ^ aes256_gcm_keystream(key@, nonce@, i),
{
    let cipher = Aes256Gcm::new_from_slice(key).expect("a 32-byte key");
    cipher.decrypt_in_place_detached(nonce.into(), aad, buffer.as_mut_slice(), tag.into()).is_ok()
}

/// Calls `chacha20poly1305::ChaCha20Poly1305::encrypt_in_place_detached`. Within
/// its keystream it exclusive-ors the message with bytes that the key and nonce
/// determine, and returns a tag over the associated data and the ciphertext.
#[verifier::external_body]
fn chacha20_poly1305_seal(
    key: &[u8],
    nonce: &[u8; 12],
    aad: &[u8],
    buffer: &mut Vec<u8>,
) -> (tag: Option<[u8; 16]>)
    requires
        key@.len() == 32,
        old(buffer)@.len() < CHACHA_LIMIT,
    ensures
        tag is Some,
        final(buffer)@.len() == old(buffer)@.len(),
        forall|i: int|
            0 <= i < old(buffer)@.len() ==> #[trigger] final(buffer)@[i] == old(buffer)@[i]
                ^ chacha20_keystream(key@, nonce@, i),
        tag matches Some(t) ==> t == chacha20_poly1305_tag(key@, nonce@, aad@, final(buffer)@),
{
    let cipher = ChaCha20Poly1305::new_from_slice(key).expect("a 32-byte key");
    let tag = cipher.encrypt_in_place_detached(nonce.into(), aad, buffer.as_mut_slice());
    tag.ok().map(|tag| tag.into())
}

/// Calls `chacha20poly1305::ChaCha20Poly1305::decrypt_in_place_detached`. Within
/// its keystream it accepts exactly the tag that encryption gives this
/// ciphertext, and then exclusive-ors it with the same bytes.
#[verifier::external_body]
fn chacha20_poly1305_open(
    key: &[u8],
    nonce: &[u8; 12],
    aad: &[u8],
    tag: &[u8; 16],
    buffer: &mut Vec<u8>,
) -> (ok: bool)
    requires
        key@.len() == 32,
        old(buffer)@.len() < CHACHA_LIMIT,
    ensures
        ok == (*tag == chacha20_poly1305_tag(key@, nonce@, aad@, old(buffer)@)),
        ok ==> final(buffer)@.len() == old(buffer)@.len(),
        ok ==> forall|i: int|
            0 <= i < old(buffer)@.len() ==> #[trigger] final(buffer)@[i] == old(buffer)@[i]
                ^ chacha20_keystream(key@, nonce@, i),
{
    let cipher = ChaCha20Poly1305::new_from_slice(key).expect("a 32-byte key");
    cipher.decrypt_in_place_detached(nonce.into(), aad, buffer.as_mut_slice(), tag.into()).is_ok()
}

/// Seals a message in place, unless it is longer than the keystream.
pub(crate) fn chacha_seal(key: &[u8], nonce: &[u8; 12], aad: &[u8], buffer: &mut Vec<u8>) -> (tag:
    Option<[u8; 16]>)
    requires
        key@.len() == 32,
    ensures
        tag is Some <==> old(buffer)@.len() < CHACHA_LIMIT,
        tag is Some ==> final(buffer)@.len() == old(buffer)@.len(),
        tag is Some ==> forall|i: int|
            0 <= i < old(buffer)@.len() ==> #[trigger] final(buffer)@[i] == old(buffer)@[i]
                ^ chacha20_keystream(key@, nonce@, i),
        tag matches Some(t) ==> t == chacha20_poly1305_tag(key@, nonce@, aad@, final(buffer)@),
        tag is None ==> final(buffer)@ == old(buffer)@,
{
    if buffer.len() as u64 >= CHACHA_LIMIT {
        return None;
    }
    chacha20_poly1305_seal(key, nonce, aad, buffer)
}

/// Opens a ciphertext in place if its tag is right, unless it is longer than the
/// keystream.
pub(crate) fn chacha_open(
    key: &[u8],
    nonce: &[u8; 12],
    aad: &[u8],
    tag: &[u8; 16],
    buffer: &mut Vec<u8>,
) -> (ok: bool)
    requires
        key@.len() == 32,
    ensures
        ok == (old(buffer)@.len() < CHACHA_LIMIT && *tag == chacha20_poly1305_tag(
            key@,
            nonce@,
            aad@,
            old(buffer)@,
        )),
        ok ==> final(buffer)@.len() == old(buffer)@.len(),
        ok ==> forall|i: int|
            0 <= i < old(buffer)@.len() ==> #[trigger] final(buffer)@[i] == old(buffer)@[i]
                ^ chacha20_keystream(key@, nonce@, i),
{
    if buffer.len() as u64 >= CHACHA_LIMIT {
        return false;
    }
    chacha20_poly1305_open(key, nonce, aad, tag, buffer)
}

/// What a cipher combines with the data at `position`.
pub open spec fn keystream(
    cipher: DataCipher,
    key: Seq<u8>,
    nonce: Seq<u8>,
    position: int,
) -> u8 {
    match cipher {
        DataCipher::Aes128Gcm => aes128_gcm_keystream(key, nonce, position),
        DataCipher::Aes256Gcm => aes256_gcm_keystream(key, nonce, position),
        DataCipher::ChaCha20Poly1305 => chacha20_keystream(key, nonce, position),
    }
}

/// Data combined with a cipher's keystream: encryption and decryption alike.
pub open spec fn ciphered(cipher: DataCipher, key: Seq<u8>, nonce: Seq<u8>, data: Seq<u8>) -> Seq<
    u8,
> {
    Seq::new(data.len(), |i: int| data[i] ^ keystream(cipher, key, nonce, i))
}

/// The tag that a cipher gives a ciphertext and its associated data.
pub open spec fn aead_tag(
    cipher: DataCipher,
    key: Seq<u8>,
    nonce: Seq<u8>,
    aad: Seq<u8>,
    ciphertext: Seq<u8>,
) -> Seq<u8> {
    match cipher {
        DataCipher::Aes128Gcm => aes128_gcm_tag(key, nonce, aad, ciphertext)@,
        DataCipher::Aes256Gcm => aes256_gcm_tag(key, nonce, aad, ciphertext)@,
        DataCipher::ChaCha20Poly1305 => chacha20_poly1305_tag(key, nonce, aad, ciphertext)@,
    }
}

/// Whether a cipher takes a message of this size.
pub open spec fn can_seal(cipher: DataCipher, size: nat) -> bool {
    match cipher {
        DataCipher::ChaCha20Poly1305 => size < CHACHA_LIMIT,
        _ => size <= GCM_LIMIT,
    }
}

/// Whether a cipher opens a ciphertext of this size.
pub open spec fn can_open(cipher: DataCipher, size: nat) -> bool {
    match cipher {
        DataCipher::ChaCha20Poly1305 => size < CHACHA_LIMIT,
        _ => size <= GCM_LIMIT + 16,
    }
}

/// Decryption undoes encryption.
pub proof fn ciphered_twice_is_the_data(
    cipher: DataCipher,
    key: Seq<u8>,
    nonce: Seq<u8>,
    data: Seq<u8>,
)
    ensures
        ciphered(cipher, key, nonce, ciphered(cipher, key, nonce, data)) == data,
{
    let twice = ciphered(cipher, key, nonce, ciphered(cipher, key, nonce, data));
    assert forall|i: int| 0 <= i < data.len() implies twice[i] == data[i] by {
        lemma_xor_twice(data[i], keystream(cipher, key, nonce, i));
    }
    assert(twice =~= data);
}

/// One direction of an AEAD data channel.
struct Sealer {
    cipher: DataCipher,
    key: Vec<u8>,
}

impl Sealer {
    spec fn wf(&self) -> bool {
        self.key@.len() == self.cipher.key_size()
    }

    fn new(cipher: DataCipher, key: &[u8]) -> (r: Result<Self, String>)
        ensures
            r is Ok <==> key@.len() == cipher.key_size(),
            r matches Ok(sealer) ==> sealer.wf() && sealer.cipher == cipher && sealer.key@ == key@,
            r matches Err(message) ==> message@
                == "the derived data-channel key is the wrong length"@,
    {
        if key.len() != cipher.key_len() {
            return Err("the derived data-channel key is the wrong length".to_owned());
        }
        Ok(Sealer { cipher, key: vstd::slice::slice_to_vec(key) })
    }

    fn seal(&self, nonce: &[u8; 12], aad: &[u8], buffer: &mut Vec<u8>) -> (r: Result<
        [u8; 16],
        String,
    >)
        requires
            self.wf(),
            aad@.len() <= 8,
        ensures
            r is Ok <==> can_seal(self.cipher, old(buffer)@.len()),
            r matches Ok(tag) ==> final(buffer)@ == ciphered(
                self.cipher,
                self.key@,
                nonce@,
                old(buffer)@,
            ) && tag@ == aead_tag(self.cipher, self.key@, nonce@, aad@, final(buffer)@),
            r matches Err(message) ==> message@ == "could not encrypt an OpenVPN data packet"@,
    {
        let key = self.key.as_slice();
        let tag = match self.cipher {
            DataCipher::Aes128Gcm => aes128_gcm_seal(key, nonce, aad, buffer),
            DataCipher::Aes256Gcm => aes256_gcm_seal(key, nonce, aad, buffer),
            DataCipher::ChaCha20Poly1305 => chacha_seal(key, nonce, aad, buffer),
        };
        match tag {
            Some(tag) => {
                assert(buffer@ =~= ciphered(self.cipher, self.key@, nonce@, old(buffer)@));
                Ok(tag)
            },
            None => Err("could not encrypt an OpenVPN data packet".to_owned()),
        }
    }

    fn open(&self, nonce: &[u8; 12], aad: &[u8], tag: &[u8; 16], buffer: &mut Vec<u8>) -> (r:
        Result<(), String>)
        requires
            self.wf(),
            aad@.len() <= 8,
        ensures
            r is Ok <==> can_open(self.cipher, old(buffer)@.len()) && tag@ == aead_tag(
                self.cipher,
                self.key@,
                nonce@,
                aad@,
                old(buffer)@,
            ),
            r is Ok ==> final(buffer)@ == ciphered(
                self.cipher,
                self.key@,
                nonce@,
                old(buffer)@,
            ),
            r matches Err(message) ==> message@ == "an OpenVPN data packet did not authenticate"@,
    {
        let key = self.key.as_slice();
        let ok = match self.cipher {
            DataCipher::Aes128Gcm => aes128_gcm_open(key, nonce, aad, tag, buffer),
            DataCipher::Aes256Gcm => aes256_gcm_open(key, nonce, aad, tag, buffer),
            DataCipher::ChaCha20Poly1305 => chacha_open(key, nonce, aad, tag, buffer),
        };
        if ok {
            assert(buffer@ =~= ciphered(self.cipher, self.key@, nonce@, old(buffer)@));
            Ok(())
        } else {
            assert(forall|t: [u8; 16]| #[trigger] t@ == tag@ ==> t =~= *tag);
            Err("an OpenVPN data packet did not authenticate".to_owned())
        }
    }
}

/// Rejects a packet id that has been seen before, within a sliding window.
///
/// The data channel is unordered, so a packet id lower than the highest seen is
/// not necessarily a replay; only one that has already been accepted is.
pub struct ReplayWindow {
    pub highest: u32,
    pub seen: u64,
}

impl ReplayWindow {
    /// Whether the window remembers having accepted `id`.
    pub open spec fn holds(&self, id: u32) -> bool {
        id <= self.highest && self.highest - id < 64 && bits::bit(self.seen, (self.highest - id) as u64)
    }

    /// Whether the window would accept `id`.
    pub open spec fn accepts(&self, id: u32) -> bool {
        id != 0 && (id > self.highest || (self.highest - id < 64 && !self.holds(id)))
    }

    /// What the window is once `id` has been offered to it.
    pub open spec fn offered(&self, id: u32, next: &ReplayWindow) -> bool {
        if self.accepts(id) {
            &&& next.highest == if id > self.highest {
                id
            } else {
                self.highest
            }
            &&& forall|x: u32| #[trigger]
                next.holds(x) <==> (x == id || self.holds(x)) && x <= next.highest && next.highest
                    - x < 64
        } else {
            next == self
        }
    }

    /// The window once `id` has been offered to it.
    pub open spec fn after(&self, id: u32) -> ReplayWindow {
        if !self.accepts(id) {
            *self
        } else if id > self.highest {
            ReplayWindow {
                highest: id,
                seen: if id - self.highest >= 64 {
                    1
                } else {
                    (self.seen << ((id - self.highest) as u64)) | 1
                },
            }
        } else {
            ReplayWindow {
                highest: self.highest,
                seen: self.seen | (1u64 << ((self.highest - id) as u64)),
            }
        }
    }

    pub fn new() -> (window: Self)
        ensures
            window == (ReplayWindow { highest: 0, seen: 0 }),
            forall|x: u32| !window.holds(x),
    {
        let window = ReplayWindow { highest: 0, seen: 0 };
        assert forall|x: u32| !window.holds(x) by {
            bits::lemma_bit_set(0, 0, 0);
        }
        window
    }

    /// Takes a packet id in, and says whether it is new.
    pub fn accept(&mut self, packet_id: u32) -> (accepted: bool)
        ensures
            accepted == old(self).accepts(packet_id),
            *final(self) == old(self).after(packet_id),
            old(self).offered(packet_id, final(self)),
    {
        if packet_id == 0 {
            return false;
        }
        if packet_id > self.highest {
            let shift: u32 = packet_id - self.highest;
            let ghost before = *self;
            if shift >= 64 {
                self.seen = 1;
            } else {
                self.seen = (self.seen << (shift as u64)) | 1;
            }
            self.highest = packet_id;
            assert forall|x: u32| #[trigger] self.holds(x) <==> (x == packet_id || before.holds(x))
                && x <= self.highest && self.highest - x < 64 by {
                if x <= self.highest && self.highest - x < 64 {
                    let k = (self.highest - x) as u64;
                    if shift >= 64 {
                        bits::lemma_bit_set(before.seen, 0, k);
                    } else {
                        bits::lemma_bit_shift(before.seen, shift as u64, k);
                        if k >= shift {
                            assert(before.highest - x == k - shift);
                        }
                    }
                }
            }
            return true;
        }
        let behind: u32 = self.highest - packet_id;
        if behind >= 64 {
            return false;
        }
        let mask: u64 = 1u64 << (behind as u64);
        proof {
            bits::lemma_bit_set(self.seen, behind as u64, 0);
        }
        if self.seen & mask != 0 {
            return false;
        }
        let ghost before = *self;
        self.seen = self.seen | mask;
        assert forall|x: u32| #[trigger] self.holds(x) <==> (x == packet_id || before.holds(x)) && x
            <= self.highest && self.highest - x < 64 by {
            if x <= self.highest && self.highest - x < 64 {
                bits::lemma_bit_set(before.seen, behind as u64, (self.highest - x) as u64);
            }
        }
        true
    }
}

/// Whether `windows` are the states of a replay window to which `ids` are
/// offered in turn.
pub open spec fn window_run(windows: Seq<ReplayWindow>, ids: Seq<u32>) -> bool {
    &&& windows.len() == ids.len() + 1
    &&& forall|i: int|
        #![trigger windows[i]]
        0 <= i < ids.len() ==> windows[i].offered(ids[i], &windows[i + 1])
}

proof fn lemma_window_remembers(windows: Seq<ReplayWindow>, ids: Seq<u32>, i: int, j: int)
    requires
        window_run(windows, ids),
        0 <= i < j < windows.len(),
        windows[i].accepts(ids[i]),
    ensures
        ids[i] <= windows[j].highest,
        windows[j].holds(ids[i]) || windows[j].highest - ids[i] >= 64,
    decreases j - i,
{
    assert(windows[j - 1].offered(ids[j - 1], &windows[j]));
    if j == i + 1 {
        assert(windows[j].holds(ids[i]) || true);
    } else {
        lemma_window_remembers(windows, ids, i, j - 1);
        assert(windows[j].holds(ids[i]) || true);
    }
}

/// A packet id that the window has accepted is never accepted again, however
/// many others come in between.
pub proof fn a_packet_id_is_accepted_at_most_once(
    windows: Seq<ReplayWindow>,
    ids: Seq<u32>,
    i: int,
    j: int,
)
    requires
        window_run(windows, ids),
        0 <= i < j < ids.len(),
        ids[i] == ids[j],
        windows[i].accepts(ids[i]),
    ensures
        !windows[j].accepts(ids[j]),
{
    lemma_window_remembers(windows, ids, i, j);
}

/// The payload OpenVPN uses to say "still here" inside the data channel.
pub const PING: [u8; 16] = [
    0x2a,
    0x18,
    0x7b,
    0xf3,
    0x64,
    0x1e,
    0xb4,
    0xcb,
    0x07,
    0xed,
    0x2d,
    0x0a,
    0x98,
    0x1f,
    0xc7,
    0x48,
];

/// What an established data channel holds.
#[verifier::ext_equal]
pub struct DataState {
    pub cipher: DataCipher,
    pub seal_key: Seq<u8>,
    pub open_key: Seq<u8>,
    pub seal_iv: Seq<u8>,
    pub open_iv: Seq<u8>,
    pub peer_id: Option<u32>,
    pub key_id: u8,
    pub next_packet_id: u32,
    pub replay: ReplayWindow,
}

/// The header in front of a data packet: the opcode and key id, the peer id
/// where the session has one, and the packet id. It is what the tag covers
/// besides the ciphertext.
pub open spec fn data_header(peer_id: Option<u32>, key_id: u8, packet_id: u32) -> Seq<u8> {
    match peer_id {
        Some(peer_id) => seq![72u8 | key_id] + bytes::be_bytes(
            (peer_id % 0x100_0000) as nat,
            3,
        ) + bytes::be_bytes(packet_id as nat, 4),
        None => seq![48u8 | key_id] + bytes::be_bytes(packet_id as nat, 4),
    }
}

/// The nonce of one packet: its id, then the implicit half.
pub open spec fn data_nonce(packet_id: u32, implicit: Seq<u8>) -> Seq<u8> {
    bytes::be_bytes(packet_id as nat, 4) + implicit
}

/// One sealed packet: the header, the tag, then the ciphertext that the tag
/// covers.
pub open spec fn sealed_packet(st: DataState, packet: Seq<u8>) -> Seq<u8> {
    let header = data_header(st.peer_id, st.key_id, st.next_packet_id);
    let nonce = data_nonce(st.next_packet_id, st.seal_iv);
    let body = ciphered(st.cipher, st.seal_key, nonce, packet);
    header + aead_tag(st.cipher, st.seal_key, nonce, header, body) + body
}

/// How long the header of a data packet is, by its opcode.
pub open spec fn data_header_len(opcode: u8) -> Option<int> {
    if opcode == P_DATA_V2 {
        Some(8)
    } else if opcode == P_DATA_V1 {
        Some(5)
    } else {
        None
    }
}

/// What a received data packet turns out to hold.
pub enum Opened {
    /// Why the packet is not one that the peer sealed.
    Refused(Seq<char>),
    /// An authentic packet, by its id, and the inner packet in it.
    Authentic(u32, Seq<u8>),
}

/// Reads and authenticates one data packet.
pub open spec fn opened_packet(st: DataState, packet: Seq<u8>) -> Opened {
    if packet.len() == 0 {
        Opened::Refused("an OpenVPN data packet was empty"@)
    } else {
        match data_header_len(packet[0] >> 3) {
            None => Opened::Refused(
                "opcode "@ + text::decimal((packet[0] >> 3) as nat)
                    + " is not an OpenVPN data packet"@,
            ),
            Some(n) => {
                if packet.len() < n + TAG_LEN {
                    Opened::Refused("an OpenVPN data packet was truncated"@)
                } else {
                    let header = packet.take(n);
                    let packet_id = bytes::be_value(header.skip(n - 4)) as u32;
                    let tag = packet.subrange(n, n + 16);
                    let body = packet.skip(n + 16);
                    let nonce = data_nonce(packet_id, st.open_iv);
                    if can_open(st.cipher, body.len()) && tag == aead_tag(
                        st.cipher,
                        st.open_key,
                        nonce,
                        header,
                        body,
                    ) {
                        Opened::Authentic(
                            packet_id,
                            ciphered(st.cipher, st.open_key, nonce, body),
                        )
                    } else {
                        Opened::Refused("an OpenVPN data packet did not authenticate"@)
                    }
                }
            },
        }
    }
}

impl DataState {
    /// The channel at the other end: the same keys the other way round.
    pub open spec fn turned(self) -> DataState {
        DataState {
            seal_key: self.open_key,
            open_key: self.seal_key,
            seal_iv: self.open_iv,
            open_iv: self.seal_iv,
            ..self
        }
    }
}

/// What opening a packet comes to: what the channel holds then, and the packet
/// inside, where it is new and no keepalive.
pub open spec fn opening(st: DataState, packet: Seq<u8>) -> (
    DataState,
    Result<Option<Seq<u8>>, Seq<char>>,
) {
    match opened_packet(st, packet) {
        Opened::Refused(why) => (st, Err(why)),
        Opened::Authentic(packet_id, inner) => (
            DataState { replay: st.replay.after(packet_id), ..st },
            Ok(
                if st.replay.accepts(packet_id) && inner != PING@ {
                    Some(inner)
                } else {
                    None
                },
            ),
        ),
    }
}

pub const P_DATA_V1: u8 = 6;

pub const P_DATA_V2: u8 = 9;

/// The established data channel: keys, packet ids and replay state.
pub struct DataChannel {
    seal: Sealer,
    open: Sealer,
    seal_iv: [u8; 8],
    open_iv: [u8; 8],
    peer_id: Option<u32>,
    key_id: u8,
    next_packet_id: u32,
    replay: ReplayWindow,
}

impl View for DataChannel {
    type V = DataState;

    closed spec fn view(&self) -> DataState {
        DataState {
            cipher: self.seal.cipher,
            seal_key: self.seal.key@,
            open_key: self.open.key@,
            seal_iv: self.seal_iv@,
            open_iv: self.open_iv@,
            peer_id: self.peer_id,
            key_id: self.key_id,
            next_packet_id: self.next_packet_id,
            replay: self.replay,
        }
    }
}

/// The channel that the negotiated cipher makes of derived key material. The
/// client sends with key 0 and receives with key 1, and packet id 0 is never
/// sent.
pub open spec fn new_channel(
    material: Seq<u8>,
    cipher: DataCipher,
    peer_id: Option<u32>,
    key_id: u8,
) -> DataState {
    DataState {
        cipher,
        seal_key: material.subrange(0, cipher.key_size() as int),
        open_key: material.subrange(128, 128 + cipher.key_size() as int),
        seal_iv: material.subrange(64, 72),
        open_iv: material.subrange(192, 200),
        peer_id,
        key_id,
        next_packet_id: 1,
        replay: ReplayWindow { highest: 0, seen: 0 },
    }
}

impl DataChannel {
    /// Both directions use one cipher, with keys of its size.
    pub closed spec fn wf(&self) -> bool {
        self.seal.wf() && self.open.wf() && self.seal.cipher == self.open.cipher
    }

    /// Installs the negotiated cipher over derived key material.
    ///
    /// The client sends with key 0 and receives with key 1. That is the
    /// opposite of what the direction handling in OpenVPN's own source suggests
    /// for a client; only this combination authenticates real inbound packets.
    pub fn new(
        material: &KeyMaterial,
        cipher: DataCipher,
        peer_id: Option<u32>,
        key_id: u8,
    ) -> (r: Result<Self, String>)
        ensures
            r matches Ok(channel) && channel.wf() && channel@ == new_channel(
                material.0@,
                cipher,
                peer_id,
                key_id,
            ),
    {
        let size: usize = cipher.key_len();
        let seal = match Sealer::new(cipher, material.cipher_key(0, size)) {
            Ok(seal) => seal,
            Err(message) => return Err(message),
        };
        let open = match Sealer::new(cipher, material.cipher_key(1, size)) {
            Ok(open) => open,
            Err(message) => return Err(message),
        };
        Ok(
            DataChannel {
                seal,
                open,
                seal_iv: material.implicit_iv(0),
                open_iv: material.implicit_iv(1),
                peer_id,
                key_id,
                // Packet id 0 is never sent: the replay window treats it as
                // invalid so that an uninitialised counter cannot be accepted.
                next_packet_id: 1,
                replay: ReplayWindow::new(),
            },
        )
    }

    /// The same channel seen from the other end: what this end seals, the other
    /// opens, and the other way round.
    pub fn mirrored(self) -> (r: Self)
        requires
            self.wf(),
        ensures
            r.wf(),
            r@ == self@.turned(),
    {
        DataChannel {
            seal: self.open,
            open: self.seal,
            seal_iv: self.open_iv,
            open_iv: self.seal_iv,
            peer_id: self.peer_id,
            key_id: self.key_id,
            next_packet_id: self.next_packet_id,
            replay: self.replay,
        }
    }

    fn nonce(implicit: &[u8; 8], packet_id: u32) -> (nonce: [u8; 12])
        ensures
            nonce@ == data_nonce(packet_id, implicit@),
    {
        let mut out = bytes::to_be(packet_id as u64, 4);
        out.extend_from_slice(implicit.as_slice());
        proof {
            bytes::lemma_be_bytes_len(packet_id as nat, 4);
            assert(out@ =~= data_nonce(packet_id, implicit@));
        }
        bytes::filled([0u8; 12], out.as_slice())
    }

    /// Wraps one inner IP packet for the wire.
    ///
    /// The layout is header, packet id, authentication tag, ciphertext -- the
    /// tag comes before the ciphertext it covers, which is the detail most
    /// easily got backwards. The packet id is spent even where the cipher
    /// refuses the packet.
    pub fn seal(&mut self, packet: &[u8]) -> (r: Result<Vec<u8>, String>)
        requires
            old(self).wf(),
        ensures
            final(self).wf(),
            final(self)@ == (DataState { next_packet_id: final(self)@.next_packet_id, ..old(self)@ }),
            old(self)@.next_packet_id == u32::MAX ==> final(self)@ == old(self)@ && (r matches Err(
                message,
            ) && message@
                == "this OpenVPN session has sent as many packets as its keys allow and has to be renegotiated"@),
            old(self)@.next_packet_id < u32::MAX ==> {
                &&& final(self)@.next_packet_id == old(self)@.next_packet_id + 1
                &&& r is Ok <==> can_seal(old(self)@.cipher, packet@.len())
                &&& r matches Ok(framed) ==> framed@ == sealed_packet(old(self)@, packet@)
                &&& r matches Err(message) ==> message@
                    == "could not encrypt an OpenVPN data packet"@
            },
    {
        let packet_id: u32 = self.next_packet_id;
        if packet_id == u32::MAX {
            return Err(
                "this OpenVPN session has sent as many packets as its keys allow and has to be renegotiated".to_owned(),
            );
        }
        self.next_packet_id = packet_id + 1;
        let mut header: Vec<u8> = Vec::new();
        match self.peer_id {
            Some(peer_id) => {
                header.push(72u8 | self.key_id);
                let low = bytes::to_be((peer_id % 0x100_0000) as u64, 3);
                header.extend_from_slice(low.as_slice());
                proof {
                    bytes::lemma_be_bytes_len((peer_id % 0x100_0000) as nat, 3);
                }
            },
            None => header.push(48u8 | self.key_id),
        }
        let id = bytes::to_be(packet_id as u64, 4);
        header.extend_from_slice(id.as_slice());
        proof {
            bytes::lemma_be_bytes_len(packet_id as nat, 4);
            assert(header@ =~= data_header(self@.peer_id, self@.key_id, packet_id));
        }
        let mut body: Vec<u8> = vstd::slice::slice_to_vec(packet);
        let nonce = Self::nonce(&self.seal_iv, packet_id);
        let tag = match self.seal.seal(&nonce, header.as_slice(), &mut body) {
            Ok(tag) => tag,
            Err(message) => return Err(message),
        };
        let mut framed: Vec<u8> = Vec::new();
        framed.extend_from_slice(header.as_slice());
        framed.extend_from_slice(tag.as_slice());
        framed.extend_from_slice(body.as_slice());
        assert(framed@ =~= sealed_packet(old(self)@, packet@));
        Ok(framed)
    }

    /// Unwraps one data packet, returning the inner IP packet.
    ///
    /// A keepalive is reported as `None` rather than passed on, and so is a
    /// packet that fails its replay check.
    pub fn open(&mut self, packet: &[u8]) -> (r: Result<Option<Vec<u8>>, String>)
        requires
            old(self).wf(),
        ensures
            final(self).wf(),
            final(self)@ == opening(old(self)@, packet@).0,
            match opening(old(self)@, packet@).1 {
                Err(why) => r matches Err(message) && message@ == why,
                Ok(None) => r matches Ok(None),
                Ok(Some(inner)) => r matches Ok(Some(body)) && body@ == inner,
            },
    {
        if packet.len() == 0 {
            return Err("an OpenVPN data packet was empty".to_owned());
        }
        let opcode: u8 = packet[0] >> 3;
        let header_len: usize = if opcode == P_DATA_V2 {
            8
        } else if opcode == P_DATA_V1 {
            5
        } else {
            return Err(
                text::concat3(
                    "opcode ",
                    text::decimal_text(opcode as u64).as_str(),
                    " is not an OpenVPN data packet",
                ),
            );
        };
        if packet.len() < header_len + TAG_LEN {
            return Err("an OpenVPN data packet was truncated".to_owned());
        }
        let header = slice_subrange(packet, 0, header_len);
        let packet_id: u32 = bytes::from_be(packet, header_len - 4, header_len) as u32;
        let tag = bytes::filled(
            [0u8; 16],
            slice_subrange(packet, header_len, header_len + TAG_LEN),
        );
        let mut body: Vec<u8> = vstd::slice::slice_to_vec(
            slice_subrange(packet, header_len + TAG_LEN, packet.len()),
        );
        let nonce = Self::nonce(&self.open_iv, packet_id);
        proof {
            let n = header_len as int;
            assert(header@ =~= packet@.take(n));
            assert(header@.skip(n - 4) =~= packet@.subrange(n - 4, n));
            assert(body@ =~= packet@.skip(n + 16));
            bytes::lemma_byte_ranges();
        }
        match self.open.open(&nonce, header, &tag, &mut body) {
            Ok(_) => {},
            Err(message) => return Err(message),
        }
        // The replay check runs after authentication so that an unauthenticated
        // packet cannot advance the window and squeeze out real traffic.
        if !self.replay.accept(packet_id) {
            return Ok(None);
        }
        if bytes::constant_time_eq(body.as_slice(), PING.as_slice()) {
            return Ok(None);
        }
        Ok(Some(body))
    }

    /// A keepalive, which servers that push `ping` expect to see when the
    /// tunnel is otherwise idle.
    pub fn keepalive(&mut self) -> (r: Result<Vec<u8>, String>)
        requires
            old(self).wf(),
        ensures
            final(self).wf(),
            final(self)@ == (DataState { next_packet_id: final(self)@.next_packet_id, ..old(self)@ }),
            r is Ok <==> old(self)@.next_packet_id < u32::MAX,
            r matches Ok(framed) ==> framed@ == sealed_packet(old(self)@, PING@)
                && final(self)@.next_packet_id == old(self)@.next_packet_id + 1,
            r matches Err(message) ==> final(self)@ == old(self)@ && message@
                == "this OpenVPN session has sent as many packets as its keys allow and has to be renegotiated"@,
    {
        self.seal(PING.as_slice())
    }

    pub fn key_id(&self) -> (key_id: u8)
        ensures
            key_id == self@.key_id,
    {
        self.key_id
    }
}

proof fn lemma_opcode_bits(key_id: u8)
    by (bit_vector)
    requires
        key_id < 8,
    ensures
        (72u8 | key_id) >> 3 == 9,
        (48u8 | key_id) >> 3 == 6,
{
}

/// A packet that one end seals is opened by the other end, which holds the same
/// keys the other way round, unless that end has already seen its packet id.
pub proof fn a_sealed_packet_opens_at_the_other_end(
    sender: DataState,
    receiver: DataState,
    packet: Seq<u8>,
)
    requires
        sender.key_id < 8,
        can_seal(sender.cipher, packet.len()),
        receiver.cipher == sender.cipher,
        receiver.open_key == sender.seal_key,
        receiver.open_iv == sender.seal_iv,
    ensures
        opened_packet(receiver, sealed_packet(sender, packet)) == Opened::Authentic(
            sender.next_packet_id,
            packet,
        ),
{
    let header = data_header(sender.peer_id, sender.key_id, sender.next_packet_id);
    let id = bytes::be_bytes(sender.next_packet_id as nat, 4);
    let nonce = data_nonce(sender.next_packet_id, sender.seal_iv);
    let body = ciphered(sender.cipher, sender.seal_key, nonce, packet);
    let tag = aead_tag(sender.cipher, sender.seal_key, nonce, header, body);
    let framed = sealed_packet(sender, packet);
    lemma_opcode_bits(sender.key_id);
    bytes::lemma_be_bytes_len(sender.next_packet_id as nat, 4);
    bytes::lemma_byte_ranges();
    bytes::lemma_be_round_trip(sender.next_packet_id as nat, 4);
    if let Some(peer_id) = sender.peer_id {
        bytes::lemma_be_bytes_len((peer_id % 0x100_0000) as nat, 3);
    }
    let n = header.len() as int;
    assert(tag.len() == 16);
    assert(framed[0] == header[0]);
    assert(framed.take(n) =~= header);
    assert(header.skip(n - 4) =~= id);
    assert(framed.subrange(n, n + 16) =~= tag);
    assert(framed.skip(n + 16) =~= body);
    ciphered_twice_is_the_data(sender.cipher, sender.seal_key, nonce, packet);
}

/// What a window has accepted it does not accept again.
pub(crate) proof fn lemma_not_again(window: ReplayWindow, id: u32)
    requires
        window.accepts(id),
    ensures
        !window.after(id).accepts(id),
{
    let next = window.after(id);
    let gap = (next.highest - id) as u64;
    if id > window.highest {
        if id - window.highest < 64 {
            bits::lemma_bit_shift(window.seen, (id - window.highest) as u64, 0);
        } else {
            bits::lemma_bit_set(window.seen, 0, 0);
        }
    } else {
        bits::lemma_bit_set(window.seen, gap, gap);
    }
}

/// A packet that was changed on its way is refused, and costs nothing: the
/// packet itself still opens afterwards, once. It holds wherever the cipher gives
/// the changed header another tag.
pub proof fn a_changed_packet_is_refused_and_costs_nothing(
    sender: DataState,
    receiver: DataState,
    packet: Seq<u8>,
    at: int,
    other: u8,
)
    requires
        sender.key_id < 8,
        sender.peer_id is Some,
        can_seal(sender.cipher, packet.len()),
        receiver.cipher == sender.cipher,
        receiver.open_key == sender.seal_key,
        receiver.open_iv == sender.seal_iv,
        receiver.replay.accepts(sender.next_packet_id),
        1 <= at < 4,
        ({
            let header = data_header(sender.peer_id, sender.key_id, sender.next_packet_id);
            let nonce = data_nonce(sender.next_packet_id, sender.seal_iv);
            let body = ciphered(sender.cipher, sender.seal_key, nonce, packet);
            aead_tag(sender.cipher, sender.seal_key, nonce, header.update(at, other), body)
                != aead_tag(sender.cipher, sender.seal_key, nonce, header, body)
        }),
    ensures
        ({
            let framed = sealed_packet(sender, packet);
            let (after_changed, refused) = opening(receiver, framed.update(at, other));
            let (after_first, first) = opening(after_changed, framed);
            let inner = if packet == PING@ {
                None
            } else {
                Some(packet)
            };
            &&& refused is Err
            &&& after_changed == receiver
            &&& first == Ok::<Option<Seq<u8>>, Seq<char>>(inner)
            &&& opening(after_first, framed).1 == Ok::<Option<Seq<u8>>, Seq<char>>(None)
        }),
{
    let header = data_header(sender.peer_id, sender.key_id, sender.next_packet_id);
    let id = bytes::be_bytes(sender.next_packet_id as nat, 4);
    let nonce = data_nonce(sender.next_packet_id, sender.seal_iv);
    let body = ciphered(sender.cipher, sender.seal_key, nonce, packet);
    let tag = aead_tag(sender.cipher, sender.seal_key, nonce, header, body);
    let framed = sealed_packet(sender, packet);
    let changed = framed.update(at, other);
    lemma_opcode_bits(sender.key_id);
    bytes::lemma_be_bytes_len(sender.next_packet_id as nat, 4);
    bytes::lemma_be_bytes_len((sender.peer_id->0 % 0x100_0000) as nat, 3);
    bytes::lemma_byte_ranges();
    bytes::lemma_be_round_trip(sender.next_packet_id as nat, 4);
    assert(header.len() == 8);
    assert(tag.len() == 16);
    assert(changed[0] == framed[0] && framed[0] == header[0]);
    assert(changed.take(8) =~= header.update(at, other));
    assert(changed.take(8).skip(4) =~= id);
    assert(changed.subrange(8, 24) =~= tag);
    assert(changed.skip(24) =~= body);
    a_refused_packet_costs_nothing(sender, receiver, packet, changed);
}

/// Whatever is refused costs nothing, so a forger cannot use up a packet id: the
/// packet that was sealed still opens afterwards, and opens once.
pub proof fn a_refused_packet_costs_nothing(
    sender: DataState,
    receiver: DataState,
    packet: Seq<u8>,
    forged: Seq<u8>,
)
    requires
        sender.key_id < 8,
        can_seal(sender.cipher, packet.len()),
        receiver.cipher == sender.cipher,
        receiver.open_key == sender.seal_key,
        receiver.open_iv == sender.seal_iv,
        receiver.replay.accepts(sender.next_packet_id),
        opened_packet(receiver, forged) is Refused,
    ensures
        ({
            let framed = sealed_packet(sender, packet);
            let (after_forged, refused) = opening(receiver, forged);
            let (after_first, first) = opening(after_forged, framed);
            let inner = if packet == PING@ {
                None
            } else {
                Some(packet)
            };
            &&& refused is Err
            &&& after_forged == receiver
            &&& first == Ok::<Option<Seq<u8>>, Seq<char>>(inner)
            &&& opening(after_first, framed).1 == Ok::<Option<Seq<u8>>, Seq<char>>(None)
        }),
{
    let framed = sealed_packet(sender, packet);
    a_sealed_packet_opens_at_the_other_end(sender, receiver, packet);
    let seen = opening(receiver, framed).0;
    a_sealed_packet_opens_at_the_other_end(sender, seen, packet);
    lemma_not_again(receiver.replay, sender.next_packet_id);
}

/// Two ends of a session that has just come up: a packet whose peer id was
/// changed on its way is refused, and the packet itself still opens afterwards,
/// once. It holds wherever the cipher gives the changed header another tag.
pub proof fn fresh_ends_refuse_a_changed_packet(
    material: Seq<u8>,
    cipher: DataCipher,
    peer_id: u32,
    key_id: u8,
    packet: Seq<u8>,
    at: int,
    other: u8,
)
    requires
        key_id < 8,
        can_seal(cipher, packet.len()),
        1 <= at < 4,
        ({
            let client = new_channel(material, cipher, Some(peer_id), key_id);
            let header = data_header(Some(peer_id), key_id, 1);
            let nonce = data_nonce(1, client.seal_iv);
            let body = ciphered(cipher, client.seal_key, nonce, packet);
            aead_tag(cipher, client.seal_key, nonce, header.update(at, other), body) != aead_tag(
                cipher,
                client.seal_key,
                nonce,
                header,
                body,
            )
        }),
    ensures
        ({
            let client = new_channel(material, cipher, Some(peer_id), key_id);
            let server = client.turned();
            let framed = sealed_packet(client, packet);
            let (after_changed, refused) = opening(server, framed.update(at, other));
            let (after_first, first) = opening(after_changed, framed);
            let inner = if packet == PING@ {
                None
            } else {
                Some(packet)
            };
            &&& refused is Err
            &&& after_changed == server
            &&& first == Ok::<Option<Seq<u8>>, Seq<char>>(inner)
            &&& opening(after_first, framed).1 == Ok::<Option<Seq<u8>>, Seq<char>>(None)
        }),
{
    let client = new_channel(material, cipher, Some(peer_id), key_id);
    a_changed_packet_is_refused_and_costs_nothing(client, client.turned(), packet, at, other);
}

proof fn lemma_opcode_sum(key_id: u8)
    by (bit_vector)
    requires
        key_id < 8,
    ensures
        72u8 | key_id == (72 + key_id) as u8,
        48u8 | key_id == (48 + key_id) as u8,
{
}

/// How a sealed packet lies on the wire: one byte for the opcode and the key
/// generation, three for the peer id where there is one, four for the packet id,
/// sixteen of tag, and as many as the packet has.
pub proof fn a_sealed_packet_is_laid_out(st: DataState, packet: Seq<u8>)
    requires
        st.key_id < 8,
    ensures
        ({
            let framed = sealed_packet(st, packet);
            match st.peer_id {
                Some(peer) => {
                    &&& framed.len() == packet.len() + 24
                    &&& framed[0] == 72 + st.key_id
                    &&& framed[1] == peer / 0x1_0000 % 256
                    &&& framed[2] == peer / 0x100 % 256
                    &&& framed[3] == peer % 256
                    &&& framed[4] * 0x100_0000 + framed[5] * 0x1_0000 + framed[6] * 0x100
                        + framed[7] == st.next_packet_id
                },
                None => {
                    &&& framed.len() == packet.len() + 21
                    &&& framed[0] == 48 + st.key_id
                    &&& framed[1] * 0x100_0000 + framed[2] * 0x1_0000 + framed[3] * 0x100
                        + framed[4] == st.next_packet_id
                },
            }
        }),
{
    lemma_opcode_sum(st.key_id);
    let framed = sealed_packet(st, packet);
    let header = data_header(st.peer_id, st.key_id, st.next_packet_id);
    let id = bytes::be_bytes(st.next_packet_id as nat, 4);
    lemma_four_bytes(st.next_packet_id);
    match st.peer_id {
        Some(peer) => {
            let low = peer % 0x100_0000;
            let three = bytes::be_bytes(low as nat, 3);
            lemma_three_bytes(peer);
            assert(header =~= seq![72u8 | st.key_id] + three + id);
            assert(header.len() == 8);
            assert(framed[0] == header[0] && framed[1] == header[1] && framed[2] == header[2]);
            assert(framed[3] == header[3] && framed[4] == header[4] && framed[5] == header[5]);
            assert(framed[6] == header[6] && framed[7] == header[7]);
            assert(header[1] == three[0] && header[2] == three[1] && header[3] == three[2]);
            assert(header[4] == id[0] && header[5] == id[1] && header[6] == id[2] && header[7]
                == id[3]);
        },
        None => {
            assert(header =~= seq![48u8 | st.key_id] + id);
            assert(header.len() == 5);
            assert(framed[0] == header[0] && framed[1] == header[1] && framed[2] == header[2]);
            assert(framed[3] == header[3] && framed[4] == header[4]);
            assert(header[1] == id[0] && header[2] == id[1] && header[3] == id[2] && header[4]
                == id[3]);
        },
    }
}

proof fn lemma_four_bytes(n: u32)
    ensures
        ({
            let id = bytes::be_bytes(n as nat, 4);
            &&& id.len() == 4
            &&& id[0] * 0x100_0000 + id[1] * 0x1_0000 + id[2] * 0x100 + id[3] == n
        }),
{
    reveal_with_fuel(bytes::be_bytes, 5);
    let m = n as nat;
    assert(m / 256 / 256 == m / 0x1_0000);
    assert(m / 256 / 256 / 256 == m / 0x100_0000);
}

proof fn lemma_three_bytes(peer: u32)
    ensures
        ({
            let three = bytes::be_bytes((peer % 0x100_0000) as nat, 3);
            &&& three.len() == 3
            &&& three[0] == peer / 0x1_0000 % 256
            &&& three[1] == peer / 0x100 % 256
            &&& three[2] == peer % 256
        }),
{
    reveal_with_fuel(bytes::be_bytes, 4);
    let low = (peer % 0x100_0000) as nat;
    assert(low / 256 / 256 == low / 0x1_0000);
    assert(low % 256 == peer % 256);
    assert(low / 256 % 256 == peer / 0x100 % 256);
    assert(low / 0x1_0000 % 256 == peer / 0x1_0000 % 256);
}

/// The two ends of a channel are told apart by the halves of the derived
/// material: this end seals with the first and opens with the second, and the
/// first packet is number one.
pub proof fn the_client_seals_with_the_first_half(
    material: Seq<u8>,
    cipher: DataCipher,
    peer_id: Option<u32>,
    key_id: u8,
)
    requires
        material.len() == 256,
    ensures
        ({
            let channel = new_channel(material, cipher, peer_id, key_id);
            let size = if cipher == DataCipher::Aes128Gcm {
                16int
            } else {
                32int
            };
            &&& channel.seal_key == material.take(128).take(size)
            &&& channel.seal_iv == material.take(128).subrange(64, 72)
            &&& channel.open_key == material.skip(128).take(size)
            &&& channel.open_iv == material.skip(128).subrange(64, 72)
            &&& channel.next_packet_id == 1
            &&& channel.peer_id == peer_id && channel.key_id == key_id && channel.cipher == cipher
            &&& !channel.replay.accepts(0)
            &&& forall|id: u32| id > 0 ==> #[trigger] channel.replay.accepts(id)
        }),
{
    let channel = new_channel(material, cipher, peer_id, key_id);
    let size = cipher.key_size() as int;
    assert(channel.seal_key =~= material.take(128).take(size));
    assert(channel.seal_iv =~= material.take(128).subrange(64, 72));
    assert(channel.open_key =~= material.skip(128).take(size));
    assert(channel.open_iv =~= material.skip(128).subrange(64, 72));
}

/// Packets may overtake one another: one that was not seen yet is still taken
/// after another, as long as it is less than 64 behind the newest.
pub proof fn a_late_packet_is_taken_if_it_is_new(window: ReplayWindow, early: u32, late: u32)
    requires
        window.accepts(early),
        window.accepts(late),
        early != late,
    ensures
        ({
            let next = window.after(early);
            let newest = if early > window.highest {
                early
            } else {
                window.highest
            };
            next.accepts(late) <==> late > newest || newest - late < 64
        }),
{
    let next = window.after(early);
    if late <= next.highest && next.highest - late < 64 {
        let k = (next.highest - late) as u64;
        if early > window.highest {
            if early - window.highest < 64 {
                bits::lemma_bit_shift(window.seen, (early - window.highest) as u64, k);
            } else {
                bits::lemma_bit_set(window.seen, 0, k);
            }
        } else {
            bits::lemma_bit_set(window.seen, (window.highest - early) as u64, k);
        }
    }
}

/// The derivation of keys as TLS 1.0 has it. A secret of even length is cut in
/// two; either half makes a stream under its own hash, and the two are combined
/// byte by byte. A stream's first block is the code of the seed's code and the
/// seed, and what is asked for is the front of the stream.
pub proof fn a_stream_begins_with_its_first_block(
    secret: Seq<u8>,
    seed: Seq<u8>,
    length: nat,
    shorter: nat,
    i: int,
)
    requires
        secret.len() % 2 == 0,
        0 <= i < 16,
        16 <= length,
        i < shorter <= length,
    ensures
        ({
            let left = secret.take(secret.len() as int / 2);
            let right = secret.skip(secret.len() as int / 2);
            let a = hmac_md5(left, hmac_md5(left, seed)@ + seed)@;
            let b = hmac_sha1(right, hmac_sha1(right, seed)@ + seed)@;
            &&& tls1_prf_bytes(secret, seed, length).len() == length
            &&& tls1_prf_bytes(secret, seed, length)[i] == a[i] ^ b[i]
            &&& tls1_prf_bytes(secret, seed, shorter)[i] == tls1_prf_bytes(secret, seed, length)[i]
        }),
{
    let half = secret.len() as int / 2;
    let left = secret.take(half);
    let right = secret.skip(half);
    assert((secret.len() + 1) / 2 == half);
    lemma_first_block(Keyed::Md5, left, seed, length, i);
    lemma_first_block(Keyed::Sha1, right, seed, length, i);
    lemma_first_block(Keyed::Md5, left, seed, shorter, i);
    lemma_first_block(Keyed::Sha1, right, seed, shorter, i);
}

proof fn lemma_first_block(keyed: Keyed, secret: Seq<u8>, seed: Seq<u8>, length: nat, i: int)
    requires
        0 <= i < keyed.size(),
        i < length,
    ensures
        p_hash_bytes(keyed, secret, seed, length)[i] == keyed.tag(
            secret,
            keyed.tag(secret, seed) + seed,
        )[i],
{
    let size = keyed.size() as int;
    let n = ((length + size - 1) / size) as nat;
    assert(n >= 1) by (nonlinear_arith)
        requires
            length >= 1,
            size >= 1,
            n == (length + size - 1) / size,
    ;
    assert(n * size >= length) by (nonlinear_arith)
        requires
            length >= 1,
            size >= 1,
            n == (length + size - 1) / size,
    ;
    lemma_blocks_front(keyed, secret, seed, n, i);
}

proof fn lemma_blocks_front(keyed: Keyed, secret: Seq<u8>, seed: Seq<u8>, n: nat, i: int)
    requires
        n >= 1,
        0 <= i < keyed.size(),
    ensures
        p_hash_blocks(keyed, secret, seed, n).len() == n * keyed.size(),
        p_hash_blocks(keyed, secret, seed, n)[i] == keyed.tag(
            secret,
            keyed.tag(secret, seed) + seed,
        )[i],
    decreases n,
{
    let block = keyed.tag(secret, p_hash_chain(keyed, secret, seed, n) + seed);
    assert(block.len() == keyed.size());
    if n == 1 {
        assert(p_hash_blocks(keyed, secret, seed, 0) =~= Seq::<u8>::empty());
        assert(p_hash_blocks(keyed, secret, seed, 1) =~= block);
    } else {
        lemma_blocks_front(keyed, secret, seed, (n - 1) as nat, i);
        assert((n - 1) * keyed.size() + keyed.size() == n * keyed.size()) by (nonlinear_arith);
        assert((n - 1) * keyed.size() >= keyed.size()) by (nonlinear_arith)
            requires
                n >= 2,
        ;
    }
}

} // verus!
