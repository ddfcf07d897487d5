//! The secure channel between two peers: an ephemeral Diffie-Hellman
//! handshake, the derivation of a symmetric key from the shared secret, and
//! the sealing of a payload into an envelope of nonce and ciphertext.
//!
//! The key derivation is weak: it tiles the eight bytes of the shared secret
//! to the length of a key, and no key-derivation function stands behind it.
//! The handshake is not authenticated, and protects against the replay of
//! what was captured on an earlier connection only.

use crate::codec::{parse_request, parse_response, request_bytes, response_bytes};
use crate::messages::{HorcrustMsgRequest, HorcrustMsgResponse, RequestModel, ResponseModel};
use crate::wire::{
    bytes_field, lemma_parse_bytes_field, lemma_parse_bytes_field_canonical, parse_bytes_field,
    put_bytes_field, take_bytes_field, TAG_1_BYTES, TAG_2_BYTES,
};
use aes_gcm::aead::{Aead, AeadCore, KeyInit, OsRng};
use aes_gcm::{Aes256Gcm, Key, Nonce};
use num_bigint::BigUint;
use num_traits::ToPrimitive;
use vstd::arithmetic::power::{lemma_pow_mod_noop, lemma_pow_multiplies, pow};
use vstd::bytes::{spec_u64_from_le_bytes, spec_u64_to_le_bytes, u64_from_le_bytes, u64_to_le_bytes};
use vstd::prelude::*;

verus! {

/// The public prime modulus of the key exchange.
pub const P: u64 = 18446744073709551557;

/// The public generator of the key exchange.
pub const G: u64 = 2;

/// Length of a symmetric key, in bytes.
pub const KEY_LEN: usize = 32;

/// Length of a nonce, in bytes.
pub const NONCE_LEN: usize = 12;

/// Length of the authentication tag that closes a ciphertext, in bytes.
pub const TAG_LEN: usize = 16;

/// Length of a public value on the wire, in bytes.
pub const PUBLIC_KEY_LEN: usize = 8;

/// The most bytes that the cipher seals at once.
pub const MAX_PLAINTEXT_LEN: u64 = 0x10_0000_0000;

/// Why a payload could not be sealed or opened.
#[derive(Clone, Copy, PartialEq, Eq, Debug)]
pub enum ChannelError {
    /// The payload is longer than the cipher seals.
    PayloadTooLarge,
    /// The bytes are not the encoding of an envelope.
    MalformedEnvelope,
    /// The nonce does not have the length that the cipher takes.
    BadNonce,
    /// The ciphertext was not made under this key and nonce.
    AuthenticationFailed,
    /// The payload is not the encoding of the message that was expected.
    MalformedMessage,
}

/// Why a message could not be sent or received.
#[derive(Clone, Copy, PartialEq, Eq, Debug)]
pub enum ConnectionError {
    /// The connection failed, timed out or was closed.
    Transport,
    /// What arrived could not be sealed or opened.
    Channel(ChannelError),
}

/// One end of a connection that sends messages of one kind and receives
/// messages of another. A message is complete when the sender closes its
/// side for writing, so a connection carries one message each way.
pub trait ConnectionHandler<Req, Res> {
    /// Seals `message` and writes it out.
    fn send(&mut self, message: Req) -> Result<(), ConnectionError>;

    /// Reads to the end of what the peer wrote and opens it.
    fn receive(&mut self) -> Result<Res, ConnectionError>;
}

/// `base` to the power `exp`, modulo `n`.
pub open spec fn modpow_spec(base: u64, exp: u64, n: u64) -> int {
    pow(base as int, exp as nat) % (n as int)
}

/// The 32-byte key made of the little-endian bytes of `shared`, four times
/// over.
pub open spec fn tiled_key(shared: u64) -> Seq<u8> {
    Seq::new(32, |i: int| spec_u64_to_le_bytes(shared)[i % 8])
}

/// Whether the cipher seals a payload of `len` bytes.
pub open spec fn sealable(len: nat) -> bool {
    len <= MAX_PLAINTEXT_LEN && len + TAG_LEN <= isize::MAX
}

/// The ciphertext, closed by its tag, that AES-256-GCM makes of `plaintext`
/// under `key` and `nonce`.
pub uninterp spec fn aes256gcm_seal(key: Seq<u8>, nonce: Seq<u8>, plaintext: Seq<u8>) -> Seq<u8>;

/// The plaintext that AES-256-GCM recovers from `ciphertext` under `key` and
/// `nonce`, where the tag authenticates it.
pub uninterp spec fn aes256gcm_open(key: Seq<u8>, nonce: Seq<u8>, ciphertext: Seq<u8>) -> Option<
    Seq<u8>,
>;

/// The encoding of the envelope that holds `nonce` and `ciphertext`.
pub open spec fn envelope_bytes(nonce: Seq<u8>, ciphertext: Seq<u8>) -> Seq<u8> {
    bytes_field(TAG_1_BYTES, nonce) + bytes_field(TAG_2_BYTES, ciphertext)
}

/// The nonce and the ciphertext of the envelope that `s` encodes.
pub open spec fn parse_envelope(s: Seq<u8>) -> Option<(Seq<u8>, Seq<u8>)> {
    match parse_bytes_field(TAG_1_BYTES, s) {
        Some((nonce, after_nonce)) => match parse_bytes_field(TAG_2_BYTES, after_nonce) {
            Some((ciphertext, rest)) => if rest.len() == 0 {
                Some((nonce, ciphertext))
            } else {
                None
            },
            None => None,
        },
        None => None,
    }
}

/// What sealing `plaintext` under `key` and `nonce` gives.
pub open spec fn sealed(key: Seq<u8>, nonce: Seq<u8>, plaintext: Seq<u8>) -> Result<
    Seq<u8>,
    ChannelError,
> {
    if nonce.len() != NONCE_LEN {
        Err(ChannelError::BadNonce)
    } else if !sealable(plaintext.len()) {
        Err(ChannelError::PayloadTooLarge)
    } else {
        Ok(envelope_bytes(nonce, aes256gcm_seal(key, nonce, plaintext)))
    }
}

/// What opening the envelope `bytes` under `key` gives.
pub open spec fn opened(key: Seq<u8>, bytes: Seq<u8>) -> Result<Seq<u8>, ChannelError> {
    match parse_envelope(bytes) {
        Some((nonce, ciphertext)) => if nonce.len() != NONCE_LEN {
            Err(ChannelError::BadNonce)
        } else {
            match aes256gcm_open(key, nonce, ciphertext) {
                Some(plaintext) => Ok(plaintext),
                None => Err(ChannelError::AuthenticationFailed),
            }
        },
        None => Err(ChannelError::MalformedEnvelope),
    }
}

/// What opening the envelope `bytes` under `key` and reading the payload as
/// a request gives.
pub open spec fn opened_request(key: Seq<u8>, bytes: Seq<u8>) -> Result<
    Option<RequestModel>,
    ChannelError,
> {
    match opened(key, bytes) {
        Ok(payload) => match parse_request(payload) {
            Some(request) => Ok(request),
            None => Err(ChannelError::MalformedMessage),
        },
        Err(e) => Err(e),
    }
}

/// What opening the envelope `bytes` under `key` and reading the payload as
/// a response gives.
pub open spec fn opened_response(key: Seq<u8>, bytes: Seq<u8>) -> Result<
    Option<ResponseModel>,
    ChannelError,
> {
    match opened(key, bytes) {
        Ok(payload) => match parse_response(payload) {
            Some(response) => Ok(response),
            None => Err(ChannelError::MalformedMessage),
        },
        Err(e) => Err(e),
    }
}

/// Parsing reads back the nonce and the ciphertext that an envelope holds.
pub proof fn lemma_parse_envelope(nonce: Seq<u8>, ciphertext: Seq<u8>)
    ensures
        parse_envelope(envelope_bytes(nonce, ciphertext)) == Some((nonce, ciphertext)),
{
    let tail = bytes_field(TAG_2_BYTES, ciphertext);
    lemma_parse_bytes_field(TAG_1_BYTES, nonce, tail);
    lemma_parse_bytes_field(TAG_2_BYTES, ciphertext, Seq::empty());
    assert(tail + Seq::<u8>::empty() =~= tail);
}

/// What parses as an envelope is the encoding of its nonce and ciphertext.
pub proof fn lemma_parse_envelope_canonical(s: Seq<u8>)
    ensures
        parse_envelope(s) matches Some((nonce, ciphertext)) ==> s == envelope_bytes(
            nonce,
            ciphertext,
        ),
{
    lemma_parse_bytes_field_canonical(TAG_1_BYTES, s);
    match parse_bytes_field(TAG_1_BYTES, s) {
        Some((nonce, after_nonce)) => {
            lemma_parse_bytes_field_canonical(TAG_2_BYTES, after_nonce);
            match parse_bytes_field(TAG_2_BYTES, after_nonce) {
                Some((ciphertext, rest)) => {
                    if rest.len() == 0 {
                        assert(after_nonce =~= bytes_field(TAG_2_BYTES, ciphertext));
                    }
                },
                None => {},
            }
        },
        None => {},
    }
}

/// Opening what was sealed gives the payload back, for every key, nonce and
/// payload for which the cipher itself decrypts what it encrypted.
pub proof fn lemma_open_what_was_sealed(key: Seq<u8>, nonce: Seq<u8>, plaintext: Seq<u8>)
    requires
        nonce.len() == NONCE_LEN,
        sealable(plaintext.len()),
        aes256gcm_open(key, nonce, aes256gcm_seal(key, nonce, plaintext)) == Some(plaintext),
    ensures
        sealed(key, nonce, plaintext) matches Ok(bytes) && opened(key, bytes) == Ok::<
            Seq<u8>,
            ChannelError,
        >(plaintext),
{
    lemma_parse_envelope(nonce, aes256gcm_seal(key, nonce, plaintext));
}

/// Both sides of a handshake arrive at the same shared secret: the public
/// value of one, raised to the private scalar of the other, is the same
/// number either way round.
pub proof fn lemma_shared_secret_agrees(g: u64, a: u64, b: u64, p: u64)
    requires
        p > 0,
    ensures
        modpow_spec(modpow_spec(g, b, p) as u64, a, p) == modpow_spec(
            modpow_spec(g, a, p) as u64,
            b,
            p,
        ),
{
    let m = p as int;
    let left = pow(g as int, b as nat);
    let right = pow(g as int, a as nat);
    vstd::arithmetic::div_mod::lemma_mod_bound(left, m);
    vstd::arithmetic::div_mod::lemma_mod_bound(right, m);
    lemma_pow_mod_noop(left, a as nat, m);
    lemma_pow_mod_noop(right, b as nat, m);
    lemma_pow_multiplies(g as int, b as nat, a as nat);
    lemma_pow_multiplies(g as int, a as nat, b as nat);
    assert(b as nat * a as nat == a as nat * b as nat) by (nonlinear_arith);
}

/// `base` to the power `exp`, modulo `n`.
pub fn modpow(base: u64, exp: u64, n: u64) -> (out: u64)
    requires
        n > 0,
    ensures
        out == modpow_spec(base, exp, n),
        out < n,
{
    let out = biguint_modpow(base, exp, n);
    proof {
        vstd::arithmetic::div_mod::lemma_mod_bound(pow(base as int, exp as nat), n as int);
    }
    out
}

/// Draws a private scalar over the full width of the type and computes the
/// public value that belongs to it; returns the public value, then the
/// private scalar.
pub fn generate_pk(p: u64, g: u64) -> (keys: (u64, u64))
    requires
        p > 0,
    ensures
        keys.0 == modpow_spec(g, keys.1, p),
        keys.0 < p,
{
    let priv_a: u64 = random_u64();
    let pub_a = modpow(g, priv_a, p);
    (pub_a, priv_a)
}

/// The shared secret: the peer's public value raised to the own private
/// scalar.
pub fn generate_session_key(prvkey_a: u64, pk_b: u64, p: u64) -> (shared: u64)
    requires
        p > 0,
    ensures
        shared == modpow_spec(pk_b, prvkey_a, p),
        shared < p,
{
    modpow(pk_b, prvkey_a, p)
}

/// A symmetric key of the channel's cipher.
pub struct SessionKey {
    bytes: Vec<u8>,
}

impl View for SessionKey {
    type V = Seq<u8>;

    closed spec fn view(&self) -> Seq<u8> {
        self.bytes@
    }
}

impl SessionKey {
    #[verifier::type_invariant]
    spec fn well_sized(self) -> bool {
        self.bytes@.len() == KEY_LEN
    }

    /// The key that holds `bytes`, where they have the length of a key.
    pub fn from_bytes(bytes: &[u8]) -> (key: Option<SessionKey>)
        ensures
            key is Some <==> bytes@.len() == KEY_LEN,
            key matches Some(k) ==> k@ == bytes@,
    {
        if bytes.len() == KEY_LEN {
            Some(SessionKey { bytes: vstd::slice::slice_to_vec(bytes) })
        } else {
            None
        }
    }

    /// The key derived from a shared secret: its eight little-endian bytes,
    /// tiled to the length of a key.
    pub fn from_shared_secret(shared: u64) -> (key: SessionKey)
        ensures
            key@ == tiled_key(shared),
    {
        let le = u64_to_le_bytes(shared);
        let mut bytes: Vec<u8> = Vec::new();
        let mut i: usize = 0;
        while i < KEY_LEN
            invariant
                0 <= i <= KEY_LEN,
                le@ == spec_u64_to_le_bytes(shared),
                le@.len() == 8,
                bytes@.len() == i,
                forall|j: int| 0 <= j < i ==> bytes@[j] == le@[j % 8],
            decreases KEY_LEN - i,
        {
            bytes.push(le[i % 8]);
            i = i + 1;
        }
        proof {
            assert(bytes@ =~= tiled_key(shared));
        }
        SessionKey { bytes }
    }

    /// The bytes of the key.
    pub fn as_bytes(&self) -> (bytes: &Vec<u8>)
        ensures
            bytes@ == self@,
            bytes@.len() == KEY_LEN,
    {
        proof {
            use_type_invariant(self);
        }
        &self.bytes
    }
}

/// The nonce and the ciphertext that cross the wire.
#[derive(Clone, PartialEq, Debug)]
pub struct RawMessage {
    pub nonce: Vec<u8>,
    pub encrypted_payload: Vec<u8>,
}

impl RawMessage {
    /// The encoding of the envelope.
    pub fn encode(&self) -> (bytes: Vec<u8>)
        ensures
            bytes@ == envelope_bytes(self.nonce@, self.encrypted_payload@),
    {
        let mut bytes: Vec<u8> = Vec::new();
        put_bytes_field(&mut bytes, TAG_1_BYTES, self.nonce.as_slice());
        put_bytes_field(&mut bytes, TAG_2_BYTES, self.encrypted_payload.as_slice());
        proof {
            assert(bytes@ =~= envelope_bytes(self.nonce@, self.encrypted_payload@));
        }
        bytes
    }

    /// The envelope that `bytes` encode, where they encode one.
    pub fn decode(bytes: &[u8]) -> (envelope: Option<RawMessage>)
        ensures
            envelope matches Some(e) ==> parse_envelope(bytes@) == Some(
                (e.nonce@, e.encrypted_payload@),
            ),
            envelope is None ==> parse_envelope(bytes@) is None,
    {
        let (nonce, after_nonce) = match take_bytes_field(TAG_1_BYTES, bytes) {
            Some(found) => found,
            None => {
                return None;
            },
        };
        let (ciphertext, rest) = match take_bytes_field(TAG_2_BYTES, after_nonce) {
            Some(found) => found,
            None => {
                return None;
            },
        };
        if rest.len() != 0 {
            return None;
        }
        Some(
            RawMessage {
                nonce: vstd::slice::slice_to_vec(nonce),
                encrypted_payload: vstd::slice::slice_to_vec(ciphertext),
            },
        )
    }
}

/// Seals `plaintext` under `key` and the given `nonce`, and encodes the
/// envelope of nonce and ciphertext. Opening the result under the same key
/// gives the plaintext back.
pub fn seal_with_nonce(key: &SessionKey, nonce: &[u8], plaintext: &[u8]) -> (out: Result<
    Vec<u8>,
    ChannelError,
>)
    ensures
        out matches Ok(bytes) ==> sealed(key@, nonce@, plaintext@) == Ok::<Seq<u8>, ChannelError>(
            bytes@,
        ) && opened(key@, bytes@) == Ok::<Seq<u8>, ChannelError>(plaintext@),
        out matches Err(e) ==> sealed(key@, nonce@, plaintext@) == Err::<Seq<u8>, ChannelError>(e),
{
    if nonce.len() != NONCE_LEN {
        return Err(ChannelError::BadNonce);
    }
    if plaintext.len() as u64 > MAX_PLAINTEXT_LEN || plaintext.len() > usize::MAX / 2 - TAG_LEN {
        return Err(ChannelError::PayloadTooLarge);
    }
    match aes256gcm_encrypt(key.as_bytes().as_slice(), nonce, plaintext) {
        Ok(ciphertext) => {
            let envelope = RawMessage {
                nonce: vstd::slice::slice_to_vec(nonce),
                encrypted_payload: ciphertext,
            };
            proof {
                lemma_parse_envelope(nonce@, ciphertext@);
            }
            Ok(envelope.encode())
        },
        Err(_) => Err(ChannelError::PayloadTooLarge),
    }
}

/// Seals `pt_payload` under `key` and a fresh random nonce, and encodes the
/// envelope of nonce and ciphertext. Succeeds on every payload that the
/// cipher seals; opening the result under the same key gives the payload
/// back.
pub fn encrypt_payload(key: &SessionKey, pt_payload: Vec<u8>) -> (out: Result<
    Vec<u8>,
    ChannelError,
>)
    ensures
        out is Ok <==> sealable(pt_payload@.len()),
        out matches Ok(bytes) ==> opened(key@, bytes@) == Ok::<Seq<u8>, ChannelError>(
            pt_payload@,
        ) && exists|nonce: Seq<u8>|
            nonce.len() == NONCE_LEN && bytes@ == envelope_bytes(
                nonce,
                aes256gcm_seal(key@, nonce, pt_payload@),
            ),
        out matches Err(e) ==> e == ChannelError::PayloadTooLarge,
{
    let nonce = fresh_nonce();
    seal_with_nonce(key, nonce.as_slice(), pt_payload.as_slice())
}

/// Decodes the envelope in `encrypted_payload` and opens its ciphertext
/// under `key` and the envelope's nonce.
pub fn decrypt_payload(key: &SessionKey, encrypted_payload: Vec<u8>) -> (out: Result<
    Vec<u8>,
    ChannelError,
>)
    ensures
        out matches Ok(plaintext) ==> opened(key@, encrypted_payload@) == Ok::<
            Seq<u8>,
            ChannelError,
        >(plaintext@),
        out matches Err(e) ==> opened(key@, encrypted_payload@) == Err::<Seq<u8>, ChannelError>(e),
{
    let envelope = match RawMessage::decode(encrypted_payload.as_slice()) {
        Some(envelope) => envelope,
        None => {
            return Err(ChannelError::MalformedEnvelope);
        },
    };
    if envelope.nonce.len() != NONCE_LEN {
        return Err(ChannelError::BadNonce);
    }
    match aes256gcm_decrypt(
        key.as_bytes().as_slice(),
        envelope.nonce.as_slice(),
        envelope.encrypted_payload.as_slice(),
    ) {
        Ok(plaintext) => Ok(plaintext),
        Err(_) => Err(ChannelError::AuthenticationFailed),
    }
}

/// Encodes `request`, seals it under `key` and a fresh random nonce, and
/// encodes the envelope. Succeeds on every request whose encoding the cipher
/// seals; opening the result under the same key gives the request back.
pub fn seal_request(key: &SessionKey, request: &HorcrustMsgRequest) -> (out: Result<
    Vec<u8>,
    ChannelError,
>)
    ensures
        out is Ok <==> sealable(request_bytes(request@).len()),
        out matches Ok(bytes) ==> opened_request(key@, bytes@) == Ok::<
            Option<RequestModel>,
            ChannelError,
        >(request@),
        out matches Err(e) ==> e == ChannelError::PayloadTooLarge,
{
    encrypt_payload(key, request.encode_to_vec())
}

/// Opens the envelope in `bytes` under `key` and decodes the payload as a
/// request.
pub fn open_request(key: &SessionKey, bytes: Vec<u8>) -> (out: Result<
    HorcrustMsgRequest,
    ChannelError,
>)
    ensures
        out matches Ok(request) ==> opened_request(key@, bytes@) == Ok::<
            Option<RequestModel>,
            ChannelError,
        >(request@),
        out matches Err(e) ==> opened_request(key@, bytes@) == Err::<
            Option<RequestModel>,
            ChannelError,
        >(e),
{
    match decrypt_payload(key, bytes) {
        Ok(payload) => match HorcrustMsgRequest::decode(payload.as_slice()) {
            Some(request) => Ok(request),
            None => Err(ChannelError::MalformedMessage),
        },
        Err(e) => Err(e),
    }
}

/// Encodes `response`, seals it under `key` and a fresh random nonce, and
/// encodes the envelope. Succeeds on every response whose encoding the
/// cipher seals; opening the result under the same key gives the response
/// back.
pub fn seal_response(key: &SessionKey, response: &HorcrustMsgResponse) -> (out: Result<
    Vec<u8>,
    ChannelError,
>)
    ensures
        out is Ok <==> sealable(response_bytes(response@).len()),
        out matches Ok(bytes) ==> opened_response(key@, bytes@) == Ok::<
            Option<ResponseModel>,
            ChannelError,
        >(response@),
        out matches Err(e) ==> e == ChannelError::PayloadTooLarge,
{
    encrypt_payload(key, response.encode_to_vec())
}

/// Opens the envelope in `bytes` under `key` and decodes the payload as a
/// response.
pub fn open_response(key: &SessionKey, bytes: Vec<u8>) -> (out: Result<
    HorcrustMsgResponse,
    ChannelError,
>)
    ensures
        out matches Ok(response) ==> opened_response(key@, bytes@) == Ok::<
            Option<ResponseModel>,
            ChannelError,
        >(response@),
        out matches Err(e) ==> opened_response(key@, bytes@) == Err::<
            Option<ResponseModel>,
            ChannelError,
        >(e),
{
    match decrypt_payload(key, bytes) {
        Ok(payload) => match HorcrustMsgResponse::decode(payload.as_slice()) {
            Some(response) => Ok(response),
            None => Err(ChannelError::MalformedMessage),
        },
        Err(e) => Err(e),
    }
}

/// One side of a handshake that has drawn its private scalar and not yet
/// heard from the peer.
pub struct Handshake {
    private_key: u64,
    public_key: u64,
}

impl Handshake {
    /// The private scalar.
    pub closed spec fn private_key(&self) -> u64 {
        self.private_key
    }

    /// The public value.
    pub closed spec fn public_key(&self) -> u64 {
        self.public_key
    }

    #[verifier::type_invariant]
    spec fn matching_keys(self) -> bool {
        self.public_key == modpow_spec(G, self.private_key, P)
    }

    /// Draws a fresh private scalar and computes its public value.
    pub fn start() -> (handshake: Handshake)
        ensures
            handshake.public_key() == modpow_spec(G, handshake.private_key(), P),
    {
        let (public_key, private_key) = generate_pk(P, G);
        Handshake { private_key, public_key }
    }

    /// The handshake that belongs to a given private scalar.
    pub fn with_private_key(private_key: u64) -> (handshake: Handshake)
        ensures
            handshake.private_key() == private_key,
            handshake.public_key() == modpow_spec(G, private_key, P),
    {
        let public_key = modpow(G, private_key, P);
        Handshake { private_key, public_key }
    }

    /// The eight bytes to send to the peer: the public value, lowest byte
    /// first.
    pub fn public_key_bytes(&self) -> (bytes: Vec<u8>)
        ensures
            bytes@ == spec_u64_to_le_bytes(self.public_key()),
            bytes@.len() == PUBLIC_KEY_LEN,
    {
        u64_to_le_bytes(self.public_key)
    }

    /// Completes the handshake with the eight bytes that the peer sent. Any
    /// other number of bytes is no public value.
    pub fn finish(self, peer_public_key: &[u8]) -> (session: Option<Session>)
        ensures
            session is Some <==> peer_public_key@.len() == PUBLIC_KEY_LEN,
            session matches Some(s) ==> s.private_key() == self.private_key() && s.public_key()
                == self.public_key() && s.peer_public_key() == spec_u64_from_le_bytes(
                peer_public_key@,
            ) && s.key()@ == tiled_key(s.shared_secret() as u64),
    {
        proof {
            use_type_invariant(&self);
        }
        if peer_public_key.len() != PUBLIC_KEY_LEN {
            return None;
        }
        let peer = u64_from_le_bytes(peer_public_key);
        let shared = generate_session_key(self.private_key, peer, P);
        let key = SessionKey::from_shared_secret(shared);
        Some(
            Session {
                private_key: self.private_key,
                public_key: self.public_key,
                peer_public_key: peer,
                key,
            },
        )
    }
}

/// The state of one connection after the handshake. It lives as long as the
/// connection and is never used for another.
pub struct Session {
    private_key: u64,
    public_key: u64,
    peer_public_key: u64,
    key: SessionKey,
}

impl Session {
    /// The own private scalar.
    pub closed spec fn private_key(&self) -> u64 {
        self.private_key
    }

    /// The own public value.
    pub closed spec fn public_key(&self) -> u64 {
        self.public_key
    }

    /// The peer's public value.
    pub closed spec fn peer_public_key(&self) -> u64 {
        self.peer_public_key
    }

    /// The secret that both sides share.
    pub open spec fn shared_secret(&self) -> int {
        modpow_spec(self.peer_public_key(), self.private_key(), P)
    }

    /// The symmetric key derived from the shared secret.
    pub closed spec fn key(&self) -> SessionKey {
        self.key
    }

    #[verifier::type_invariant]
    spec fn derived(self) -> bool {
        &&& self.public_key == modpow_spec(G, self.private_key, P)
        &&& self.key@ == tiled_key(
            modpow_spec(self.peer_public_key, self.private_key, P) as u64,
        )
    }

    /// The symmetric key of the session.
    pub fn session_key(&self) -> (key: &SessionKey)
        ensures
            key == self.key(),
            key@ == tiled_key(self.shared_secret() as u64),
    {
        proof {
            use_type_invariant(self);
        }
        &self.key
    }
}

/// `BigUint::modpow` on numbers of 64 bits: `base` to the power `exp`,
/// reduced modulo `n`. The outside function panics on a modulus of zero.
#[verifier::external_body]
fn biguint_modpow(base: u64, exp: u64, n: u64) -> (out: u64)
    requires
        n > 0,
    ensures
        out as int == pow(base as int, exp as nat) % (n as int),
{
    let base: BigUint = base.into();
    let exp: BigUint = exp.into();
    let n: BigUint = n.into();
    base.modpow(&exp, &n).to_u64().unwrap()
}

/// `rand::random` for 64-bit numbers: any value may come back.
#[verifier::external_body]
fn random_u64() -> (out: u64) {
    rand::random::<u64>()
}

/// `Aes256Gcm::generate_nonce` with the system's generator: twelve bytes,
/// of which nothing more is known.
#[verifier::external_body]
fn fresh_nonce() -> (nonce: Vec<u8>)
    ensures
        nonce@.len() == NONCE_LEN,
{
    Aes256Gcm::generate_nonce(&mut OsRng).to_vec()
}

/// `Aes256Gcm::encrypt` without associated data. It fails only on a plaintext
/// longer than the cipher's limit; otherwise the ciphertext is a function of
/// key, nonce and plaintext, is longer than the plaintext by the tag, and
/// decrypts under the same key and nonce to the plaintext. The outside
/// functions panic on a key or nonce of another length, and on a buffer that
/// cannot be allocated.
#[verifier::external_body]
fn aes256gcm_encrypt(key: &[u8], nonce: &[u8], plaintext: &[u8]) -> (out: Result<
    Vec<u8>,
    aes_gcm::Error,
>)
    requires
        key@.len() == KEY_LEN,
        nonce@.len() == NONCE_LEN,
        plaintext@.len() + TAG_LEN <= isize::MAX,
    ensures
        out is Ok <==> plaintext@.len() <= MAX_PLAINTEXT_LEN,
        out matches Ok(ciphertext) ==> ciphertext@ == aes256gcm_seal(key@, nonce@, plaintext@),
        out matches Ok(ciphertext) ==> ciphertext@.len() == plaintext@.len() + TAG_LEN,
        out matches Ok(ciphertext) ==> aes256gcm_open(key@, nonce@, ciphertext@) == Some(
            plaintext@,
        ),
{
    let cipher = Aes256Gcm::new(Key::<Aes256Gcm>::from_slice(key));
    cipher.encrypt(Nonce::from_slice(nonce), plaintext)
}

/// `Aes256Gcm::decrypt` without associated data. Whether it succeeds, and
/// with what plaintext, is a function of key, nonce and ciphertext; a
/// plaintext is shorter than its ciphertext by the tag. The outside
/// functions panic on a key or nonce of another length.
#[verifier::external_body]
fn aes256gcm_decrypt(key: &[u8], nonce: &[u8], ciphertext: &[u8]) -> (out: Result<
    Vec<u8>,
    aes_gcm::Error,
>)
    requires
        key@.len() == KEY_LEN,
        nonce@.len() == NONCE_LEN,
    ensures
        out matches Ok(plaintext) ==> aes256gcm_open(key@, nonce@, ciphertext@) == Some(
            plaintext@,
        ),
        out is Err ==> aes256gcm_open(key@, nonce@, ciphertext@) is None,
        out matches Ok(plaintext) ==> plaintext@.len() + TAG_LEN == ciphertext@.len(),
{
    let cipher = Aes256Gcm::new(Key::<Aes256Gcm>::from_slice(key));
    cipher.decrypt(Nonce::from_slice(nonce), ciphertext)
}

} // verus!
