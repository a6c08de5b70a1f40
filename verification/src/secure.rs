//! Secure channel: ephemeral-key handshake and per-message authenticated
//! encryption.
//!
//! Each side of a connection generates a fresh, single-use elliptic-curve
//! key pair and sends its public key in a [`Message::Handshake`] envelope.
//! From its own secret and the peer's public key each side computes the
//! shared secret and derives a fixed-length symmetric key; the raw shared
//! secret is never used directly.  After that, every record travels as a
//! [`Message::Encrypted`] envelope: ciphertext plus a fresh 96-bit nonce.
//! Decryption authenticates the ciphertext before anything is parsed; a
//! ciphertext that decrypts is the encryption of the returned plaintext
//! under that key and nonce, so tampering never yields a wrong plaintext.
use vstd::prelude::*;

verus! {

use crate::{ClientMessage, ClientMessageV, ServerMessage, ServerMessageV};
use crate::cbor::{enc_bytes, dec_bytes, enc_uint, enc_arr, dec_uint, dec_arr, lemma_dec_bytes,
    lemma_dec_uint, lemma_dec_arr, write_uint, write_bytes, write_arr, read_uint, read_bytes,
    read_arr};
use crate::codec::{CodecError, enc_client_msg, enc_server_msg, wf_client_msg, wf_server_msg,
    decode_client_message, decode_server_message, encode_client_message,
    encode_server_message, record_wire, record_ok, pack_record, unpack_record, MAX_BLOCK_INPUT};

/// Envelope of the secure channel.  A channel carries exactly one
/// `Handshake` in each direction before any `Encrypted` envelope.
#[derive(Clone, Debug, PartialEq, Eq)]
pub enum Message {
    Handshake { public_key: Vec<u8> },
    Encrypted { data: Vec<u8>, nonce: [u8; 12] },
}

/// Mathematical value of a [`Message`].
pub enum MessageV {
    Handshake { public_key: Seq<u8> },
    Encrypted { data: Seq<u8>, nonce: Seq<u8> },
}

impl View for Message {
    type V = MessageV;

    open spec fn view(&self) -> MessageV {
        match self {
            Message::Handshake { public_key } => MessageV::Handshake { public_key: public_key@ },
            Message::Encrypted { data, nonce } => MessageV::Encrypted {
                data: data@,
                nonce: nonce@,
            },
        }
    }
}

/// How the secure channel can fail.  Every failure tears down only the
/// connection it occurred on.
#[derive(Clone, Debug, PartialEq, Eq)]
pub enum SecureStreamError {
    /// Something other than a handshake arrived while the handshake was
    /// still pending.
    ExpectedHandshake { message_received: Message },
    /// A handshake arrived after the channel was already established.
    AlreadyHandshaked { handshake_message: Message },
    /// An encrypted envelope failed authentication; carries the offending
    /// ciphertext.
    FailedDecryption { bytes: Vec<u8> },
    /// Encryption refused the payload; carries the payload.
    FailedEncryption { bytes: Vec<u8> },
    /// The peer's public key is not a valid curve point encoding.
    InvalidPublicKey { bytes: Vec<u8> },
    /// The inner record codec failed.
    Codec { error: CodecError },
}

// ---------------------------------------------------------------------------
// Named results of the cryptographic primitives
// ---------------------------------------------------------------------------
/// The SEC1 encoding of the public key of the elliptic-curve secret key
/// with the given scalar bytes.
pub uninterp spec fn pubkey_of(sk: Seq<u8>) -> Seq<u8>;

/// The shared secret that elliptic-curve Diffie-Hellman computes from a
/// secret key's scalar bytes and a peer's encoded public key.
pub uninterp spec fn ecdh_shared(sk: Seq<u8>, pk: Seq<u8>) -> Seq<u8>;

/// Whether the bytes are a scalar that key generation can produce.
pub uninterp spec fn key_generated(sk: Seq<u8>) -> bool;

/// Whether the bytes are a valid encoding of a point on the curve.
pub uninterp spec fn valid_pubkey(pk: Seq<u8>) -> bool;

/// The 32 bytes that the key-derivation function expands from a shared
/// secret under this protocol's fixed context string.
pub uninterp spec fn hkdf_key_of(secret: Seq<u8>) -> Seq<u8>;

/// The ciphertext (tag included) that the AEAD cipher produces from a key,
/// a nonce and a plaintext.
pub uninterp spec fn aead_ct_of(key: Seq<u8>, nonce: Seq<u8>, pt: Seq<u8>) -> Seq<u8>;

/// Diffie-Hellman agreement: against any generated peer key, both sides
/// compute the same shared secret.
pub open spec fn dh_respects(sk: Seq<u8>) -> bool {
    forall|o: Seq<u8>|
        key_generated(o) ==> ecdh_shared(sk, pubkey_of(o)) == ecdh_shared(o, pubkey_of(sk))
}

/// The session key both sides derive: the key derivation applied to the
/// Diffie-Hellman shared secret.
pub open spec fn session_key_of(sk: Seq<u8>, peer_pk: Seq<u8>) -> Seq<u8> {
    hkdf_key_of(ecdh_shared(sk, peer_pk))
}

/// Longest plaintext the AEAD cipher accepts.
pub const AEAD_PT_MAX: u64 = 68719476704;

// ---------------------------------------------------------------------------
// Trusted wrappers around the cryptographic primitives
// ---------------------------------------------------------------------------
/// Relies on `p521::SecretKey::random` and `PublicKey::to_sec1_bytes`: a
/// fresh random scalar together with the SEC1 encoding of its public key.
/// The returned public key encoding is a valid curve point, and against any
/// generated peer scalar, Diffie-Hellman from either side yields the same
/// shared secret (both sides compute the same curve point).
#[verifier::external_body]
fn gen_keypair() -> (r: (Vec<u8>, Vec<u8>))
    ensures
        r.1@ == pubkey_of(r.0@),
        key_generated(r.0@),
        valid_pubkey(pubkey_of(r.0@)),
        r.0@.len() == 66,
        dh_respects(r.0@),
{
    let sk = p521::SecretKey::random(&mut rand::rng());
    let pk_bytes: Vec<u8> = sk.public_key().to_sec1_bytes().into_vec();
    let sk_bytes: Vec<u8> = sk.to_bytes().to_vec();
    (sk_bytes, pk_bytes)
}

/// Relies on `p521::SecretKey::from_slice`, `PublicKey::from_sec1_bytes`
/// and `SecretKey::diffie_hellman`: the shared secret is a function of the
/// scalar and the peer point alone; a generated scalar and a valid point
/// encoding always succeed.
#[verifier::external_body]
fn ecdh(sk: &Vec<u8>, pk: &Vec<u8>) -> (r: Option<Vec<u8>>)
    ensures
        r matches Some(s) ==> s@ == ecdh_shared(sk@, pk@),
        r is Some ==> valid_pubkey(pk@),
        key_generated(sk@) && valid_pubkey(pk@) ==> r is Some,
{
    let secret = match p521::SecretKey::from_slice(sk.as_slice()) {
        Ok(s) => s,
        Err(_) => {
            return None;
        },
    };
    let peer = match p521::PublicKey::from_sec1_bytes(pk.as_slice()) {
        Ok(p) => p,
        Err(_) => {
            return None;
        },
    };
    let shared = secret.diffie_hellman(&peer);
    Some(shared.raw_secret_bytes().to_vec())
}

/// Relies on `Hkdf::<Sha512>::new` and `Hkdf::expand` under this
/// protocol's fixed context string: 32 bytes that depend on the input
/// secret alone.  `expand` accepts any output length up to 255 hash
/// lengths, so 32 bytes never fail.
#[verifier::external_body]
fn derive_key(secret: &Vec<u8>) -> (r: Vec<u8>)
    ensures
        r@ == hkdf_key_of(secret@),
        r@.len() == 32,
{
    let hk = hkdf::Hkdf::<sha2::Sha512>::new(None, secret.as_slice());
    let mut key = [0u8; 32];
    hk.expand(b"handshake context", &mut key).unwrap();
    key.to_vec()
}

/// Relies on `Aes256Gcm::encrypt` with empty associated data: AES-256-GCM
/// is a function of key, nonce and plaintext; the ciphertext appends a
/// 16-byte tag; only a plaintext over the cipher's length bound is refused.
#[verifier::external_body]
fn aead_encrypt(key: &Vec<u8>, nonce: &[u8; 12], pt: &Vec<u8>) -> (r: Option<Vec<u8>>)
    requires
        key@.len() == 32,
    ensures
        r matches Some(c) ==> c@ == aead_ct_of(key@, nonce@, pt@) && c@.len() == pt@.len() + 16,
        pt@.len() <= AEAD_PT_MAX ==> r is Some,
{
    let cipher = match <aes_gcm::Aes256Gcm as aes_gcm::KeyInit>::new_from_slice(key.as_slice()) {
        Ok(c) => c,
        Err(_) => {
            return None;
        },
    };
    let n = aes_gcm::Nonce::from(*nonce);
    match aes_gcm::aead::Aead::encrypt(&cipher, &n, pt.as_slice()) {
        Ok(c) => Some(c),
        Err(_) => None,
    }
}

/// Relies on `Aes256Gcm::decrypt` with empty associated data: it accepts
/// exactly the ciphertexts that encryption under the same key and nonce
/// produces, and returns the plaintext that produced them.
#[verifier::external_body]
fn aead_decrypt(key: &Vec<u8>, nonce: &[u8; 12], ct: &Vec<u8>) -> (r: Option<Vec<u8>>)
    requires
        key@.len() == 32,
    ensures
        r matches Some(p) ==> ct@ == aead_ct_of(key@, nonce@, p@),
        forall|p: Seq<u8>|
            p.len() <= AEAD_PT_MAX && ct@ == aead_ct_of(key@, nonce@, p) ==> r is Some
                && r->Some_0@ == p,
{
    let cipher = match <aes_gcm::Aes256Gcm as aes_gcm::KeyInit>::new_from_slice(key.as_slice()) {
        Ok(c) => c,
        Err(_) => {
            return None;
        },
    };
    let n = aes_gcm::Nonce::from(*nonce);
    match aes_gcm::aead::Aead::decrypt(&cipher, &n, ct.as_slice()) {
        Ok(p) => Some(p),
        Err(_) => None,
    }
}

/// Relies on the operating system's random generator through `rand`;
/// nothing is assumed of the returned bytes.
#[verifier::external_body]
fn gen_nonce() -> (r: [u8; 12]) {
    let mut nonce = [0u8; 12];
    rand::Rng::fill_bytes(&mut rand::rng(), &mut nonce);
    nonce
}

// ---------------------------------------------------------------------------
// Handshake
// ---------------------------------------------------------------------------
/// The ephemeral secret of a handshake in flight.  Created by
/// [`handshake_begin`], consumed by [`handshake_complete`]; it never
/// outlives the handshake, which is what makes the channel forward-secret.
pub struct HandshakeState {
    secret: Vec<u8>,
}

impl View for HandshakeState {
    type V = Seq<u8>;

    closed spec fn view(&self) -> Seq<u8> {
        self.secret@
    }
}

impl HandshakeState {
    #[verifier::type_invariant]
    spec fn type_inv(self) -> bool {
        key_generated(self.secret@) && dh_respects(self.secret@)
    }
}

/// A session key bound to one connection.
pub struct SessionKey {
    key: Vec<u8>,
}

impl View for SessionKey {
    type V = Seq<u8>;

    closed spec fn view(&self) -> Seq<u8> {
        self.key@
    }
}

impl SessionKey {
    #[verifier::type_invariant]
    spec fn type_inv(self) -> bool {
        self.key@.len() == 32
    }
}

/// Start the handshake: generate a fresh single-use key pair and build the
/// handshake envelope announcing the public key.
pub fn handshake_begin() -> (r: (HandshakeState, Message))
    ensures
        r.1@ == (MessageV::Handshake { public_key: pubkey_of(r.0@) }),
        key_generated(r.0@),
        valid_pubkey(pubkey_of(r.0@)),
        dh_respects(r.0@),
{
    let (sk, pk) = gen_keypair();
    (HandshakeState { secret: sk }, Message::Handshake { public_key: pk })
}

/// Finish the handshake with the envelope the peer sent: compute the shared
/// secret from the peer's public key and derive the session key.  The
/// ephemeral secret is consumed and dropped.  Anything but a handshake
/// envelope is a protocol violation; a public key that is no curve point is
/// rejected.
pub fn handshake_complete(st: HandshakeState, peer: Message) -> (r: Result<
    SessionKey,
    SecureStreamError,
>)
    ensures
        match peer {
            Message::Handshake { public_key } => {
                &&& valid_pubkey(public_key@) ==> (r matches Ok(k) && k@ == session_key_of(
                    st@,
                    public_key@,
                ))
                &&& !valid_pubkey(public_key@) ==> (r matches Err(e) && e
                    matches SecureStreamError::InvalidPublicKey { bytes } && bytes@ == public_key@)
            },
            Message::Encrypted { .. } => r matches Err(e) && e
                matches SecureStreamError::ExpectedHandshake { message_received }
                && message_received == peer,
        },
{
    proof {
        use_type_invariant(&st);
    }
    match peer {
        Message::Handshake { public_key } => {
            match ecdh(&st.secret, &public_key) {
                Some(shared) => {
                    let key = derive_key(&shared);
                    Ok(SessionKey { key })
                },
                None => Err(SecureStreamError::InvalidPublicKey { bytes: public_key }),
            }
        },
        other => Err(SecureStreamError::ExpectedHandshake { message_received: other }),
    }
}

/// Two peers that each generated a fresh key and ran the handshake derive
/// identical session keys: each side's shared secret is the same curve
/// point, so the derived keys agree.  A third party holding only the two
/// public keys has neither scalar, and nothing here relates the key to the
/// public keys alone.
pub proof fn lemma_handshake_agreement(sk_a: Seq<u8>, sk_b: Seq<u8>)
    requires
        key_generated(sk_a),
        key_generated(sk_b),
        dh_respects(sk_a),
    ensures
        session_key_of(sk_a, pubkey_of(sk_b)) == session_key_of(sk_b, pubkey_of(sk_a)),
{
}

// ---------------------------------------------------------------------------
// Steady state: sealing and opening envelopes
// ---------------------------------------------------------------------------
/// Encrypt a record payload under the session key with a fresh random
/// nonce and wrap it as an envelope.
pub fn seal_payload(key: &SessionKey, payload: &Vec<u8>) -> (r: Result<Message, SecureStreamError>)
    ensures
        r matches Ok(m) ==> exists|n: Seq<u8>|
            n.len() == 12 && m@ == (MessageV::Encrypted {
                data: aead_ct_of(key@, n, payload@),
                nonce: n,
            }),
        payload@.len() <= AEAD_PT_MAX ==> r is Ok,
        r matches Err(e) ==> e matches SecureStreamError::FailedEncryption { bytes } && bytes@
            == payload@,
{
    proof {
        use_type_invariant(key);
    }
    let nonce = gen_nonce();
    assert(nonce@.len() == 12);
    match aead_encrypt(&key.key, &nonce, payload) {
        Some(data) => {
            let m = Message::Encrypted { data, nonce };
            assert(m@ == (MessageV::Encrypted {
                data: aead_ct_of(key@, nonce@, payload@),
                nonce: nonce@,
            }));
            Ok(m)
        },
        None => Err(SecureStreamError::FailedEncryption { bytes: payload.clone() }),
    }
}

/// Decrypt an envelope under the session key.  Decryption authenticates:
/// a returned plaintext is exactly the one whose encryption under this key
/// and the carried nonce is the carried ciphertext, so a flipped bit in
/// ciphertext or nonce can never surface as a wrong plaintext.  A handshake
/// envelope at this stage is a protocol violation.
pub fn open_payload(key: &SessionKey, env: Message) -> (r: Result<Vec<u8>, SecureStreamError>)
    ensures
        r matches Ok(p) ==> (env matches Message::Encrypted { data, nonce } && data@ == aead_ct_of(
            key@,
            nonce@,
            p@,
        )),
        forall|p: Seq<u8>|
            p.len() <= AEAD_PT_MAX && (env@ matches MessageV::Encrypted { data, nonce } && data
                == aead_ct_of(key@, nonce, p)) ==> r is Ok && r->Ok_0@ == p,
        match env {
            Message::Handshake { .. } => r matches Err(e) && e
                matches SecureStreamError::AlreadyHandshaked { handshake_message }
                && handshake_message == env,
            Message::Encrypted { data, .. } => r matches Err(e) ==> (e
                matches SecureStreamError::FailedDecryption { bytes } && bytes@ == data@),
        },
{
    proof {
        use_type_invariant(key);
    }
    match env {
        Message::Encrypted { data, nonce } => {
            match aead_decrypt(&key.key, &nonce, &data) {
                Some(p) => Ok(p),
                None => Err(SecureStreamError::FailedDecryption { bytes: data }),
            }
        },
        other => Err(SecureStreamError::AlreadyHandshaked { handshake_message: other }),
    }
}

// ---------------------------------------------------------------------------
// Envelope codec
// ---------------------------------------------------------------------------
/// An envelope whose fields a header can carry; every envelope held in
/// memory satisfies this.
pub open spec fn wf_envelope(m: MessageV) -> bool {
    match m {
        MessageV::Handshake { public_key } => public_key.len() < 0x10000000000000000,
        MessageV::Encrypted { data, nonce } => data.len() < 0x10000000000000000 && nonce.len()
            == 12,
    }
}

/// Encoding of an envelope: an array of a variant tag and the variant's
/// byte strings.
pub open spec fn enc_envelope(m: MessageV) -> Seq<u8> {
    match m {
        MessageV::Handshake { public_key } => enc_arr(2) + enc_uint(0) + enc_bytes(public_key),
        MessageV::Encrypted { data, nonce } => enc_arr(3) + enc_uint(1) + enc_bytes(data)
            + enc_bytes(nonce),
    }
}

/// Decode an envelope from the front of `s`.
pub open spec fn dec_envelope(s: Seq<u8>) -> Option<(MessageV, Seq<u8>)> {
    match dec_arr(s) {
        Some((n, r0)) => match dec_uint(r0) {
            Some((tag, r1)) => if tag == 0 && n == 2 {
                match dec_bytes(r1) {
                    Some((public_key, r2)) => Some((MessageV::Handshake { public_key }, r2)),
                    None => None,
                }
            } else if tag == 1 && n == 3 {
                match dec_bytes(r1) {
                    Some((data, r2)) => match dec_bytes(r2) {
                        Some((nonce, r3)) => if nonce.len() == 12 {
                            Some((MessageV::Encrypted { data, nonce }, r3))
                        } else {
                            None
                        },
                        None => None,
                    },
                    None => None,
                }
            } else {
                None
            },
            None => None,
        },
        None => None,
    }
}

/// Decode a buffer that must hold exactly one envelope.
pub open spec fn dec_envelope_full(s: Seq<u8>) -> Option<MessageV> {
    match dec_envelope(s) {
        Some((m, rest)) => if rest.len() == 0 {
            Some(m)
        } else {
            None
        },
        None => None,
    }
}

/// Round trip: decoding the encoding of any envelope yields the envelope
/// back.
pub proof fn lemma_envelope_round_trip(m: MessageV)
    requires
        wf_envelope(m),
    ensures
        dec_envelope_full(enc_envelope(m)) == Some(m),
{
    match m {
        MessageV::Handshake { public_key } => {
            let t1 = enc_bytes(public_key);
            let t0 = enc_uint(0) + t1;
            assert(enc_envelope(m) =~= enc_arr(2) + (t0 + Seq::<u8>::empty()));
            assert(t0 + Seq::<u8>::empty() =~= enc_uint(0) + (t1 + Seq::<u8>::empty()));
            assert(t1 + Seq::<u8>::empty() =~= enc_bytes(public_key) + Seq::<u8>::empty());
            lemma_dec_arr(2, t0 + Seq::<u8>::empty());
            lemma_dec_uint(0, t1 + Seq::<u8>::empty());
            lemma_dec_bytes(public_key, Seq::<u8>::empty());
        },
        MessageV::Encrypted { data, nonce } => {
            let t2 = enc_bytes(nonce);
            let t1 = enc_bytes(data) + t2;
            let t0 = enc_uint(1) + t1;
            assert(enc_envelope(m) =~= enc_arr(3) + (t0 + Seq::<u8>::empty()));
            assert(t0 + Seq::<u8>::empty() =~= enc_uint(1) + (t1 + Seq::<u8>::empty()));
            assert(t1 + Seq::<u8>::empty() =~= enc_bytes(data) + (t2 + Seq::<u8>::empty()));
            assert(t2 + Seq::<u8>::empty() =~= enc_bytes(nonce) + Seq::<u8>::empty());
            lemma_dec_arr(3, t0 + Seq::<u8>::empty());
            lemma_dec_uint(1, t1 + Seq::<u8>::empty());
            lemma_dec_bytes(data, t2 + Seq::<u8>::empty());
            lemma_dec_bytes(nonce, Seq::<u8>::empty());
        },
    }
}

/// Copy a 12-byte nonce into a vector.
fn array12_to_vec(a: &[u8; 12]) -> (r: Vec<u8>)
    ensures
        r@ == a@,
{
    let mut r: Vec<u8> = Vec::new();
    let mut k: usize = 0;
    while k < 12
        invariant
            k <= 12,
            r@ == a@.take(k as int),
        decreases 12 - k,
    {
        r.push(a[k]);
        k = k + 1;
        assert(r@ =~= a@.take(k as int));
    }
    assert(a@.take(12) =~= a@);
    r
}

/// Copy a 12-byte vector into a nonce.
fn vec_to_array12(v: &Vec<u8>) -> (r: [u8; 12])
    requires
        v@.len() == 12,
    ensures
        r@ == v@,
{
    let r: [u8; 12] = [v[0], v[1], v[2], v[3], v[4], v[5], v[6], v[7], v[8], v[9], v[10], v[11]];
    assert(r@ =~= v@);
    r
}

/// Serialize an envelope.
pub fn encode_envelope(m: &Message) -> (r: Vec<u8>)
    ensures
        r@ == enc_envelope(m@),
        wf_envelope(m@),
{
    let mut out: Vec<u8> = Vec::new();
    match m {
        Message::Handshake { public_key } => {
            let l = public_key.len();
        },
        Message::Encrypted { data, nonce } => {
            let l = data.len();
            assert(nonce@.len() == 12);
        },
    }
    match m {
        Message::Handshake { public_key } => {
            write_arr(2, &mut out);
            write_uint(0, &mut out);
            write_bytes(public_key, &mut out);
        },
        Message::Encrypted { data, nonce } => {
            write_arr(3, &mut out);
            write_uint(1, &mut out);
            write_bytes(data, &mut out);
            let nv = array12_to_vec(nonce);
            write_bytes(&nv, &mut out);
        },
    }
    assert(out@ =~= enc_envelope(m@));
    out
}

/// Deserialize a buffer that must hold exactly one envelope.
pub fn decode_envelope(bytes: &Vec<u8>) -> (r: Result<Message, CodecError>)
    ensures
        r matches Ok(m) ==> dec_envelope_full(bytes@) == Some(m@),
        r matches Err(e) ==> e == CodecError::DeserializationFailed && dec_envelope_full(bytes@)
            is None,
{
    assert(bytes@.skip(0) =~= bytes@);
    let (n, p0) = match read_arr(bytes, 0) {
        Some(t) => t,
        None => {
            return Err(CodecError::DeserializationFailed);
        },
    };
    let (tag, p1) = match read_uint(bytes, p0) {
        Some(t) => t,
        None => {
            return Err(CodecError::DeserializationFailed);
        },
    };
    if tag == 0 && n == 2 {
        let (public_key, p2) = match read_bytes(bytes, p1) {
            Some(t) => t,
            None => {
                return Err(CodecError::DeserializationFailed);
            },
        };
        if p2 != bytes.len() {
            return Err(CodecError::DeserializationFailed);
        }
        assert(bytes@.skip(p2 as int) =~= Seq::<u8>::empty());
        Ok(Message::Handshake { public_key })
    } else if tag == 1 && n == 3 {
        let (data, p2) = match read_bytes(bytes, p1) {
            Some(t) => t,
            None => {
                return Err(CodecError::DeserializationFailed);
            },
        };
        let (nv, p3) = match read_bytes(bytes, p2) {
            Some(t) => t,
            None => {
                return Err(CodecError::DeserializationFailed);
            },
        };
        if nv.len() != 12 {
            return Err(CodecError::DeserializationFailed);
        }
        if p3 != bytes.len() {
            return Err(CodecError::DeserializationFailed);
        }
        let nonce = vec_to_array12(&nv);
        assert(bytes@.skip(p3 as int) =~= Seq::<u8>::empty());
        Ok(Message::Encrypted { data, nonce })
    } else {
        Err(CodecError::DeserializationFailed)
    }
}

// ---------------------------------------------------------------------------
// Whole wire records
// ---------------------------------------------------------------------------
/// The wire form of an envelope: its encoding, block-compressed and framed.
pub open spec fn envelope_wire(m: MessageV) -> Seq<u8> {
    record_wire(enc_envelope(m))
}

/// The envelopes whose wire form is defined.
pub open spec fn envelope_wire_ok(m: MessageV) -> bool {
    wf_envelope(m) && record_ok(enc_envelope(m))
}

/// Serialize an envelope, compress it and frame it: one wire record, as the
/// write path of the channel sends it.
pub fn encode_wire_envelope(m: &Message) -> (r: Result<Vec<u8>, CodecError>)
    ensures
        r matches Ok(b) ==> envelope_wire_ok(m@) && b@ == envelope_wire(m@),
        enc_envelope(m@).len() <= MAX_BLOCK_INPUT ==> r is Ok,
        r matches Err(e) ==> e == CodecError::CompressionFailed,
{
    match m {
        Message::Handshake { public_key } => {
            let l = public_key.len();
        },
        Message::Encrypted { data, nonce } => {
            let l = data.len();
            assert(nonce@.len() == 12);
        },
    }
    let enc = encode_envelope(m);
    pack_record(&enc)
}

/// Split one wire record and parse the envelope inside, as the read path of
/// the channel receives it.
pub fn decode_wire_envelope(bytes: &Vec<u8>) -> (r: Result<Message, CodecError>)
    ensures
        forall|mv: MessageV|
            envelope_wire_ok(mv) && bytes@ == envelope_wire(mv) ==> r is Ok && r->Ok_0@ == mv,
{
    let payload = match unpack_record(bytes) {
        Ok(p) => p,
        Err(e) => {
            return Err(e);
        },
    };
    match decode_envelope(&payload) {
        Ok(m) => {
            proof {
                assert forall|mv: MessageV|
                    envelope_wire_ok(mv) && bytes@ == envelope_wire(mv) implies m@ == mv by {
                    lemma_envelope_round_trip(mv);
                }
            }
            Ok(m)
        },
        Err(e) => {
            proof {
                assert forall|mv: MessageV|
                    envelope_wire_ok(mv) && bytes@ == envelope_wire(mv) implies false by {
                    lemma_envelope_round_trip(mv);
                }
            }
            Err(e)
        },
    }
}

/// The wire record that sealing a payload under a key and nonce produces.
pub open spec fn sealed_wire(key: Seq<u8>, nonce: Seq<u8>, payload: Seq<u8>) -> Seq<u8> {
    envelope_wire(MessageV::Encrypted { data: aead_ct_of(key, nonce, payload), nonce })
}

/// The keys, nonces and payloads for which sealing is defined.
pub open spec fn sealed_wire_ok(key: Seq<u8>, nonce: Seq<u8>, payload: Seq<u8>) -> bool {
    &&& nonce.len() == 12
    &&& payload.len() <= AEAD_PT_MAX
    &&& aead_ct_of(key, nonce, payload).len() == payload.len() + 16
    &&& record_ok(
        enc_envelope(MessageV::Encrypted { data: aead_ct_of(key, nonce, payload), nonce }),
    )
}

/// Write path of an established channel: encrypt the payload under a fresh
/// nonce and send it as one framed, compressed, encrypted wire record.
pub fn seal_record(key: &SessionKey, payload: &Vec<u8>) -> (r: Result<Vec<u8>, SecureStreamError>)
    ensures
        r matches Ok(b) ==> exists|n: Seq<u8>|
            sealed_wire_ok(key@, n, payload@) && b@ == sealed_wire(key@, n, payload@),
        payload@.len() + 64 <= MAX_BLOCK_INPUT ==> r is Ok,
        r matches Err(e) ==> (e matches SecureStreamError::FailedEncryption { .. } || e
            matches SecureStreamError::Codec { .. }),
{
    proof {
        use_type_invariant(key);
    }
    if payload.len() as u64 > AEAD_PT_MAX {
        return Err(SecureStreamError::FailedEncryption { bytes: payload.clone() });
    }
    let nonce = gen_nonce();
    assert(nonce@.len() == 12);
    let ct = match aead_encrypt(&key.key, &nonce, payload) {
        Some(c) => c,
        None => {
            return Err(SecureStreamError::FailedEncryption { bytes: payload.clone() });
        },
    };
    let env = Message::Encrypted { data: ct, nonce };
    proof {
        crate::cbor::lemma_head_len(4, 3);
        crate::cbor::lemma_head_len(0, 1);
        crate::cbor::lemma_head_len(2, ct@.len() as int);
        crate::cbor::lemma_head_len(2, 12);
    }
    match encode_wire_envelope(&env) {
        Ok(b) => {
            assert(sealed_wire_ok(key@, nonce@, payload@) && b@ == sealed_wire(
                key@,
                nonce@,
                payload@,
            ));
            Ok(b)
        },
        Err(e) => Err(SecureStreamError::Codec { error: e }),
    }
}

/// Read path of an established channel: split one wire record, parse the
/// envelope and decrypt it.  Whatever a peer sealed under the same key
/// comes back exactly; anything else fails without ever yielding a wrong
/// payload.
pub fn open_record(key: &SessionKey, bytes: &Vec<u8>) -> (r: Result<Vec<u8>, SecureStreamError>)
    ensures
        forall|p: Seq<u8>, n: Seq<u8>|
            sealed_wire_ok(key@, n, p) && bytes@ == sealed_wire(key@, n, p) ==> r is Ok
                && r->Ok_0@ == p,
        r matches Err(e) ==> (e matches SecureStreamError::AlreadyHandshaked { .. } || e
            matches SecureStreamError::FailedDecryption { .. } || e
            matches SecureStreamError::Codec { .. }),
{
    let env = match decode_wire_envelope(bytes) {
        Ok(e) => e,
        Err(err) => {
            return Err(SecureStreamError::Codec { error: err });
        },
    };
    let ghost envv = env@;
    match open_payload(key, env) {
        Ok(pt) => {
            assert forall|p: Seq<u8>, n: Seq<u8>|
                sealed_wire_ok(key@, n, p) && bytes@ == sealed_wire(key@, n, p) implies pt@
                == p by {
                assert(envv == (MessageV::Encrypted { data: aead_ct_of(key@, n, p), nonce: n }));
            }
            Ok(pt)
        },
        Err(err) => {
            assert forall|p: Seq<u8>, n: Seq<u8>|
                sealed_wire_ok(key@, n, p) && bytes@ == sealed_wire(key@, n, p) implies false by {
                assert(envv == (MessageV::Encrypted { data: aead_ct_of(key@, n, p), nonce: n }));
            }
            Err(err)
        },
    }
}

/// Seal a client message for the wire: the write path a client uses once
/// its channel is established.
pub fn seal_client_message(key: &SessionKey, m: &ClientMessage) -> (r: Result<
    Vec<u8>,
    SecureStreamError,
>)
    ensures
        r matches Ok(b) ==> exists|n: Seq<u8>|
            sealed_wire_ok(key@, n, enc_client_msg(m@)) && b@ == sealed_wire(
                key@,
                n,
                enc_client_msg(m@),
            ),
        wf_client_msg(m@),
        enc_client_msg(m@).len() + 64 <= MAX_BLOCK_INPUT ==> r is Ok,
        r matches Err(e) ==> (e matches SecureStreamError::FailedEncryption { .. } || e
            matches SecureStreamError::Codec { .. }),
{
    let pt = encode_client_message(m);
    seal_record(key, &pt)
}

/// Open a wire record that must carry a client message: the read path the
/// server uses.  A record sealed from any client message under the same key
/// yields that message back.
pub fn open_client_message(key: &SessionKey, bytes: &Vec<u8>) -> (r: Result<
    ClientMessage,
    SecureStreamError,
>)
    ensures
        forall|mv: ClientMessageV, n: Seq<u8>|
            wf_client_msg(mv) && sealed_wire_ok(key@, n, enc_client_msg(mv)) && bytes@
                == sealed_wire(key@, n, enc_client_msg(mv)) ==> r is Ok && r->Ok_0@ == mv,
        r matches Err(e) ==> (e matches SecureStreamError::AlreadyHandshaked { .. } || e
            matches SecureStreamError::FailedDecryption { .. } || e
            matches SecureStreamError::Codec { .. }),
{
    let pt = match open_record(key, bytes) {
        Ok(p) => p,
        Err(e) => {
            return Err(e);
        },
    };
    match decode_client_message(&pt) {
        Ok(m) => {
            assert forall|mv: ClientMessageV, n: Seq<u8>|
                wf_client_msg(mv) && sealed_wire_ok(key@, n, enc_client_msg(mv)) && bytes@
                    == sealed_wire(key@, n, enc_client_msg(mv)) implies m@ == mv by {
                crate::codec::lemma_client_message_round_trip(mv);
            }
            Ok(m)
        },
        Err(e) => {
            assert forall|mv: ClientMessageV, n: Seq<u8>|
                wf_client_msg(mv) && sealed_wire_ok(key@, n, enc_client_msg(mv)) && bytes@
                    == sealed_wire(key@, n, enc_client_msg(mv)) implies false by {
                crate::codec::lemma_client_message_round_trip(mv);
            }
            Err(SecureStreamError::Codec { error: e })
        },
    }
}

/// Seal a server message for the wire: the write path the server uses for
/// replies and broadcasts.
pub fn seal_server_message(key: &SessionKey, m: &ServerMessage) -> (r: Result<
    Vec<u8>,
    SecureStreamError,
>)
    ensures
        r matches Ok(b) ==> exists|n: Seq<u8>|
            sealed_wire_ok(key@, n, enc_server_msg(m@)) && b@ == sealed_wire(
                key@,
                n,
                enc_server_msg(m@),
            ),
        wf_server_msg(m@),
        enc_server_msg(m@).len() + 64 <= MAX_BLOCK_INPUT ==> r is Ok,
        r matches Err(e) ==> (e matches SecureStreamError::FailedEncryption { .. } || e
            matches SecureStreamError::Codec { .. }),
{
    let pt = encode_server_message(m);
    seal_record(key, &pt)
}

/// Open a wire record that must carry a server message: the read path a
/// client uses.  A record sealed from any server message under the same key
/// yields that message back.
pub fn open_server_message(key: &SessionKey, bytes: &Vec<u8>) -> (r: Result<
    ServerMessage,
    SecureStreamError,
>)
    ensures
        forall|mv: ServerMessageV, n: Seq<u8>|
            wf_server_msg(mv) && sealed_wire_ok(key@, n, enc_server_msg(mv)) && bytes@
                == sealed_wire(key@, n, enc_server_msg(mv)) ==> r is Ok && r->Ok_0@ == mv,
        r matches Err(e) ==> (e matches SecureStreamError::AlreadyHandshaked { .. } || e
            matches SecureStreamError::FailedDecryption { .. } || e
            matches SecureStreamError::Codec { .. }),
{
    let pt = match open_record(key, bytes) {
        Ok(p) => p,
        Err(e) => {
            return Err(e);
        },
    };
    match decode_server_message(&pt) {
        Ok(m) => {
            assert forall|mv: ServerMessageV, n: Seq<u8>|
                wf_server_msg(mv) && sealed_wire_ok(key@, n, enc_server_msg(mv))
                    && bytes@ == sealed_wire(key@, n, enc_server_msg(mv)) implies m@ == mv by {
                crate::codec::lemma_server_message_round_trip(mv);
            }
            Ok(m)
        },
        Err(e) => {
            assert forall|mv: ServerMessageV, n: Seq<u8>|
                wf_server_msg(mv) && sealed_wire_ok(key@, n, enc_server_msg(mv))
                    && bytes@ == sealed_wire(key@, n, enc_server_msg(mv)) implies false by {
                crate::codec::lemma_server_message_round_trip(mv);
            }
            Err(SecureStreamError::Codec { error: e })
        },
    }
}

} // verus!
