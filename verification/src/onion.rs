//! Per-hop cryptography: X25519 key agreement, HKDF-SHA256 key derivation,
//! and AES-256-GCM authenticated encryption under purpose-tagged nonces.
//!
//! The outside calls stand behind trusted wrappers; everything a wrapper
//! returns is named by an uninterpreted spec function of its arguments, so
//! that the callers' own contracts are exact.

use vstd::prelude::*;

use crate::codec;
use rand::Rng;

verus! {

pub type PrivateKey = Vec<u8>;

pub type PublicKey = Vec<u8>;

pub type KeyPair = (PrivateKey, PublicKey);

pub type DerivedKey = Vec<u8>;

pub type Message = Vec<u8>;

/// Length of an X25519 key, public or private, and of an AES-256 key.
pub const KEY_LEN: usize = 32;

/// Length of the public key embedded at the front of a wrapped onion layer.
pub const PK_LEN: usize = 32;

/// Length of the authentication tag AES-256-GCM appends.
pub const TAG_LEN: usize = 16;

/// Length of an AES-GCM nonce.
pub const NONCE_LEN: usize = 12;

/// Bound under which sealing is guaranteed to succeed; far below the
/// AES-GCM input limit of (2^39 - 256) / 8 bytes.
pub const MAX_MSG_LEN: usize = 0x4000_0000;

/// Selects the fixed nonce for one logical direction or context, so that a
/// derived key is never used twice with the same nonce for two different
/// semantic messages.
#[derive(Clone, Copy)]
pub enum EncryptionPurpose {
    Forward,
    Backward,
    FromBytes(u32),
}

impl EncryptionPurpose {
    /// The 32-bit word that distinguishes this purpose.
    pub open spec fn value(self) -> u32 {
        match self {
            EncryptionPurpose::Forward => 0,
            EncryptionPurpose::Backward => 1,
            EncryptionPurpose::FromBytes(b) => b,
        }
    }

    pub fn to_value(&self) -> (r: u32)
        ensures
            r == self.value(),
    {
        match self {
            EncryptionPurpose::Forward => 0,
            EncryptionPurpose::Backward => 1,
            EncryptionPurpose::FromBytes(b) => *b,
        }
    }
}

/// The nonce used for a purpose word: its four big-endian bytes, zero-padded.
pub open spec fn nonce_of(v: u32) -> Seq<u8> {
    codec::be_bytes_of(v) + Seq::new(8, |i: int| 0u8)
}

fn make_nonce(v: u32) -> (r: Vec<u8>)
    ensures
        r@ == nonce_of(v),
        r@.len() == NONCE_LEN,
{
    let mut r = codec::write_u32_be(v);
    r.push(0u8);
    r.push(0u8);
    r.push(0u8);
    r.push(0u8);
    r.push(0u8);
    r.push(0u8);
    r.push(0u8);
    r.push(0u8);
    assert(r@ =~= nonce_of(v));
    r
}

/// The X25519 public key belonging to 32 private-key bytes.
pub uninterp spec fn x25519_public(sk: Seq<u8>) -> Seq<u8>;

/// The X25519 shared point computed from one party's private key and the
/// other party's public key.
pub uninterp spec fn shared_secret(sk: Seq<u8>, pk: Seq<u8>) -> Seq<u8>;

/// The 32-byte HKDF-SHA256 expansion (empty salt, empty info) of a secret.
pub uninterp spec fn hkdf32(secret: Seq<u8>) -> Seq<u8>;

/// The AES-256-GCM sealing of a message under a key and nonce: the
/// ciphertext with its 16-byte tag appended.
pub uninterp spec fn sealed(key: Seq<u8>, nonce: Seq<u8>, msg: Seq<u8>) -> Seq<u8>;

/// The AES-256-GCM opening of a ciphertext under a key and nonce: the sealed
/// plaintext when the tag verifies, nothing otherwise.
pub uninterp spec fn unsealed(key: Seq<u8>, nonce: Seq<u8>, ct: Seq<u8>) -> Option<Seq<u8>>;

/// The symmetric key two parties derive: key agreement, then HKDF.
pub open spec fn derived_key(sk: Seq<u8>, pk: Seq<u8>) -> Seq<u8> {
    hkdf32(shared_secret(sk, pk))
}

/// What key agreement returns: the named shared point, 32 bytes, satisfying
/// the Diffie-Hellman relation with whichever private key `pk` belongs to.
pub open spec fn agreement_post(r: Seq<u8>, sk: Seq<u8>, pk: Seq<u8>) -> bool {
    &&& r == shared_secret(sk, pk)
    &&& r.len() == KEY_LEN
    &&& forall|sk2: Seq<u8>|
        pk == #[trigger] x25519_public(sk2) ==> shared_secret(sk, pk) == shared_secret(
            sk2,
            x25519_public(sk),
        )
}


/// Relies on rand::rng + Rng::fill_bytes: fills the whole buffer with bytes
/// from the thread-local CSPRNG. Nothing can be promised of the values.
#[verifier::external_body]
fn fill_random(buf: &mut Vec<u8>)
    ensures
        final(buf)@.len() == old(buf)@.len(),
{
    rand::rng().fill_bytes(buf.as_mut_slice());
}

/// Relies on x25519_dalek::PublicKey::from(&StaticSecret): the public key is
/// a deterministic function of the 32 secret-key bytes (clamped base-point
/// multiplication), 32 bytes long.
#[verifier::external_body]
fn x25519_base(sk: &Vec<u8>) -> (r: Vec<u8>)
    requires
        sk@.len() == KEY_LEN,
    ensures
        r@ == x25519_public(sk@) && r@.len() == KEY_LEN,
{
    let mut b = [0u8; 32];
    b.copy_from_slice(sk.as_slice());
    let secret = x25519_dalek::StaticSecret::from(b);
    x25519_dalek::PublicKey::from(&secret).to_bytes().to_vec()
}

/// Relies on x25519_dalek::StaticSecret::diffie_hellman: the shared point is
/// a deterministic, total function of the two 32-byte inputs, and X25519
/// satisfies the Diffie-Hellman relation of RFC 7748 — agreeing one's own
/// private key with the other party's public key gives the same point either
/// way around.
#[verifier::external_body]
fn x25519_agree(sk: &Vec<u8>, pk: &Vec<u8>) -> (r: Vec<u8>)
    requires
        sk@.len() == KEY_LEN,
        pk@.len() == KEY_LEN,
    ensures
        r@ == shared_secret(sk@, pk@),
        agreement_post(r@, sk@, pk@),
{
    let mut sb = [0u8; 32];
    sb.copy_from_slice(sk.as_slice());
    let mut pb = [0u8; 32];
    pb.copy_from_slice(pk.as_slice());
    let secret = x25519_dalek::StaticSecret::from(sb);
    let public = x25519_dalek::PublicKey::from(pb);
    secret.diffie_hellman(&public).to_bytes().to_vec()
}

/// Relies on ring::hkdf (Salt::extract, Prk::expand, Okm::fill) with
/// HKDF_SHA256, empty salt and empty info: a deterministic function of the
/// secret; a 32-byte output is within the HKDF bound, so expand and fill
/// succeed.
#[verifier::external_body]
fn hkdf_expand32(secret: &Vec<u8>) -> (r: Vec<u8>)
    ensures
        r@ == hkdf32(secret@) && r@.len() == KEY_LEN,
{
    let salt = ring::hkdf::Salt::new(ring::hkdf::HKDF_SHA256, &[]);
    let prk = salt.extract(secret.as_slice());
    let okm = prk.expand(&[], ring::hkdf::HKDF_SHA256).unwrap();
    let mut out = vec![0u8; 32];
    okm.fill(&mut out).unwrap();
    out
}

/// Relies on ring::aead with AES_256_GCM (UnboundKey::new, LessSafeKey::
/// seal_in_place_append_tag): sealing is deterministic in key, nonce and
/// plaintext, appends a 16-byte tag, succeeds for a 32-byte key and an input
/// under the GCM length bound, and what it seals opens back to the plaintext
/// under the same key and nonce.
#[verifier::external_body]
fn aead_seal(key: &Vec<u8>, nonce: &Vec<u8>, msg: &Vec<u8>) -> (r: Vec<u8>)
    requires
        key@.len() == KEY_LEN,
        nonce@.len() == NONCE_LEN,
        msg@.len() <= MAX_MSG_LEN,
    ensures
        r@ == sealed(key@, nonce@, msg@),
        r@.len() == msg@.len() + TAG_LEN,
        unsealed(key@, nonce@, r@) == Some(msg@),
{
    let ub = ring::aead::UnboundKey::new(&ring::aead::AES_256_GCM, key.as_slice()).unwrap();
    let k = ring::aead::LessSafeKey::new(ub);
    let mut n = [0u8; 12];
    n.copy_from_slice(nonce.as_slice());
    let mut in_out = msg.clone();
    k.seal_in_place_append_tag(
        ring::aead::Nonce::assume_unique_for_key(n),
        ring::aead::Aad::empty(),
        &mut in_out,
    ).unwrap();
    in_out
}

/// Relies on ring::aead AES_256_GCM open_in_place: opening succeeds exactly
/// on inputs that are the sealing of some plaintext under this key and nonce
/// (the bytes before the 16-byte tag, with the tag verifying), returns that
/// plaintext, and fails on every other input.
#[verifier::external_body]
fn aead_open(key: &Vec<u8>, nonce: &Vec<u8>, ct: &Vec<u8>) -> (r: Result<Vec<u8>, ()>)
    requires
        key@.len() == KEY_LEN,
        nonce@.len() == NONCE_LEN,
    ensures
        match r {
            Ok(m) => unsealed(key@, nonce@, ct@) == Some(m@) && ct@ == sealed(key@, nonce@, m@)
                && m@.len() + TAG_LEN == ct@.len(),
            Err(_) => unsealed(key@, nonce@, ct@) is None,
        },
{
    let ub = ring::aead::UnboundKey::new(&ring::aead::AES_256_GCM, key.as_slice()).unwrap();
    let k = ring::aead::LessSafeKey::new(ub);
    let mut n = [0u8; 12];
    n.copy_from_slice(nonce.as_slice());
    let mut in_out = ct.clone();
    match k.open_in_place(
        ring::aead::Nonce::assume_unique_for_key(n),
        ring::aead::Aad::empty(),
        &mut in_out,
    ) {
        Ok(plain) => Ok(plain.to_vec()),
        Err(_) => Err(()),
    }
}

/// Why key material was rejected before any cryptography ran.
#[derive(Clone, Copy, Debug, PartialEq, Eq, Structural)]
pub enum KeyError {
    BadLength,
}

/// Generates a fresh X25519 key pair from the thread-local CSPRNG.
pub fn keygen() -> (r: (PrivateKey, PublicKey))
    ensures
        r.0@.len() == KEY_LEN,
        r.1@.len() == KEY_LEN,
        r.1@ == x25519_public(r.0@),
{
    let mut sk = vec![0u8; 32];
    fill_random(&mut sk);
    let pk = x25519_base(&sk);
    (sk, pk)
}

/// Key agreement and derivation for keys already known to be well-formed.
pub(crate) fn derive_exact(k1: &PrivateKey, k2: &PublicKey) -> (r: DerivedKey)
    requires
        k1@.len() == KEY_LEN,
        k2@.len() == KEY_LEN,
    ensures
        r@ == derived_key(k1@, k2@),
        r@.len() == KEY_LEN,
        forall|sk2: Seq<u8>|
            k2@ == #[trigger] x25519_public(sk2) ==> derived_key(k1@, k2@) == derived_key(
                sk2,
                x25519_public(k1@),
            ),
{
    let secret = x25519_agree(k1, k2);
    hkdf_expand32(&secret)
}

/// Derives the symmetric key shared by the holder of private key `k1` and
/// the holder of the private counterpart of public key `k2`. Rejects key
/// material of the wrong length; succeeds on exactly the 32-byte inputs.
/// Whenever `k2` is the public key of some private key `sk2`, the result
/// equals what the other party derives from `sk2` and `k1`'s public key.
pub fn derive(k1: &PrivateKey, k2: &PublicKey) -> (r: Result<DerivedKey, KeyError>)
    ensures
        match r {
            Ok(dk) => ({
                &&& k1@.len() == KEY_LEN && k2@.len() == KEY_LEN
                &&& dk@ == derived_key(k1@, k2@)
                &&& dk@.len() == KEY_LEN
                &&& forall|sk2: Seq<u8>|
                    k2@ == #[trigger] x25519_public(sk2) ==> derived_key(k1@, k2@) == derived_key(
                        sk2,
                        x25519_public(k1@),
                    )
            }),
            Err(_) => !(k1@.len() == KEY_LEN && k2@.len() == KEY_LEN),
        },
{
    if k1.len() != KEY_LEN || k2.len() != KEY_LEN {
        return Err(KeyError::BadLength);
    }
    Ok(derive_exact(k1, k2))
}

/// Authenticated encryption of `m` under `k`, with the fixed nonce selected
/// by the purpose. The result is the GCM sealing, 16 bytes longer than the
/// plaintext, and decrypting it under the same key and purpose returns `m`.
pub fn encrypt(k: &DerivedKey, m: Message, p: EncryptionPurpose) -> (r: Message)
    requires
        k@.len() == KEY_LEN,
        m@.len() <= MAX_MSG_LEN,
    ensures
        r@ == sealed(k@, nonce_of(p.value()), m@),
        r@.len() == m@.len() + TAG_LEN,
        unsealed(k@, nonce_of(p.value()), r@) == Some(m@),
{
    let nonce = make_nonce(p.to_value());
    aead_seal(k, &nonce, &m)
}

/// Authenticated decryption: returns the plaintext sealed in `c` under `k`
/// and the purpose's nonce, and an authentication failure — never a wrong
/// plaintext — on every input that is not such a sealing.
pub fn decrypt(k: &DerivedKey, c: Message, p: EncryptionPurpose) -> (r: Result<Message, ()>)
    requires
        k@.len() == KEY_LEN,
    ensures
        match r {
            Ok(m) => ({
                &&& unsealed(k@, nonce_of(p.value()), c@) == Some(m@)
                &&& c@ == sealed(k@, nonce_of(p.value()), m@)
                &&& m@.len() + TAG_LEN == c@.len()
            }),
            Err(_) => unsealed(k@, nonce_of(p.value()), c@) is None,
        },
{
    let nonce = make_nonce(p.to_value());
    aead_open(k, &nonce, &c)
}

} // verus!
