//! Fixed-size message framing: an embedded-public-key prefix around an AEAD
//! ciphertext (one onion layer per hop), and a fixed-size plaintext followed
//! by a 4-byte deaddrop rendezvous tag.

use vstd::prelude::*;

use crate::codec;
use crate::onion;
use crate::onion::{DerivedKey, EncryptionPurpose, Message, PublicKey};

verus! {

/// Size of the raw plaintext a client hands in, before any encryption.
pub const RAW_SIZE: usize = 256;

/// Size of the content slot of a packed message: a raw plaintext once
/// encrypted, tag included.
pub const CONTENT_SIZE: usize = RAW_SIZE + onion::TAG_LEN;

/// Size of a packed message: content plus the 4-byte deaddrop tag.
pub const PACKED_SIZE: usize = CONTENT_SIZE + 4;

/// Bytes one onion layer adds: the embedded public key and the AEAD tag.
pub const LAYER_LEN: usize = onion::PK_LEN + onion::TAG_LEN;

/// Copies `v[start..end]` into a fresh vector.
pub(crate) fn copy_range(v: &Vec<u8>, start: usize, end: usize) -> (r: Vec<u8>)
    requires
        start <= end <= v@.len(),
    ensures
        r@ == v@.subrange(start as int, end as int),
{
    let mut r: Vec<u8> = Vec::new();
    let mut i = start;
    while i < end
        invariant
            start <= i <= end <= v@.len(),
            r@ == v@.subrange(start as int, i as int),
        decreases end - i,
    {
        r.push(v[i]);
        proof {
            assert(r@ =~= v@.subrange(start as int, i + 1 as int));
        }
        i += 1;
    }
    r
}

/// Appends a copy of `src` to `dst`.
pub(crate) fn append_vec(dst: &mut Vec<u8>, src: &Vec<u8>)
    ensures
        final(dst)@ == old(dst)@ + src@,
{
    let mut i: usize = 0;
    while i < src.len()
        invariant
            i <= src@.len(),
            dst@ == old(dst)@ + src@.subrange(0, i as int),
        decreases src@.len() - i,
    {
        dst.push(src[i]);
        proof {
            assert(dst@ =~= old(dst)@ + src@.subrange(0, i + 1 as int));
        }
        i += 1;
    }
    proof {
        assert(dst@ =~= old(dst)@ + src@);
    }
}

/// Joins an embedded public key and a ciphertext into one wrapped message.
pub fn wrap(k: &PublicKey, m: &Message) -> (r: Message)
    ensures
        r@ == k@ + m@,
{
    let mut w = copy_range(k, 0, k.len());
    proof {
        assert(w@ =~= k@);
    }
    append_vec(&mut w, m);
    w
}

/// Splits a wrapped message into its embedded public key and the ciphertext.
pub fn unwrap(w: &Message) -> (r: (PublicKey, Message))
    requires
        w@.len() >= onion::PK_LEN,
    ensures
        r.0@ == w@.subrange(0, onion::PK_LEN as int),
        r.1@ == w@.skip(onion::PK_LEN as int),
        w@ == r.0@ + r.1@,
{
    let pk = copy_range(w, 0, onion::PK_LEN);
    let c = copy_range(w, onion::PK_LEN, w.len());
    proof {
        assert(c@ =~= w@.skip(onion::PK_LEN as int));
        assert(w@ =~= pk@ + c@);
    }
    (pk, c)
}

/// Relies on rand::random for u32: an arbitrary 32-bit value from the
/// thread-local CSPRNG. Nothing can be promised of it.
#[verifier::external_body]
fn random_u32() -> u32 {
    rand::random()
}

/// A 32-bit rendezvous tag. Two parties holding the same derived key compute
/// the same tag; dummy traffic samples its tags uniformly.
#[derive(Clone, Copy, Debug, PartialEq, Eq, Structural)]
pub struct Deaddrop {
    pub location: u32,
}

impl Deaddrop {
    /// The tag determined by a derived key: its four leading bytes.
    pub fn new(dk: &DerivedKey) -> (r: Deaddrop)
        requires
            dk@.len() >= 4,
        ensures
            r.location == codec::be_u32_of(dk@.subrange(0, 4)),
    {
        let b = copy_range(dk, 0, 4);
        Deaddrop::from_bytes(b.as_slice())
    }

    /// The tag held by four big-endian bytes.
    pub fn from_bytes(bytes: &[u8]) -> (r: Deaddrop)
        requires
            bytes@.len() == 4,
        ensures
            r.location == codec::be_u32_of(bytes@),
    {
        Deaddrop { location: codec::read_u32_be(bytes) }
    }

    /// A uniformly random tag, for dummy traffic.
    pub fn sample() -> Deaddrop {
        Deaddrop { location: random_u32() }
    }

    pub fn location(&self) -> (r: u32)
        ensures
            r == self.location,
    {
        self.location
    }

    /// The tag's four big-endian bytes.
    pub fn bytes(&self) -> (r: Vec<u8>)
        ensures
            r@ == codec::be_bytes_of(self.location),
    {
        codec::write_u32_be(self.location)
    }
}

/// A packed message: the content followed by the tag's four bytes.
pub open spec fn packed(content: Seq<u8>, loc: u32) -> Seq<u8> {
    content + codec::be_bytes_of(loc)
}

/// An all-zero content slot.
pub open spec fn zero_content() -> Seq<u8> {
    Seq::new(CONTENT_SIZE as nat, |i: int| 0u8)
}

/// A packed message whose content slot is all zeros: dummy traffic, and the
/// "no reply available" placeholder.
pub open spec fn is_blank(m: Seq<u8>) -> bool {
    m.len() == PACKED_SIZE && forall|i: int| 0 <= i < CONTENT_SIZE ==> m[i] == 0
}

/// Appends a deaddrop tag to a fixed-size content slot.
pub fn pack(m: &Vec<u8>, d: &Deaddrop) -> (r: Message)
    requires
        m@.len() == CONTENT_SIZE,
    ensures
        r@ == packed(m@, d.location),
        r@.len() == PACKED_SIZE,
{
    let mut p = copy_range(m, 0, m.len());
    proof {
        assert(p@ =~= m@);
    }
    let tail = codec::write_u32_be(d.location);
    append_vec(&mut p, &tail);
    p
}

/// Splits a packed message into its content slot and its deaddrop tag.
pub fn unpack(w: Message) -> (r: (Vec<u8>, Deaddrop))
    requires
        w@.len() == PACKED_SIZE,
    ensures
        r.0@ == w@.subrange(0, CONTENT_SIZE as int),
        r.1.location == codec::be_u32_of(w@.subrange(CONTENT_SIZE as int, PACKED_SIZE as int)),
        packed(r.0@, r.1.location) == w@,
{
    let m = copy_range(&w, 0, CONTENT_SIZE);
    let tail = copy_range(&w, CONTENT_SIZE, PACKED_SIZE);
    let d = Deaddrop::from_bytes(tail.as_slice());
    proof {
        codec::lemma_be_round_trip_bytes(w@.subrange(CONTENT_SIZE as int, PACKED_SIZE as int));
        assert(packed(m@, d.location) =~= w@);
    }
    (m, d)
}

/// Unpacking inverts packing: for any content of the fixed size and any tag,
/// a packed message splits back into exactly that content and that tag.
pub proof fn lemma_pack_unpack(content: Seq<u8>, loc: u32)
    requires
        content.len() == CONTENT_SIZE,
    ensures
        packed(content, loc).len() == PACKED_SIZE,
        packed(content, loc).subrange(0, CONTENT_SIZE as int) == content,
        codec::be_u32_of(packed(content, loc).subrange(CONTENT_SIZE as int, PACKED_SIZE as int))
            == loc,
{
    assert(packed(content, loc).subrange(0, CONTENT_SIZE as int) =~= content);
    assert(packed(content, loc).subrange(CONTENT_SIZE as int, PACKED_SIZE as int)
        =~= codec::be_bytes_of(loc));
    codec::lemma_be_round_trip(loc);
}

/// The deterministic all-zero placeholder carrying a given tag.
pub fn blank(d: &Deaddrop) -> (r: Message)
    ensures
        r@ == packed(zero_content(), d.location),
        is_blank(r@),
        r@.len() == PACKED_SIZE,
{
    let mut z: Vec<u8> = Vec::new();
    let mut i: usize = 0;
    while i < CONTENT_SIZE
        invariant
            i <= CONTENT_SIZE,
            z@.len() == i,
            forall|j: int| 0 <= j < i ==> z@[j] == 0u8,
        decreases CONTENT_SIZE - i,
    {
        z.push(0u8);
        i += 1;
    }
    proof {
        assert(z@ =~= zero_content());
    }
    pack(&z, d)
}

/// The onion wrapping of a payload: one layer per server, outermost first,
/// each layer an ephemeral public key prefix around a sealing under the key
/// that ephemeral derives with that server.
pub open spec fn onion_wrapped(ephs: Seq<Seq<u8>>, pks: Seq<Seq<u8>>, m: Seq<u8>) -> Seq<u8>
    decreases pks.len(),
{
    if pks.len() == 0 {
        m
    } else {
        onion::x25519_public(ephs[0]) + onion::sealed(
            onion::derived_key(ephs[0], pks[0]),
            onion::nonce_of(0),
            onion_wrapped(ephs.skip(1), pks.skip(1), m),
        )
    }
}

/// The per-hop keys match the ephemerals behind an onion wrapping.
pub open spec fn onion_keys_match(ephs: Seq<Seq<u8>>, dks: Seq<Seq<u8>>, pks: Seq<Seq<u8>>) -> bool {
    &&& ephs.len() == pks.len()
    &&& dks.len() == pks.len()
    &&& forall|i: int| 0 <= i < pks.len() ==> #[trigger] dks[i] == onion::derived_key(ephs[i], pks[i])
}

/// Wraps a payload once per server, iterating the list in reverse so that the
/// first server's layer is outermost, and returns the per-hop derived keys in
/// forward order (hop 1 first) beside the fully wrapped message.
pub fn forward_onion_encrypt(pks: &Vec<PublicKey>, m: Message) -> (r: (Vec<DerivedKey>, Message))
    requires
        forall|i: int| 0 <= i < pks@.len() ==> (#[trigger] pks@[i]@).len() == onion::KEY_LEN,
        m@.len() + LAYER_LEN * pks@.len() <= onion::MAX_MSG_LEN,
    ensures
        r.0@.len() == pks@.len(),
        forall|i: int| 0 <= i < r.0@.len() ==> (#[trigger] r.0@[i]@).len() == onion::KEY_LEN,
        r.1@.len() == m@.len() + LAYER_LEN * pks@.len(),
        exists|ephs: Seq<Seq<u8>>|
            onion_keys_match(ephs, r.0.deep_view(), pks.deep_view()) && r.1@ == onion_wrapped(
                ephs,
                pks.deep_view(),
                m@,
            ),
{
    let ghost orig_m = m@;
    let ghost deep_pks = pks.deep_view();
    let n = pks.len();
    proof {
        assert(forall|i: int| 0 <= i < n ==> #[trigger] deep_pks[i] == pks@[i]@);
    }
    let mut dks_rev: Vec<DerivedKey> = Vec::new();
    let mut cur = m;
    let ghost mut ephs: Seq<Seq<u8>> = Seq::empty();
    let mut idx: usize = n;
    while idx > 0
        invariant
            idx <= n,
            n == pks@.len(),
            deep_pks == pks.deep_view(),
            forall|i: int| 0 <= i < n ==> #[trigger] deep_pks[i] == pks@[i]@,
            forall|i: int| 0 <= i < pks@.len() ==> (#[trigger] pks@[i]@).len() == onion::KEY_LEN,
            orig_m.len() + LAYER_LEN * n <= onion::MAX_MSG_LEN,
            dks_rev@.len() == n - idx,
            ephs.len() == n - idx,
            cur@ == onion_wrapped(ephs, deep_pks.skip(idx as int), orig_m),
            cur@.len() == orig_m.len() + LAYER_LEN * (n - idx),
            forall|j: int|
                0 <= j < dks_rev@.len() ==> (#[trigger] dks_rev@[j]@) == onion::derived_key(
                    ephs[n - 1 - j - idx],
                    deep_pks[n - 1 - j],
                ) && dks_rev@[j]@.len() == onion::KEY_LEN,
        decreases idx,
    {
        idx = idx - 1;
        let (sk, pk) = onion::keygen();
        let dk = onion::derive_exact(&sk, &pks[idx]);
        let ghost prev = cur@;
        proof {
            let l = LAYER_LEN as int;
            assert(cur@.len() == orig_m.len() + l * (n - idx - 1));
            assert(l * (n - idx - 1) + l == l * (n - idx)) by (nonlinear_arith);
            assert(l * (n - idx) <= l * n) by (nonlinear_arith)
                requires
                    0 <= idx,
                    idx < n,
                    l == LAYER_LEN as int,
            ;
        }
        let c = onion::encrypt(&dk, cur, EncryptionPurpose::Forward);
        cur = wrap(&pk, &c);
        dks_rev.push(dk);
        proof {
            let ghost prev_ephs = ephs;
            ephs = seq![sk@] + prev_ephs;
            assert(ephs.skip(1) =~= prev_ephs);
            assert(deep_pks.skip(idx as int).skip(1) =~= deep_pks.skip(idx + 1));
            assert(deep_pks.skip(idx as int)[0] == deep_pks[idx as int]);
            assert(cur@ == onion_wrapped(ephs, deep_pks.skip(idx as int), orig_m));
        }
    }
    proof {
        assert(deep_pks.skip(0) =~= deep_pks);
    }
    let mut dks: Vec<DerivedKey> = Vec::new();
    while dks_rev.len() > 0
        invariant
            n == pks@.len(),
            deep_pks == pks.deep_view(),
            ephs.len() == n,
            dks@.len() + dks_rev@.len() == n,
            forall|k: int|
                0 <= k < dks@.len() ==> (#[trigger] dks@[k]@) == onion::derived_key(
                    ephs[k],
                    deep_pks[k],
                ) && dks@[k]@.len() == onion::KEY_LEN,
            forall|j: int|
                0 <= j < dks_rev@.len() ==> (#[trigger] dks_rev@[j]@) == onion::derived_key(
                    ephs[n - 1 - j],
                    deep_pks[n - 1 - j],
                ) && dks_rev@[j]@.len() == onion::KEY_LEN,
        decreases dks_rev@.len(),
    {
        match dks_rev.pop() {
            Some(dk) => {
                dks.push(dk);
            },
            None => {
                proof {
                    assert(false);
                }
            },
        }
    }
    proof {
        assert(forall|i: int| 0 <= i < n ==> #[trigger] dks.deep_view()[i] == dks@[i]@);
        assert(onion_keys_match(ephs, dks.deep_view(), deep_pks));
    }
    (dks, cur)
}

/// The result of peeling one return-trip layer per key, in the given order:
/// the innermost payload when every layer authenticates, nothing otherwise.
pub open spec fn peeled(dks: Seq<Seq<u8>>, c: Seq<u8>) -> Option<Seq<u8>>
    decreases dks.len(),
{
    if dks.len() == 0 {
        Some(c)
    } else {
        match onion::unsealed(dks[0], onion::nonce_of(1), c) {
            Some(m) => peeled(dks.skip(1), m),
            None => None,
        }
    }
}

/// Applies one authenticated decryption per key, in the given order, peeling
/// the layers the servers added on the return trip.
pub fn backward_onion_decrypt(dks: &Vec<DerivedKey>, c: Message) -> (r: Result<Message, ()>)
    requires
        forall|i: int| 0 <= i < dks@.len() ==> (#[trigger] dks@[i]@).len() == onion::KEY_LEN,
    ensures
        match r {
            Ok(m) => peeled(dks.deep_view(), c@) == Some(m@),
            Err(_) => peeled(dks.deep_view(), c@) is None,
        },
{
    let ghost all = dks.deep_view();
    let ghost orig = c@;
    proof {
        assert(forall|i: int| 0 <= i < dks@.len() ==> #[trigger] all[i] == dks@[i]@);
        assert(all.skip(0) =~= all);
    }
    let mut cur = copy_range(&c, 0, c.len());
    proof {
        assert(cur@ =~= orig);
    }
    let mut i: usize = 0;
    while i < dks.len()
        invariant
            i <= dks@.len(),
            all == dks.deep_view(),
            orig == c@,
            forall|k: int| 0 <= k < dks@.len() ==> #[trigger] all[k] == dks@[k]@,
            forall|k: int| 0 <= k < dks@.len() ==> (#[trigger] dks@[k]@).len() == onion::KEY_LEN,
            peeled(all, orig) == peeled(all.skip(i as int), cur@),
        decreases dks@.len() - i,
    {
        let ghost before = cur@;
        proof {
            assert(all.skip(i as int)[0] == all[i as int]);
            assert(all.skip(i as int).skip(1) =~= all.skip(i + 1));
        }
        match onion::decrypt(&dks[i], cur, EncryptionPurpose::Backward) {
            Ok(m) => {
                cur = m;
            },
            Err(_) => {
                proof {
                    assert(onion::unsealed(all[i as int], onion::nonce_of(1), before) is None);
                    assert(peeled(all.skip(i as int), before) is None);
                    assert(peeled(all, orig) is None);
                }
                return Err(());
            },
        }
        i += 1;
    }
    proof {
        assert(all.skip(dks@.len() as int) =~= Seq::empty());
    }
    Ok(cur)
}

} // verus!
