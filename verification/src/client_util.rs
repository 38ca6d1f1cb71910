//! Client-side framing of one conversation message: seal the padded
//! plaintext under the two parties' shared key with a per-round purpose, tag
//! it with that key's deaddrop, and wrap it once per server; and the inverse
//! walk over a received reply.

use vstd::prelude::*;

use crate::codec;
use crate::message;
use crate::message::{Deaddrop, LAYER_LEN, PACKED_SIZE, RAW_SIZE};
use crate::onion;
use crate::onion::{DerivedKey, EncryptionPurpose, Message, PublicKey};

verus! {

/// The purpose word of one round's end-to-end layer: the round number
/// blinded by the recipient's leading public-key bytes.
pub open spec fn client_purpose(round: u32, pk: Seq<u8>) -> u32 {
    round ^ codec::be_u32_of(pk.subrange(0, 4))
}

/// The raw plaintext padded with zeros to the fixed size.
pub open spec fn padded(m: Seq<u8>) -> Seq<u8>
    recommends
        m.len() <= RAW_SIZE,
{
    m + Seq::new((RAW_SIZE - m.len()) as nat, |i: int| 0u8)
}

/// The packed end-to-end unit a client builds for one round: the padded
/// plaintext sealed under the two-party key, tagged with that key's deaddrop.
pub open spec fn client_packed(round: u32, m: Seq<u8>, pk: Seq<u8>, dk: Seq<u8>) -> Seq<u8> {
    message::packed(
        onion::sealed(dk, onion::nonce_of(client_purpose(round, pk)), padded(m)),
        codec::be_u32_of(dk.subrange(0, 4)),
    )
}

/// What unwrapping a reply yields: the server layers peeled in order, then
/// the end-to-end layer opened under the two-party key.
pub open spec fn reply_opened(
    round: u32,
    pk: Seq<u8>,
    dk: Seq<u8>,
    server_dks: Seq<Seq<u8>>,
    c: Seq<u8>,
) -> Option<Seq<u8>> {
    match message::peeled(server_dks, c) {
        Some(mid) => onion::unsealed(dk, onion::nonce_of(client_purpose(round, pk)), mid),
        None => None,
    }
}

/// For one party to wrap a message for the other, to travel the whole chain
/// this round. `pk` is the recipient's public key, `dk` the two parties'
/// derived key, `server_pks` the chain's static public keys in hop order.
/// Returns the per-hop ephemeral derived keys (needed to unwrap the reply)
/// beside the fully wrapped onion.
pub fn wrap(
    round: u32,
    m: Vec<u8>,
    pk: &PublicKey,
    dk: &DerivedKey,
    server_pks: &Vec<PublicKey>,
) -> (r: (Vec<DerivedKey>, Message))
    requires
        m@.len() <= RAW_SIZE,
        pk@.len() >= 4,
        dk@.len() == onion::KEY_LEN,
        forall|i: int|
            0 <= i < server_pks@.len() ==> (#[trigger] server_pks@[i]@).len() == onion::KEY_LEN,
        PACKED_SIZE + LAYER_LEN * server_pks@.len() <= onion::MAX_MSG_LEN,
    ensures
        r.0@.len() == server_pks@.len(),
        forall|i: int| 0 <= i < r.0@.len() ==> (#[trigger] r.0@[i]@).len() == onion::KEY_LEN,
        r.1@.len() == PACKED_SIZE + LAYER_LEN * server_pks@.len(),
        exists|ephs: Seq<Seq<u8>>|
            message::onion_keys_match(ephs, r.0.deep_view(), server_pks.deep_view()) && r.1@
                == message::onion_wrapped(
                ephs,
                server_pks.deep_view(),
                client_packed(round, m@, pk@, dk@),
            ),
{
    let mut p = message::copy_range(&m, 0, m.len());
    proof {
        assert(p@ =~= m@);
    }
    while p.len() < RAW_SIZE
        invariant
            m@.len() <= p@.len() <= RAW_SIZE,
            p@.subrange(0, m@.len() as int) == m@,
            forall|j: int| m@.len() <= j < p@.len() ==> p@[j] == 0u8,
        decreases RAW_SIZE - p@.len(),
    {
        p.push(0u8);
        proof {
            assert(p@.subrange(0, m@.len() as int) =~= m@);
        }
    }
    proof {
        assert(p@ =~= padded(m@));
    }
    let pkb = message::copy_range(pk, 0, 4);
    let purpose = round ^ codec::read_u32_be(pkb.as_slice());
    proof {
        assert(purpose == client_purpose(round, pk@));
    }
    let e = onion::encrypt(dk, p, EncryptionPurpose::FromBytes(purpose));
    let drop = Deaddrop::new(dk);
    let w = message::pack(&e, &drop);
    proof {
        assert(w@ == client_packed(round, m@, pk@, dk@));
    }
    message::forward_onion_encrypt(server_pks, w)
}

/// For the sender to unwrap the reply that came back through the chain:
/// peels the servers' return layers with the keys `wrap` returned, then
/// opens the end-to-end layer under the two-party key. `pk` is this party's
/// own public key (what the other side blinded the purpose with). Returns an
/// authentication failure — never a wrong plaintext — whenever any layer
/// fails to verify.
pub fn unwrap(
    round: u32,
    c: Message,
    pk: &PublicKey,
    dk: &DerivedKey,
    server_dks: Vec<DerivedKey>,
) -> (r: Result<Vec<u8>, ()>)
    requires
        pk@.len() >= 4,
        dk@.len() == onion::KEY_LEN,
        forall|i: int|
            0 <= i < server_dks@.len() ==> (#[trigger] server_dks@[i]@).len() == onion::KEY_LEN,
    ensures
        match r {
            Ok(m) => reply_opened(round, pk@, dk@, server_dks.deep_view(), c@) == Some(m@),
            Err(_) => reply_opened(round, pk@, dk@, server_dks.deep_view(), c@) is None,
        },
{
    let mid = match message::backward_onion_decrypt(&server_dks, c) {
        Ok(m) => m,
        Err(_) => {
            return Err(());
        },
    };
    let pkb = message::copy_range(pk, 0, 4);
    let purpose = round ^ codec::read_u32_be(pkb.as_slice());
    proof {
        assert(purpose == client_purpose(round, pk@));
    }
    onion::decrypt(dk, mid, EncryptionPurpose::FromBytes(purpose))
}

} // verus!
