//! The per-server mix transform: the forward pass peels one onion layer from
//! every message, injects dummy traffic, and permutes the batch; the backward
//! pass un-permutes the returned batch and re-encrypts each real slot under
//! the key saved on the way forward.

use vstd::prelude::*;

use crate::codec;
use crate::message;
use crate::message::{Deaddrop, CONTENT_SIZE, LAYER_LEN, PACKED_SIZE};
use crate::onion;
use crate::onion::{DerivedKey, EncryptionPurpose, Message, PrivateKey, PublicKey};
use crate::permute::{apply_spec, is_permutation, Permutation};
use std::collections::HashMap;

verus! {

broadcast use vstd::std_specs::hash::group_hash_axioms;

/// Per-server configuration of the mix transform: the static public keys of
/// the rest of the chain (for wrapping dummy traffic), and this server's own
/// static private key.
pub struct Settings {
    pub other_pks: Vec<PublicKey>,
    pub sk: PrivateKey,
}

impl Settings {
    pub open spec fn wf(&self) -> bool {
        &&& self.sk@.len() == onion::KEY_LEN
        &&& forall|i: int|
            0 <= i < self.other_pks@.len() ==> (#[trigger] self.other_pks@[i]@).len()
                == onion::KEY_LEN
        &&& PACKED_SIZE + LAYER_LEN * self.other_pks@.len() <= onion::MAX_MSG_LEN
    }
}

/// What one round's forward pass retains so that the matching backward call
/// can invert it: the per-message derived keys in pre-permutation order, the
/// sampled permutation, and how many leading slots are real traffic. Created
/// by `forward`, consumed by `backward`, then dropped.
pub struct State {
    pub keys: Vec<DerivedKey>,
    pub permutation: Permutation,
    pub n: usize,
}

impl State {
    pub open spec fn wf(&self) -> bool {
        &&& self.keys@.len() == self.n
        &&& self.n <= self.permutation@.len()
        &&& self.permutation.wf()
        &&& forall|i: int|
            0 <= i < self.keys@.len() ==> (#[trigger] self.keys@[i]@).len() == onion::KEY_LEN
    }

    /// How many slots the permuted batch holds, real and noise together.
    pub open spec fn batch_len(&self) -> int {
        self.permutation@.len() as int
    }

    /// The batch size the matching backward call must be handed.
    pub fn batch_size(&self) -> (r: usize)
        ensures
            r == self.batch_len(),
    {
        self.permutation.size()
    }
}

/// What the forward pass leaves in pre-permutation slot `j`: for a real slot,
/// the decrypted inner layer, or a blank substitute when authentication
/// failed; for a noise slot, a dummy wrapped for the remaining `h` hops.
pub open spec fn forward_slot_ok(
    out: Seq<u8>,
    input: Seq<Vec<u8>>,
    keys: Seq<Vec<u8>>,
    j: int,
    h: int,
) -> bool {
    if j < input.len() {
        match onion::unsealed(keys[j]@, onion::nonce_of(0), input[j]@.skip(onion::PK_LEN as int)) {
            Some(p) => out == p,
            None => message::is_blank(out),
        }
    } else {
        out.len() == PACKED_SIZE + LAYER_LEN * h
    }
}

/// The forward pass. Every input message loses its outer layer (or is
/// replaced by a fresh blank if its tag fails to verify, so that the batch
/// size never betrays a bad message); `n1` single dummies and `n2` dummy
/// pairs — each pair sharing one random tag — join the batch, wrapped for the
/// remaining chain exactly as client traffic would be; and a fresh uniform
/// permutation shuffles all of it. The caller draws `n1` and `n2` from its
/// configured, differential-privacy-calibrated noise distribution, already
/// floored at zero; whatever was drawn, the noise only ever grows the batch.
pub fn forward(input: Vec<Message>, settings: &Settings, n1: u32, n2: u32) -> (r: (
    State,
    Vec<Message>,
))
    requires
        settings.wf(),
        forall|i: int| 0 <= i < input@.len() ==> (#[trigger] input@[i]@).len() >= onion::PK_LEN,
        input@.len() + n1 + 2 * (n2 as int) <= usize::MAX,
    ensures
        r.0.wf(),
        r.0.n == input@.len(),
        r.0.batch_len() == input@.len() + n1 + 2 * (n2 as int),
        r.1@.len() == input@.len() + n1 + 2 * (n2 as int),
        r.1@.len() >= input@.len(),
        forall|i: int|
            0 <= i < input@.len() ==> (#[trigger] r.0.keys@[i]@) == onion::derived_key(
                settings.sk@,
                input@[i]@.subrange(0, onion::PK_LEN as int),
            ),
        forall|k: int|
            0 <= k < r.1@.len() ==> forward_slot_ok(
                (#[trigger] r.1@[k])@,
                input@,
                r.0.keys@,
                r.0.permutation@[k] as int,
                settings.other_pks@.len() as int,
            ),
{
    let ghost orig_input = input@;
    let n = input.len();
    let mut keys: Vec<DerivedKey> = Vec::new();
    let mut all: Vec<Message> = Vec::new();
    let mut input = input;
    while input.len() > 0
        invariant
            settings.wf(),
            orig_input.len() == n,
            forall|i: int|
                0 <= i < orig_input.len() ==> (#[trigger] orig_input[i]@).len() >= onion::PK_LEN,
            keys@.len() == all@.len(),
            all@.len() + input@.len() == n,
            input@ == orig_input.skip(all@.len() as int),
            forall|i: int|
                0 <= i < keys@.len() ==> (#[trigger] keys@[i]@) == onion::derived_key(
                    settings.sk@,
                    orig_input[i]@.subrange(0, onion::PK_LEN as int),
                ) && keys@[i]@.len() == onion::KEY_LEN,
            forall|i: int|
                0 <= i < all@.len() ==> forward_slot_ok(
                    (#[trigger] all@[i])@,
                    orig_input,
                    keys@,
                    i,
                    0,
                ),
        decreases input@.len(),
    {
        let ghost t = all@.len() as int;
        proof {
            assert(orig_input.skip(t)[0] == orig_input[t]);
            assert(orig_input.skip(t).remove(0) =~= orig_input.skip(t + 1));
        }
        let w = input.remove(0);
        let (pk, cipher) = message::unwrap(&w);
        let dk = onion::derive_exact(&settings.sk, &pk);
        let inner = match onion::decrypt(&dk, cipher, EncryptionPurpose::Forward) {
            Ok(m) => m,
            Err(_) => message::blank(&Deaddrop::sample()),
        };
        keys.push(dk);
        all.push(inner);
        proof {
            assert(forall|i: int|
                0 <= i < t ==> forward_slot_ok((#[trigger] all@[i])@, orig_input, keys@, i, 0));
            assert(forward_slot_ok(all@[t]@, orig_input, keys@, t, 0));
        }
    }
    let mut j1: u32 = 0;
    while j1 < n1
        invariant
            settings.wf(),
            orig_input.len() == n,
            keys@.len() == n,
            j1 <= n1,
            all@.len() == n + j1,
            n + n1 + 2 * (n2 as int) <= usize::MAX,
            forall|i: int|
                0 <= i < keys@.len() ==> (#[trigger] keys@[i]@) == onion::derived_key(
                    settings.sk@,
                    orig_input[i]@.subrange(0, onion::PK_LEN as int),
                ) && keys@[i]@.len() == onion::KEY_LEN,
            forall|i: int|
                0 <= i < all@.len() ==> forward_slot_ok(
                    (#[trigger] all@[i])@,
                    orig_input,
                    keys@,
                    i,
                    settings.other_pks@.len() as int,
                ),
        decreases n1 - j1,
    {
        let b = message::blank(&Deaddrop::sample());
        let (_dks, wrapped) = message::forward_onion_encrypt(&settings.other_pks, b);
        all.push(wrapped);
        j1 += 1;
    }
    let mut j2: u32 = 0;
    while j2 < n2
        invariant
            settings.wf(),
            orig_input.len() == n,
            keys@.len() == n,
            j2 <= n2,
            all@.len() == n + n1 + 2 * (j2 as int),
            n + n1 + 2 * (n2 as int) <= usize::MAX,
            forall|i: int|
                0 <= i < keys@.len() ==> (#[trigger] keys@[i]@) == onion::derived_key(
                    settings.sk@,
                    orig_input[i]@.subrange(0, onion::PK_LEN as int),
                ) && keys@[i]@.len() == onion::KEY_LEN,
            forall|i: int|
                0 <= i < all@.len() ==> forward_slot_ok(
                    (#[trigger] all@[i])@,
                    orig_input,
                    keys@,
                    i,
                    settings.other_pks@.len() as int,
                ),
        decreases n2 - j2,
    {
        let d = Deaddrop::sample();
        let b1 = message::blank(&d);
        let (_d1, w1) = message::forward_onion_encrypt(&settings.other_pks, b1);
        all.push(w1);
        let b2 = message::blank(&d);
        let (_d2, w2) = message::forward_onion_encrypt(&settings.other_pks, b2);
        all.push(w2);
        j2 += 1;
    }
    let m = all.len();
    let permutation = Permutation::sample(m);
    let ghost all_view = all@;
    let output = permutation.apply(all);
    let st = State { keys, permutation, n };
    proof {
        assert forall|k: int| 0 <= k < output@.len() implies forward_slot_ok(
            (#[trigger] output@[k])@,
            orig_input,
            st.keys@,
            st.permutation@[k] as int,
            settings.other_pks@.len() as int,
        ) by {
            let j = st.permutation@[k] as int;
            assert(output@[k] == all_view[j]);
        }
    }
    (st, output)
}

/// The backward pass: applies the inverse of the round's permutation to the
/// returned batch, then re-encrypts each of the `n` real slots under its
/// saved key with the return purpose, in lockstep with `state.keys`. Noise
/// slots fall away: only the leading `n` slots that existed before noise was
/// appended come back. Output slot `i` is the sealing of the input slot the
/// permutation had sent slot `i` to.
pub fn backward(state: State, input: Vec<Message>) -> (r: Vec<Message>)
    requires
        state.wf(),
        input@.len() == state.batch_len(),
        forall|i: int| 0 <= i < input@.len() ==> (#[trigger] input@[i]@).len() <= onion::MAX_MSG_LEN,
    ensures
        r@.len() == state.n,
        forall|i: int|
            0 <= i < state.n ==> (#[trigger] r@[i])@ == onion::sealed(
                state.keys@[i]@,
                onion::nonce_of(1),
                input@[crate::permute::inverse_index(state.permutation@, i)]@,
            ),
{
    let ghost orig = input@;
    let inv = state.permutation.inverse();
    let ghost invv = inv@;
    let unpermuted = inv.apply(input);
    let ghost upview = unpermuted@;
    let mut unpermuted = unpermuted;
    let mut result: Vec<Message> = Vec::new();
    let mut i: usize = 0;
    while i < state.n
        invariant
            i <= state.n,
            state.wf(),
            orig.len() == state.batch_len(),
            forall|t: int| 0 <= t < orig.len() ==> (#[trigger] orig[t]@).len() <= onion::MAX_MSG_LEN,
            upview.len() == orig.len(),
            upview == apply_spec(invv, orig),
            invv.len() == state.permutation@.len(),
            is_permutation(invv),
            forall|t: int|
                0 <= t < state.permutation@.len() ==> #[trigger] invv[state.permutation@[t] as int]
                    as int == t,
            unpermuted@ == upview.skip(i as int),
            result@.len() == i,
            forall|t: int|
                0 <= t < i ==> (#[trigger] result@[t]@) == onion::sealed(
                    state.keys@[t]@,
                    onion::nonce_of(1),
                    upview[t]@,
                ),
        decreases state.n - i,
    {
        proof {
            assert(upview.skip(i as int)[0] == upview[i as int]);
            assert(upview.skip(i as int).remove(0) =~= upview.skip(i as int + 1));
            assert(upview[i as int] == orig[invv[i as int] as int]);
        }
        let mi = unpermuted.remove(0);
        let c = onion::encrypt(&state.keys[i], mi, EncryptionPurpose::Backward);
        result.push(c);
        i += 1;
    }
    proof {
        assert forall|i: int| 0 <= i < state.n as int implies (#[trigger] result@[i])@
            == onion::sealed(
            state.keys@[i]@,
            onion::nonce_of(1),
            orig[crate::permute::inverse_index(state.permutation@, i)]@,
        ) by {
            let p = state.permutation@;
            crate::permute::lemma_inverse_pointwise(p, invv, i);
            crate::permute::lemma_inverse_index(p, i);
            let k = crate::permute::inverse_index(p, i);
            assert(p[k] as int == i && p[invv[i] as int] as int == i);
            assert(k == invv[i] as int);
            assert(upview[i] == orig[k]);
        }
    }
    result
}

/// The rendezvous tag of a packed message.
pub open spec fn dd_tag(w: Seq<u8>) -> u32 {
    codec::be_u32_of(w.subrange(CONTENT_SIZE as int, PACKED_SIZE as int))
}

/// The content slot of a packed message.
pub open spec fn dd_content(w: Seq<u8>) -> Seq<u8> {
    w.subrange(0, CONTENT_SIZE as int)
}

/// How many of the first `upto` messages carry tag `t`.
pub open spec fn tag_count(input: Seq<Vec<u8>>, t: u32, upto: int) -> int
    decreases upto,
{
    if upto <= 0 {
        0
    } else {
        tag_count(input, t, upto - 1) + if dd_tag(input[upto - 1]@) == t {
            1int
        } else {
            0int
        }
    }
}

/// The slot of the `c`-th message carrying tag `t`.
pub open spec fn occ_index(input: Seq<Vec<u8>>, t: u32, c: int) -> int {
    choose|j: int|
        0 <= j < input.len() && dd_tag(input[j]@) == t && tag_count(input, t, j + 1) == c
}

/// Tag counts never shrink as the window grows.
pub proof fn lemma_tag_count_mono(input: Seq<Vec<u8>>, t: u32, a: int, b: int)
    requires
        0 <= a <= b,
    ensures
        0 <= tag_count(input, t, a) <= tag_count(input, t, b),
    decreases b,
{
    if b > a {
        lemma_tag_count_mono(input, t, a, b - 1);
    } else if b > 0 {
        lemma_tag_count_mono(input, t, 0, b - 1);
    }
}

/// A later occurrence of a tag has a strictly larger occurrence number.
pub proof fn lemma_occ_strict(input: Seq<Vec<u8>>, t: u32, j1: int, j2: int)
    requires
        0 <= j1 < j2,
        dd_tag(input[j2]@) == t,
    ensures
        tag_count(input, t, j1 + 1) < tag_count(input, t, j2 + 1),
{
    lemma_tag_count_mono(input, t, j1 + 1, j2);
}

/// Every occurrence number up to the count of a window is realized by a slot
/// inside the window.
pub proof fn lemma_occ_exists(input: Seq<Vec<u8>>, t: u32, c: int, upto: int)
    requires
        0 <= upto <= input.len(),
        1 <= c <= tag_count(input, t, upto),
    ensures
        exists|j: int|
            0 <= j < upto && dd_tag(input[j]@) == t && tag_count(input, t, j + 1) == c,
    decreases upto,
{
    lemma_tag_count_mono(input, t, 0, upto - 1);
    if tag_count(input, t, upto) == tag_count(input, t, upto - 1) {
        lemma_occ_exists(input, t, c, upto - 1);
    } else {
        if c == tag_count(input, t, upto) {
            assert(dd_tag(input[upto - 1]@) == t && tag_count(input, t, upto - 1 + 1) == c);
        } else {
            lemma_occ_exists(input, t, c, upto - 1);
        }
    }
}

/// `occ_index` names the unique slot with a given occurrence number: it lies
/// inside any window whose count reaches that number, carries the tag, and is
/// the only such slot.
pub proof fn lemma_occ_index(input: Seq<Vec<u8>>, t: u32, c: int, upto: int)
    requires
        0 <= upto <= input.len(),
        1 <= c <= tag_count(input, t, upto),
    ensures
        0 <= occ_index(input, t, c) < upto,
        dd_tag(input[occ_index(input, t, c)]@) == t,
        tag_count(input, t, occ_index(input, t, c) + 1) == c,
{
    lemma_occ_exists(input, t, c, upto);
    let j = occ_index(input, t, c);
    assert(0 <= j < input.len() && dd_tag(input[j]@) == t && tag_count(input, t, j + 1) == c);
    if j >= upto {
        lemma_tag_count_mono(input, t, upto, j);
        assert(tag_count(input, t, j + 1) == tag_count(input, t, j) + 1);
        assert(false);
    }
}

/// A slot carrying a tag is the `occ_index` of its own occurrence number.
pub proof fn lemma_occ_of_self(input: Seq<Vec<u8>>, t: u32, j: int)
    requires
        0 <= j < input.len(),
        dd_tag(input[j]@) == t,
    ensures
        1 <= tag_count(input, t, j + 1),
        occ_index(input, t, tag_count(input, t, j + 1)) == j,
{
    lemma_tag_count_mono(input, t, 0, j);
    let c = tag_count(input, t, j + 1);
    lemma_occ_index(input, t, c, j + 1);
    let j2 = occ_index(input, t, c);
    if j2 < j {
        lemma_occ_strict(input, t, j2, j);
        assert(false);
    }
    if j < j2 {
        lemma_occ_strict(input, t, j, j2);
        assert(false);
    }
}

/// How the matcher tracks a tag: seen once (at which slot), or paired off.
enum DeaddropState {
    Once(usize),
    Twice,
}

/// The matcher's map agrees with the occurrence counts of the first `i`
/// slots: a tag whose count is 1 modulo 3 waits at its latest occurrence, one
/// whose count is 2 modulo 3 is paired off, and one whose count is divisible
/// by 3 is absent (a third sighting clears the tag, so later occurrences pair
/// up afresh).
spec fn map_matches(input: Seq<Vec<u8>>, m: Map<u32, DeaddropState>, i: int) -> bool {
    forall|t: u32|
        #![trigger tag_count(input, t, i)]
        {
            &&& (tag_count(input, t, i) % 3 == 1 ==> m.contains_key(t) && m[t]
                == DeaddropState::Once(occ_index(input, t, tag_count(input, t, i)) as usize))
            &&& (tag_count(input, t, i) % 3 == 2 ==> m.contains_key(t) && m[t]
                == DeaddropState::Twice)
            &&& (tag_count(input, t, i) % 3 == 0 ==> !m.contains_key(t))
        }
}

/// What output slot `j` holds once the first `i` slots are processed: its
/// partner's content if it has been paired, its own content otherwise.
pub open spec fn out_slot_ok(input: Seq<Vec<u8>>, out_j: Seq<u8>, j: int, i: int) -> bool {
    let t = dd_tag(input[j]@);
    let c = tag_count(input, t, j + 1);
    if c % 3 == 2 {
        out_j == dd_content(input[occ_index(input, t, c - 1)]@)
    } else if c % 3 == 1 {
        if tag_count(input, t, i) >= c + 1 {
            out_j == dd_content(input[occ_index(input, t, c + 1)]@)
        } else {
            out_j == dd_content(input[j]@)
        }
    } else {
        out_j == dd_content(input[j]@)
    }
}

/// A settled output slot is untouched by processing one more message, unless
/// that message is its partner.
proof fn lemma_out_slot_stable(inp: Seq<Vec<u8>>, out_j: Seq<u8>, j: int, i: int, t0: u32)
    requires
        0 <= j < i < inp.len(),
        dd_tag(inp[i]@) == t0,
        out_slot_ok(inp, out_j, j, i),
        !(dd_tag(inp[j]@) == t0 && tag_count(inp, t0, j + 1) % 3 == 1 && tag_count(inp, t0, i)
            == tag_count(inp, t0, j + 1)),
    ensures
        out_slot_ok(inp, out_j, j, i + 1),
{
    let t = dd_tag(inp[j]@);
    let c = tag_count(inp, t, j + 1);
    lemma_tag_count_mono(inp, t, j + 1, i);
    if t != t0 {
        assert(tag_count(inp, t, i + 1) == tag_count(inp, t, i));
    } else {
        if c % 3 == 1 {
            assert(tag_count(inp, t, i) >= c + 1);
        }
    }
}

/// The rendezvous-matching transform of the terminal server. One pass over
/// the batch pairs up messages that share a tag: the second sighting of a tag
/// swaps its content with the first, so each party receives the other's
/// payload; a tag seen only once passes through unchanged (the sender gets
/// its own message back); a third sighting is a collision, delivered
/// best-effort with the tag cleared. Output length and slot order match the
/// input; each output slot is a content slot, the tags stripped.
pub fn deaddrop(input: Vec<Message>) -> (r: Vec<Message>)
    requires
        forall|i: int| 0 <= i < input@.len() ==> (#[trigger] input@[i]@).len() == PACKED_SIZE,
    ensures
        r@.len() == input@.len(),
        forall|j: int|
            0 <= j < input@.len() ==> out_slot_ok(
                input@,
                (#[trigger] r@[j])@,
                j,
                input@.len() as int,
            ),
{
    let ghost inp = input@;
    let n = input.len();
    let mut map: HashMap<u32, DeaddropState> = HashMap::new();
    let mut output: Vec<Vec<u8>> = Vec::new();
    let mut input = input;
    let mut i: usize = 0;
    while i < n
        invariant
            i <= n,
            inp.len() == n,
            forall|k: int| 0 <= k < inp.len() ==> (#[trigger] inp[k]@).len() == PACKED_SIZE,
            input@ == inp.skip(i as int),
            output@.len() == i,
            map_matches(inp, map@, i as int),
            forall|j: int| 0 <= j < i ==> out_slot_ok(inp, (#[trigger] output@[j])@, j, i as int),
        decreases n - i,
    {
        proof {
            assert(inp.skip(i as int)[0] == inp[i as int]);
            assert(inp.skip(i as int).remove(0) =~= inp.skip(i as int + 1));
        }
        let w = input.remove(0);
        let (m, d) = message::unpack(w);
        let dl = d.location();
        let ghost t0 = dd_tag(inp[i as int]@);
        let ghost c0 = tag_count(inp, t0, i as int + 1);
        let ghost out_before = output@;
        let ghost map_before = map@;
        proof {
            assert(dl == t0);
            assert(c0 == tag_count(inp, t0, i as int) + 1);
            lemma_tag_count_mono(inp, t0, 0, i as int);
            lemma_occ_of_self(inp, t0, i as int);
            assert(occ_index(inp, t0, c0) == i as int);
            assert(forall|t: u32|
                t != t0 ==> #[trigger] tag_count(inp, t, i as int + 1) == tag_count(
                    inp,
                    t,
                    i as int,
                ));
        }
        let ghost mval = m@;
        proof {
            assert(mval == dd_content(inp[i as int]@));
        }
        output.push(m);
        let removed = map.remove(&dl);
        match removed {
            Some(DeaddropState::Twice) => {
                // Third sighting of this tag: a collision. The tag is
                // cleared; the message keeps its own content.
                proof {
                    assert(tag_count(inp, t0, i as int) % 3 == 2);
                    assert(c0 % 3 == 0);
                    assert(map@ =~= map_before.remove(t0));
                    assert(output@ == out_before.push(output@[i as int]));
                    assert(output@[i as int]@ == mval);
                }
            },
            Some(DeaddropState::Once(j0)) => {
                // Second sighting: swap this content with the first one's.
                proof {
                    assert(tag_count(inp, t0, i as int) % 3 == 1);
                    assert(c0 % 3 == 2);
                    lemma_occ_index(inp, t0, c0 - 1, i as int);
                    assert(j0 as int == occ_index(inp, t0, c0 - 1));
                }
                let mm = output.swap_remove(j0);
                output.push(mm);
                map.insert(dl, DeaddropState::Twice);
                proof {
                    assert(output@.len() == i as int + 1);
                    assert(output@[j0 as int]@ == mval);
                    assert(output@[i as int] == out_before[j0 as int]);
                    assert(forall|x: int|
                        0 <= x < i as int && x != j0 as int ==> #[trigger] output@[x]
                            == out_before[x]);
                }
            },
            None => {
                // First sighting (or first after a cleared collision): wait
                // for a partner.
                proof {
                    assert(tag_count(inp, t0, i as int) % 3 == 0);
                    assert(c0 % 3 == 1);
                    assert(map_before.remove(t0) =~= map_before);
                    assert(output@ == out_before.push(output@[i as int]));
                    assert(output@[i as int]@ == mval);
                }
                map.insert(dl, DeaddropState::Once(i));
            },
        }
        proof {
            assert forall|t: u32| #![trigger tag_count(inp, t, i as int + 1)] {
                &&& (tag_count(inp, t, i as int + 1) % 3 == 1 ==> map@.contains_key(t) && map@[t]
                    == DeaddropState::Once(
                    occ_index(inp, t, tag_count(inp, t, i as int + 1)) as usize,
                ))
                &&& (tag_count(inp, t, i as int + 1) % 3 == 2 ==> map@.contains_key(t) && map@[t]
                    == DeaddropState::Twice)
                &&& (tag_count(inp, t, i as int + 1) % 3 == 0 ==> !map@.contains_key(t))
            } by {
                if t != t0 {
                    assert(tag_count(inp, t, i as int + 1) == tag_count(inp, t, i as int));
                    assert(map@.contains_key(t) == map_before.contains_key(t));
                    if map_before.contains_key(t) {
                        assert(map@[t] == map_before[t]);
                    }
                }
            }
            assert(map_matches(inp, map@, i as int + 1));
            assert forall|j: int| 0 <= j < i as int + 1 implies out_slot_ok(
                inp,
                (#[trigger] output@[j])@,
                j,
                i as int + 1,
            ) by {
                if j == i as int {
                    if c0 % 3 == 2 {
                        let j0i = occ_index(inp, t0, c0 - 1);
                        lemma_occ_index(inp, t0, c0 - 1, i as int);
                        assert(output@[j] == out_before[j0i]);
                        assert(out_slot_ok(inp, out_before[j0i]@, j0i, i as int));
                        assert(tag_count(inp, t0, j0i + 1) == c0 - 1);
                        assert(tag_count(inp, t0, i as int) == c0 - 1);
                        assert(out_before[j0i]@ == dd_content(inp[j0i]@));
                        assert(out_slot_ok(inp, output@[j]@, j, i as int + 1));
                    } else {
                        assert(output@[j]@ == mval);
                        assert(output@[j]@ == dd_content(inp[j]@));
                    }
                } else {
                    let t = dd_tag(inp[j]@);
                    let c = tag_count(inp, t, j + 1);
                    assert(out_slot_ok(inp, out_before[j]@, j, i as int));
                    if t == t0 && c % 3 == 1 && tag_count(inp, t0, i as int) == c {
                        // This is the waiting occurrence the new message
                        // pairs with: only reachable in the swap branch.
                        lemma_occ_of_self(inp, t0, j);
                        assert(j == occ_index(inp, t0, c));
                        assert(c0 == c + 1 && c0 % 3 == 2);
                        assert(output@[j]@ == mval);
                        assert(output@[j]@ == dd_content(inp[occ_index(inp, t0, c + 1)]@));
                        assert(out_slot_ok(inp, output@[j]@, j, i as int + 1));
                    } else {
                        assert(output@[j] == out_before[j]);
                        lemma_out_slot_stable(inp, out_before[j]@, j, i as int, t0);
                    }
                }
            }
        }
        i += 1;
    }
    output
}

/// A message whose tag no other message in the batch carries passes through
/// the matcher unchanged: the sender receives its own content back.
pub proof fn lemma_deaddrop_unique(input: Seq<Vec<u8>>, r: Seq<Vec<u8>>, j: int)
    requires
        r.len() == input.len(),
        forall|x: int| 0 <= x < input.len() ==> out_slot_ok(input, (#[trigger] r[x])@, x, input.len() as int),
        0 <= j < input.len(),
        tag_count(input, dd_tag(input[j]@), input.len() as int) == 1,
    ensures
        r[j]@ == dd_content(input[j]@),
{
    let t = dd_tag(input[j]@);
    lemma_occ_of_self(input, t, j);
    lemma_tag_count_mono(input, t, j + 1, input.len() as int);
    assert(tag_count(input, t, j + 1) == 1);
    assert(out_slot_ok(input, r[j]@, j, input.len() as int));
}

/// Two messages alone in sharing a tag swap contents through the matcher:
/// each party receives the other's payload, in the senders' own slots.
pub proof fn lemma_deaddrop_pair(input: Seq<Vec<u8>>, r: Seq<Vec<u8>>, i: int, j: int)
    requires
        r.len() == input.len(),
        forall|x: int| 0 <= x < input.len() ==> out_slot_ok(input, (#[trigger] r[x])@, x, input.len() as int),
        0 <= i < j < input.len(),
        dd_tag(input[i]@) == dd_tag(input[j]@),
        tag_count(input, dd_tag(input[i]@), input.len() as int) == 2,
    ensures
        r[i]@ == dd_content(input[j]@),
        r[j]@ == dd_content(input[i]@),
{
    let t = dd_tag(input[i]@);
    lemma_occ_of_self(input, t, i);
    lemma_occ_of_self(input, t, j);
    lemma_occ_strict(input, t, i, j);
    lemma_tag_count_mono(input, t, j + 1, input.len() as int);
    lemma_tag_count_mono(input, t, i + 1, j + 1);
    assert(tag_count(input, t, i + 1) == 1);
    assert(tag_count(input, t, j + 1) == 2);
    assert(out_slot_ok(input, r[i]@, i, input.len() as int));
    assert(out_slot_ok(input, r[j]@, j, input.len() as int));
}

} // verus!
