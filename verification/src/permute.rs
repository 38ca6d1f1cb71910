//! Random bijections over `0..n`: sampled per round to shuffle a batch, and
//! inverted on the way back to restore the original order.

use vstd::prelude::*;

use vstd::set_lib::{lemma_len_subset, lemma_int_range, set_int_range};

verus! {

/// `s` maps `0..s.len()` onto itself: every entry in range, no two equal.
pub open spec fn is_permutation(s: Seq<usize>) -> bool {
    &&& forall|i: int| 0 <= i < s.len() ==> (#[trigger] s[i]) < s.len()
    &&& forall|i: int, j: int|
        0 <= i < s.len() && 0 <= j < s.len() && i != j ==> s[i] != s[j]
}

/// Reordering a sequence by a permutation: slot `k` receives element `p[k]`.
pub open spec fn apply_spec<T>(p: Seq<usize>, v: Seq<T>) -> Seq<T> {
    Seq::new(v.len(), |k: int| v[p[k] as int])
}

/// An injective map of `0..n` into itself hits every slot.
pub proof fn lemma_permutation_surjective(s: Seq<usize>, k: int)
    requires
        is_permutation(s),
        0 <= k < s.len(),
    ensures
        exists|i: int| 0 <= i < s.len() && s[i] == k,
{
    broadcast use vstd::set::group_set_axioms;

    if !(exists|i: int| 0 <= i < s.len() && s[i] == k) {
        let n = s.len() as int;
        let si = s.map_values(|v: usize| v as int);
        assert(si.no_duplicates());
        si.unique_seq_to_set();
        let range = set_int_range(0, n);
        lemma_int_range(0, n);
        let target = range.remove(k);
        assert(si.to_set().subset_of(target)) by {
            assert forall|x: int| si.to_set().contains(x) implies target.contains(x) by {
                let i = choose|i: int| 0 <= i < si.len() && si[i] == x;
                assert(s[i] < s.len());
                assert(s[i] != k);
            }
        }
        lemma_len_subset(si.to_set(), target);
        assert(target.len() == n - 1);
        assert(false);
    }
}

/// The source slot a permutation sends to slot `j`.
pub open spec fn inverse_index(p: Seq<usize>, j: int) -> int {
    choose|k: int| 0 <= k < p.len() && p[k] as int == j
}

/// For a permutation, `inverse_index` really is the inverse: it lands in
/// range and maps back to `j`.
pub proof fn lemma_inverse_index(p: Seq<usize>, j: int)
    requires
        is_permutation(p),
        0 <= j < p.len(),
    ensures
        0 <= inverse_index(p, j) < p.len(),
        p[inverse_index(p, j)] as int == j,
{
    lemma_permutation_surjective(p, j);
}

/// Where `q` undoes `p` slot by slot, `p` also undoes `q`.
pub proof fn lemma_inverse_pointwise(p: Seq<usize>, q: Seq<usize>, k: int)
    requires
        is_permutation(p),
        q.len() == p.len(),
        forall|i: int| 0 <= i < p.len() ==> #[trigger] q[p[i] as int] as int == i,
        0 <= k < p.len(),
    ensures
        q[k] < p.len(),
        p[q[k] as int] as int == k,
{
    lemma_permutation_surjective(p, k);
    let i = choose|i: int| 0 <= i < p.len() && p[i] == k;
    assert(q[p[i] as int] as int == i);
}

/// The slot-by-slot inverse of a permutation is itself a permutation.
pub proof fn lemma_inverse_wf(p: Seq<usize>, q: Seq<usize>)
    requires
        is_permutation(p),
        q.len() == p.len(),
        forall|i: int| 0 <= i < p.len() ==> #[trigger] q[p[i] as int] as int == i,
    ensures
        is_permutation(q),
{
    assert forall|k: int| 0 <= k < q.len() implies (#[trigger] q[k]) < q.len() by {
        lemma_inverse_pointwise(p, q, k);
    }
    assert forall|k1: int, k2: int|
        0 <= k1 < q.len() && 0 <= k2 < q.len() && k1 != k2 implies q[k1] != q[k2] by {
        lemma_inverse_pointwise(p, q, k1);
        lemma_inverse_pointwise(p, q, k2);
    }
}

/// Applying a permutation's inverse to an applied sequence restores it, for
/// every permutation and every sequence of matching length.
pub proof fn lemma_apply_inverse_apply<T>(p: Seq<usize>, q: Seq<usize>, v: Seq<T>)
    requires
        is_permutation(p),
        q.len() == p.len(),
        v.len() == p.len(),
        forall|i: int| 0 <= i < p.len() ==> #[trigger] q[p[i] as int] as int == i,
    ensures
        apply_spec(q, apply_spec(p, v)) == v,
{
    let w = apply_spec(p, v);
    let u = apply_spec(q, w);
    assert forall|k: int| 0 <= k < v.len() implies u[k] == v[k] by {
        lemma_inverse_pointwise(p, q, k);
        assert(u[k] == w[q[k] as int]);
        assert(w[q[k] as int] == v[p[q[k] as int] as int]);
    }
    assert(u =~= v);
}

/// Relies on rand::random_range over 0..n: a value below n, drawn uniformly
/// from the thread-local CSPRNG; the range must be non-empty.
#[verifier::external_body]
fn random_below(n: usize) -> (r: usize)
    requires
        n >= 1,
    ensures
        r < n,
{
    rand::random_range(0..n)
}

/// A bijection over `0..n` with an efficient inverse. Applied once forward,
/// once (as its inverse) backward, then discarded.
#[derive(Debug, PartialEq, Eq)]
pub struct Permutation {
    map: Vec<usize>,
}

impl View for Permutation {
    type V = Seq<usize>;

    closed spec fn view(&self) -> Seq<usize> {
        self.map@
    }
}

impl Permutation {
    pub open spec fn wf(&self) -> bool {
        is_permutation(self@)
    }

    /// How many slots the permutation ranges over.
    pub fn size(&self) -> (r: usize)
        ensures
            r == self@.len(),
    {
        self.map.len()
    }

    /// Wraps an explicit index map.
    pub fn from_vec(map: Vec<usize>) -> (r: Permutation)
        requires
            is_permutation(map@),
        ensures
            r@ == map@,
            r.wf(),
    {
        Permutation { map }
    }

    /// Samples a uniformly random permutation over `0..m` by shuffling the
    /// identity map in place.
    pub fn sample(m: usize) -> (r: Permutation)
        ensures
            r.wf(),
            r@.len() == m,
    {
        let mut map: Vec<usize> = Vec::new();
        let mut i: usize = 0;
        while i < m
            invariant
                i <= m,
                map@.len() == i,
                forall|j: int| 0 <= j < i ==> map@[j] == j,
            decreases m - i,
        {
            map.push(i);
            i += 1;
        }
        assert(is_permutation(map@));
        let mut k: usize = m;
        while k > 1
            invariant
                k <= m,
                map@.len() == m,
                is_permutation(map@),
            decreases k,
        {
            let j = random_below(k);
            k = k - 1;
            let ghost prev = map@;
            let a = map[k];
            let b = map[j];
            map[k] = b;
            map[j] = a;
            proof {
                assert(map@ =~= prev.update(k as int, prev[j as int]).update(
                    j as int,
                    prev[k as int],
                ));
                assert(is_permutation(map@));
            }
        }
        Permutation { map }
    }

    /// The permutation sending each of this permutation's targets back to its
    /// source.
    pub fn inverse(&self) -> (r: Permutation)
        requires
            self.wf(),
        ensures
            r.wf(),
            r@.len() == self@.len(),
            forall|i: int| 0 <= i < self@.len() ==> #[trigger] r@[self@[i] as int] as int == i,
    {
        let n = self.map.len();
        let mut map: Vec<usize> = Vec::new();
        let mut i: usize = 0;
        while i < n
            invariant
                i <= n,
                map@.len() == i,
            decreases n - i,
        {
            map.push(0);
            i += 1;
        }
        let mut i: usize = 0;
        while i < n
            invariant
                i <= n,
                n == self@.len(),
                self.wf(),
                map@.len() == n,
                forall|t: int| 0 <= t < i ==> #[trigger] map@[self@[t] as int] as int == t,
            decreases n - i,
        {
            let idx = self.map[i];
            map[idx] = i;
            i += 1;
        }
        let r = Permutation { map };
        proof {
            lemma_inverse_wf(self@, r@);
        }
        r
    }

    /// Reorders a batch: output slot `k` receives input element `map[k]`.
    /// Each input element is consumed exactly once.
    pub fn apply<T>(&self, input: Vec<T>) -> (r: Vec<T>)
        requires
            self.wf(),
            input@.len() == self@.len(),
        ensures
            r@ == apply_spec(self@, input@),
            r@.len() == input@.len(),
    {
        let ghost orig = input@;
        let n = input.len();
        let mut input = input;
        let mut tmp: Vec<Option<T>> = Vec::new();
        while input.len() > 0
            invariant
                orig.len() == n,
                tmp@.len() + input@.len() == n,
                forall|j: int| 0 <= j < tmp@.len() ==> tmp@[j] == Some(orig[j]),
                input@ == orig.skip(tmp@.len() as int),
            decreases input@.len(),
        {
            proof {
                assert(orig.skip(tmp@.len() as int)[0] == orig[tmp@.len() as int]);
                assert(orig.skip(tmp@.len() as int).remove(0) =~= orig.skip(tmp@.len() as int + 1));
            }
            let x = input.remove(0);
            tmp.push(Some(x));
        }
        let mut out: Vec<T> = Vec::new();
        let mut k: usize = 0;
        while k < n
            invariant
                k <= n,
                n == self@.len(),
                self.wf(),
                orig.len() == n,
                tmp@.len() == n,
                out@.len() == k,
                forall|t: int| 0 <= t < k ==> out@[t] == orig[self@[t] as int],
                forall|j: int|
                    0 <= j < n ==> (#[trigger] tmp@[j]) == (if (exists|t: int|
                        0 <= t < k && self@[t] as int == j
                    ) {
                        None::<T>
                    } else {
                        Some(orig[j])
                    }),
            decreases n - k,
        {
            let idx = self.map[k];
            proof {
                assert(forall|t: int| 0 <= t < k ==> self@[t] != self@[k as int]);
                assert(tmp@[idx as int] == Some(orig[idx as int]));
            }
            let ghost prev = tmp@;
            tmp.push(None);
            let x = tmp.swap_remove(idx);
            proof {
                assert(tmp@ =~= prev.update(idx as int, None));
            }
            match x {
                Some(v) => {
                    out.push(v);
                },
                None => {
                    proof {
                        assert(false);
                    }
                },
            }
            k += 1;
        }
        proof {
            assert(out@ =~= apply_spec(self@, orig));
        }
        out
    }

    /// Sends input element `i` back to slot `map[i]`: the inverse reordering
    /// of `apply`, so applying both restores the batch.
    pub fn apply_inverse<T>(&self, input: Vec<T>) -> (r: Vec<T>)
        requires
            self.wf(),
            input@.len() == self@.len(),
        ensures
            r@.len() == input@.len(),
            forall|i: int| 0 <= i < self@.len() ==> r@[self@[i] as int] == input@[i],
    {
        let ghost orig = input@;
        let inv = self.inverse();
        let r = inv.apply(input);
        proof {
            assert forall|i: int| 0 <= i < self@.len() implies r@[self@[i] as int] == orig[i] by {
                assert(r@[self@[i] as int] == orig[inv@[self@[i] as int] as int]);
            }
        }
        r
    }

    /// The keys are in nondecreasing order.
    pub open spec fn sorted(s: Seq<u64>) -> bool {
        forall|a: int, b: int| 0 <= a < b < s.len() ==> s[a] <= s[b]
    }

    /// Sorts the keys in place and returns the permutation that performed the
    /// sort, so that applying it to the original order reproduces the sorted
    /// order.
    pub fn from_sort(v: &mut Vec<u64>) -> (r: Permutation)
        ensures
            r.wf(),
            r@.len() == old(v)@.len(),
            final(v)@ == apply_spec(r@, old(v)@),
            Self::sorted(final(v)@),
    {
        let n = v.len();
        let mut idx: Vec<usize> = Vec::new();
        let mut i: usize = 0;
        while i < n
            invariant
                i <= n,
                idx@.len() == i,
                forall|j: int| 0 <= j < i ==> idx@[j] == j,
            decreases n - i,
        {
            idx.push(i);
            i += 1;
        }
        assert(is_permutation(idx@));
        let mut i: usize = 0;
        while i < n
            invariant
                i <= n,
                n == v@.len(),
                v@ == old(v)@,
                idx@.len() == n,
                is_permutation(idx@),
                forall|a: int, b: int| 0 <= a < b < i ==> v@[idx@[a] as int] <= v@[idx@[b] as int],
            decreases n - i,
        {
            let mut j: usize = i;
            while j > 0 && v[idx[j - 1]] > v[idx[j]]
                invariant
                    j <= i < n,
                    n == v@.len(),
                    v@ == old(v)@,
                    idx@.len() == n,
                    is_permutation(idx@),
                    forall|a: int, b: int|
                        0 <= a < b <= i && b != j ==> v@[idx@[a] as int] <= v@[idx@[b] as int],
                decreases j,
            {
                let ghost prev = idx@;
                let a = idx[j - 1];
                let b = idx[j];
                idx[j - 1] = b;
                idx[j] = a;
                proof {
                    assert(idx@ =~= prev.update(j as int - 1, prev[j as int]).update(
                        j as int,
                        prev[j as int - 1],
                    ));
                    assert(is_permutation(idx@));
                }
                j = j - 1;
            }
            i += 1;
        }
        let mut out: Vec<u64> = Vec::new();
        let mut k: usize = 0;
        while k < n
            invariant
                k <= n,
                n == v@.len(),
                v@ == old(v)@,
                idx@.len() == n,
                is_permutation(idx@),
                out@.len() == k,
                forall|t: int| 0 <= t < k ==> out@[t] == v@[idx@[t] as int],
            decreases n - k,
        {
            out.push(v[idx[k]]);
            k += 1;
        }
        *v = out;
        let r = Permutation { map: idx };
        proof {
            assert(v@ =~= apply_spec(r@, old(v)@));
        }
        r
    }
}

} // verus!
