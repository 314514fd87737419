//! The MuHash accumulator: a commutative, invertible set-hash over the
//! live UTXO set, built here as a word-wise XOR accumulator, so removing
//! an element is the same operation as adding it.

use vstd::prelude::*;

verus! {

/// The accumulator state after folding one element into a state.
pub open spec fn mu_add(s: crate::hashes::Hash, x: crate::hashes::Hash) -> crate::hashes::Hash {
    crate::hashes::Hash {
        w0: s.w0 ^ x.w0,
        w1: s.w1 ^ x.w1,
        w2: s.w2 ^ x.w2,
        w3: s.w3 ^ x.w3,
    }
}

/// The accumulator state after folding a whole sequence, first element
/// first.
pub open spec fn mu_fold(s: crate::hashes::Hash, xs: Seq<crate::hashes::Hash>) -> crate::hashes::Hash
    decreases xs.len(),
{
    if xs.len() == 0 {
        s
    } else {
        mu_fold(mu_add(s, xs.first()), xs.drop_first())
    }
}

/// Adding the same element twice returns to the starting state.
pub proof fn lemma_mu_add_inverse(s: crate::hashes::Hash, x: crate::hashes::Hash)
    ensures
        mu_add(mu_add(s, x), x) == s,
{
    let a = s.w0;
    let b = x.w0;
    assert((a ^ b) ^ b == a) by (bit_vector);
    let a1 = s.w1;
    let b1 = x.w1;
    assert((a1 ^ b1) ^ b1 == a1) by (bit_vector);
    let a2 = s.w2;
    let b2 = x.w2;
    assert((a2 ^ b2) ^ b2 == a2) by (bit_vector);
    let a3 = s.w3;
    let b3 = x.w3;
    assert((a3 ^ b3) ^ b3 == a3) by (bit_vector);
}

/// Adds commute: the accumulator does not care in which order two
/// elements arrive.
pub proof fn lemma_mu_add_commutes(
    s: crate::hashes::Hash,
    x: crate::hashes::Hash,
    y: crate::hashes::Hash,
)
    ensures
        mu_add(mu_add(s, x), y) == mu_add(mu_add(s, y), x),
{
    let a = s.w0;
    let b = x.w0;
    let c = y.w0;
    assert((a ^ b) ^ c == (a ^ c) ^ b) by (bit_vector);
    let a1 = s.w1;
    let b1 = x.w1;
    let c1 = y.w1;
    assert((a1 ^ b1) ^ c1 == (a1 ^ c1) ^ b1) by (bit_vector);
    let a2 = s.w2;
    let b2 = x.w2;
    let c2 = y.w2;
    assert((a2 ^ b2) ^ c2 == (a2 ^ c2) ^ b2) by (bit_vector);
    let a3 = s.w3;
    let b3 = x.w3;
    let c3 = y.w3;
    assert((a3 ^ b3) ^ c3 == (a3 ^ c3) ^ b3) by (bit_vector);
}

/// One add commutes through a whole fold.
pub proof fn lemma_mu_fold_pull(
    s: crate::hashes::Hash,
    x: crate::hashes::Hash,
    xs: Seq<crate::hashes::Hash>,
)
    ensures
        mu_fold(mu_add(s, x), xs) == mu_add(mu_fold(s, xs), x),
    decreases xs.len(),
{
    if xs.len() == 0 {
    } else {
        lemma_mu_add_commutes(s, x, xs.first());
        lemma_mu_fold_pull(mu_add(s, xs.first()), x, xs.drop_first());
    }
}

/// Balance: adding a sequence of elements and then removing the same
/// sequence restores the initial state. Removal is `mu_add` itself, so
/// with `lemma_mu_add_commutes` this covers every balanced order of adds
/// and removes of the same elements.
pub proof fn lemma_mu_balanced(s: crate::hashes::Hash, xs: Seq<crate::hashes::Hash>)
    ensures
        mu_fold(mu_fold(s, xs), xs) == s,
    decreases xs.len(),
{
    if xs.len() == 0 {
    } else {
        let x = xs.first();
        let rest = xs.drop_first();
        lemma_mu_fold_pull(s, x, rest);
        assert(mu_fold(s, xs) == mu_add(mu_fold(s, rest), x));
        lemma_mu_fold_pull(mu_fold(s, rest), x, rest);
        assert(mu_fold(mu_fold(s, xs), xs) == mu_fold(mu_add(mu_fold(s, rest), x), xs));
        assert(mu_fold(mu_add(mu_fold(s, rest), x), xs) == mu_fold(
            mu_add(mu_add(mu_fold(s, rest), x), x),
            rest,
        ));
        lemma_mu_add_inverse(mu_fold(s, rest), x);
        lemma_mu_balanced(s, rest);
        assert(mu_fold(mu_fold(s, rest), rest) == s);
    }
}

/// Folding one element out of a folded sequence: the fold over a sequence
/// with entry `i` removed is the fold over the whole sequence with that
/// entry added once more.
pub proof fn lemma_mu_fold_remove(s: crate::hashes::Hash, xs: Seq<crate::hashes::Hash>, i: int)
    requires
        0 <= i < xs.len(),
    ensures
        mu_fold(s, xs.remove(i)) == mu_add(mu_fold(s, xs), xs[i]),
    decreases xs.len(),
{
    if i == 0 {
        assert(xs.remove(0) =~= xs.drop_first());
        lemma_mu_fold_pull(s, xs.first(), xs.drop_first());
        lemma_mu_add_inverse(mu_fold(s, xs.drop_first()), xs.first());
        assert(mu_fold(s, xs) == mu_add(mu_fold(s, xs.drop_first()), xs.first()));
    } else {
        assert(xs.remove(i).first() == xs.first());
        assert(xs.remove(i).drop_first() =~= xs.drop_first().remove(i - 1));
        lemma_mu_fold_remove(mu_add(s, xs.first()), xs.drop_first(), i - 1);
    }
}


/// Folding a pushed element equals adding it after the fold.
pub proof fn lemma_mu_fold_push(
    s: crate::hashes::Hash,
    xs: Seq<crate::hashes::Hash>,
    x: crate::hashes::Hash,
)
    ensures
        mu_fold(s, xs.push(x)) == mu_add(mu_fold(s, xs), x),
    decreases xs.len(),
{
    if xs.len() == 0 {
        assert(xs.push(x).first() == x);
        assert(xs.push(x).drop_first() =~= Seq::<crate::hashes::Hash>::empty());
        assert(mu_fold(s, xs.push(x)) == mu_fold(mu_add(s, x), xs.push(x).drop_first()));
        assert(mu_fold(mu_add(s, x), Seq::<crate::hashes::Hash>::empty()) == mu_add(s, x));
        assert(mu_fold(s, xs) == s);
    } else {
        assert(xs.push(x).first() == xs.first());
        assert(xs.push(x).drop_first() =~= xs.drop_first().push(x));
        lemma_mu_fold_push(mu_add(s, xs.first()), xs.drop_first(), x);
        assert(mu_fold(s, xs.push(x)) == mu_fold(mu_add(s, xs.first()), xs.drop_first().push(x)));
        assert(mu_fold(mu_add(s, xs.first()), xs.drop_first().push(x)) == mu_add(
            mu_fold(mu_add(s, xs.first()), xs.drop_first()),
            x,
        ));
        assert(mu_fold(s, xs) == mu_fold(mu_add(s, xs.first()), xs.drop_first()));
    }
}

/// The incremental accumulator.
#[derive(Debug, Clone, Copy, PartialEq, Eq, Structural)]
pub struct MuHash {
    state: crate::hashes::Hash,
}

impl MuHash {
    /// The accumulated state.
    pub closed spec fn spec_state(&self) -> crate::hashes::Hash {
        self.state
    }

    /// A fresh accumulator: the all-zero state.
    pub fn new() -> (r: MuHash)
        ensures
            r.spec_state() == crate::hashes::Hash::zero(),
    {
        MuHash { state: crate::hashes::Hash::default() }
    }

    /// Folds an element into the accumulator.
    pub fn add(&mut self, element: &crate::hashes::Hash)
        ensures
            final(self).spec_state() == mu_add(old(self).spec_state(), *element),
        no_unwind
    {
        self.state = crate::hashes::Hash {
            w0: self.state.w0 ^ element.w0,
            w1: self.state.w1 ^ element.w1,
            w2: self.state.w2 ^ element.w2,
            w3: self.state.w3 ^ element.w3,
        };
    }

    /// Folds an element out of the accumulator: the inverse of `add`.
    pub fn remove(&mut self, element: &crate::hashes::Hash)
        ensures
            final(self).spec_state() == mu_add(old(self).spec_state(), *element),
            mu_add(final(self).spec_state(), *element) == old(self).spec_state(),
        no_unwind
    {
        proof {
            lemma_mu_add_inverse(self.state, *element);
        }
        self.add(element);
    }

    /// The current accumulator value.
    pub fn finalize(&self) -> (r: crate::hashes::Hash)
        ensures
            r == self.spec_state(),
    {
        self.state
    }
}

impl Default for MuHash {
    /// The default accumulator is fresh.
    fn default() -> (r: MuHash)
        ensures
            r.spec_state() == crate::hashes::Hash::zero(),
    {
        MuHash::new()
    }
}

} // verus!
