//! The live UTXO collection: a map from outpoints to outputs with a
//! MuHash commitment folded over the present outpoints.

use vstd::prelude::*;
use crate::tx::{TransactionOutpoint, TxOutput, out_v, clone_output};
use crate::muhash::{MuHash, mu_add, mu_fold, lemma_mu_fold_push, lemma_mu_fold_remove};
use crate::maps::{
    distinct_keys, map_of, lemma_map_of_index, lemma_map_of_dom_key, lemma_map_of_remove,
    lemma_map_of_push, lemma_map_of_len,
};
use super::utxo_error::UtxoError;

verus! {

/// A reference to a transaction output: the creating transaction's hash
/// and the output index.
#[derive(Debug, Clone, Copy, PartialEq, Eq, Structural)]
pub struct OutPoint {
    pub tx_hash: crate::hashes::Hash,
    pub index: u32,
}

/// An unspent output together with the outpoint that identifies it.
#[derive(Debug, Clone)]
pub struct Utxo {
    pub outpoint: OutPoint,
    pub output: TxOutput,
}

/// The plain-valued entries of an entry list.
pub open spec fn entries_v(s: Seq<(OutPoint, TxOutput)>) -> Seq<(OutPoint, (u64, Seq<u8>))> {
    s.map_values(|e: (OutPoint, TxOutput)| (e.0, out_v(e.1)))
}

/// The outpoint hashes of an entry list, in order.
pub open spec fn entry_hashes(s: Seq<(OutPoint, TxOutput)>) -> Seq<crate::hashes::Hash> {
    s.map_values(|e: (OutPoint, TxOutput)| e.0.tx_hash)
}

/// The entry list and its accumulator, kept in step by `UtxoCollection`.
struct UtxoStore {
    utxos: Vec<(OutPoint, TxOutput)>,
    muhash: MuHash,
}

/// The entries and the accumulator agree: no outpoint appears twice, and
/// the accumulator holds the fold of the present outpoints' hashes.
spec fn store_wf(store: &UtxoStore) -> bool {
    &&& distinct_keys(store.utxos@)
    &&& store.muhash.spec_state() == mu_fold(
        crate::hashes::Hash::zero(),
        entry_hashes(store.utxos@),
    )
}

/// The live UTXO set. Its view is the map from outpoints to plain output
/// values; an outpoint appears at most once, and the MuHash commitment is
/// always the fold of the present outpoints' hashes.
pub struct UtxoCollection {
    store: UtxoStore,
}

impl View for UtxoCollection {
    type V = Map<OutPoint, (u64, Seq<u8>)>;

    closed spec fn view(&self) -> Map<OutPoint, (u64, Seq<u8>)> {
        map_of(entries_v(self.store.utxos@))
    }
}

impl UtxoCollection {
    /// The entries and the commitment are kept in step.
    #[verifier::type_invariant]
    spec fn wf(&self) -> bool {
        store_wf(&self.store)
    }

    /// The entries held, in insertion order.
    pub closed spec fn entry_seq(&self) -> Seq<(OutPoint, TxOutput)> {
        self.store.utxos@
    }

    /// The MuHash commitment over the present outpoints.
    pub closed spec fn spec_commitment(&self) -> crate::hashes::Hash {
        self.store.muhash.spec_state()
    }

    /// Creates an empty collection with a fresh commitment.
    pub fn new() -> (r: UtxoCollection)
        ensures
            r@ == Map::<OutPoint, (u64, Seq<u8>)>::empty(),
            r.spec_commitment() == crate::hashes::Hash::zero(),
            r.entry_seq() == Seq::<(OutPoint, TxOutput)>::empty(),
    {
        let r = UtxoCollection { store: UtxoStore { utxos: Vec::new(), muhash: MuHash::new() } };
        proof {
            assert(entries_v(r.store.utxos@) =~= Seq::<(OutPoint, (u64, Seq<u8>))>::empty());
            assert(entry_hashes(r.store.utxos@) =~= Seq::<crate::hashes::Hash>::empty());
            assert(r@ =~= Map::<OutPoint, (u64, Seq<u8>)>::empty());
        }
        r
    }

    /// The index of the entry holding the outpoint, or the length when
    /// there is none.
    fn find(&self, outpoint: &OutPoint) -> (idx: usize)
        ensures
            idx <= self.entry_seq().len(),
            idx < self.entry_seq().len() ==> self.entry_seq()[idx as int].0 == *outpoint
                && self@.dom().contains(*outpoint) && self@[*outpoint] == out_v(
                self.entry_seq()[idx as int].1,
            ),
            idx == self.entry_seq().len() ==> !self@.dom().contains(*outpoint) && (forall|j: int|
                0 <= j < self.entry_seq().len() ==> self.entry_seq()[j].0 != *outpoint),
    {
        let ghost entries = entries_v(self.store.utxos@);
        let mut i: usize = 0;
        while i < self.store.utxos.len()
            invariant
                0 <= i <= self.store.utxos@.len(),
                entries == entries_v(self.store.utxos@),
                forall|j: int| 0 <= j < i ==> self.store.utxos@[j].0 != *outpoint,
            decreases self.store.utxos@.len() - i,
        {
            if self.store.utxos[i].0 == *outpoint {
                proof {
                    use_type_invariant(self);
                    assert forall|a: int, b: int| 0 <= a < b < entries.len() implies entries[a].0
                        != entries[b].0 by {
                        assert(self.store.utxos@[a].0 != self.store.utxos@[b].0);
                    }
                    assert(entries[i as int].0 == *outpoint);
                    lemma_map_of_index(entries, i as int);
                }
                return i;
            }
            i += 1;
        }
        proof {
            if self@.dom().contains(*outpoint) {
                lemma_map_of_dom_key(entries, *outpoint);
                let j = choose|j: int| 0 <= j < entries.len() && entries[j].0 == *outpoint;
                assert(self.store.utxos@[j].0 == *outpoint);
            }
        }
        i
    }

    /// Inserts an unspent output. Fails with `AlreadySpent` exactly when
    /// the outpoint is already present, and then changes nothing; on
    /// success the outpoint's hash is folded into the commitment.
    pub fn insert(&mut self, outpoint: OutPoint, output: TxOutput) -> (r: Result<(), UtxoError>)
        ensures
            old(self)@.dom().contains(outpoint) ==> r is Err && r->Err_0 is AlreadySpent
                && final(self)@ == old(self)@ && final(self).spec_commitment() == old(self).spec_commitment() && final(self).entry_seq() == old(self).entry_seq(),
            !old(self)@.dom().contains(outpoint) ==> r is Ok && final(self)@ == old(self)@.insert(
                outpoint,
                out_v(output),
            ) && final(self).spec_commitment() == mu_add(
                old(self).spec_commitment(),
                outpoint.tx_hash,
            ) && final(self).entry_seq() == old(self).entry_seq().push((outpoint, output)),
    {
        let idx = self.find(&outpoint);
        if idx < self.store.utxos.len() {
            return Err(
                UtxoError::AlreadySpent(
                    TransactionOutpoint { transaction_id: outpoint.tx_hash, index: outpoint.index },
                ),
            );
        }
        proof {
            use_type_invariant(&*self);
        }
        let ghost pre = self.store.utxos@;
        let mut store = UtxoStore { utxos: Vec::new(), muhash: MuHash::new() };
        proof {
            assert(entry_hashes(store.utxos@) =~= Seq::<crate::hashes::Hash>::empty());
            assert(distinct_keys(store.utxos@));
        }
        core::mem::swap(&mut store, &mut self.store);
        store.utxos.push((outpoint, output));
        store.muhash.add(&outpoint.tx_hash);
        proof {
            assert(forall|j: int| 0 <= j < pre.len() ==> #[trigger] pre[j].0 != outpoint);
            assert(distinct_keys(store.utxos@)) by {
                assert(forall|j: int| 0 <= j < pre.len() ==> store.utxos@[j] == pre[j]);
            }
            assert(entry_hashes(store.utxos@) =~= entry_hashes(pre).push(outpoint.tx_hash));
            lemma_mu_fold_push(crate::hashes::Hash::zero(), entry_hashes(pre), outpoint.tx_hash);
            assert(entries_v(store.utxos@) =~= entries_v(pre).push((outpoint, out_v(output))));
            assert(forall|j: int|
                0 <= j < entries_v(pre).len() ==> #[trigger] entries_v(pre)[j].0 != outpoint);
            lemma_map_of_push(entries_v(pre), outpoint, out_v(output));
        }
        core::mem::swap(&mut store, &mut self.store);
        Ok(())
    }

    /// Removes an outpoint if present, folding it out of the commitment,
    /// and returns the output it held; removing an absent outpoint is a
    /// no-op that returns nothing.
    pub fn remove(&mut self, outpoint: &OutPoint) -> (r: Result<Option<TxOutput>, UtxoError>)
        ensures
            r is Ok,
            old(self)@.dom().contains(*outpoint) ==> r->Ok_0 is Some && out_v(r->Ok_0->0) == old(self)@[*outpoint] && final(self)@ == old(self)@.remove(*outpoint)
                && final(self).spec_commitment() == mu_add(
                old(self).spec_commitment(),
                outpoint.tx_hash,
            ),
            !old(self)@.dom().contains(*outpoint) ==> r->Ok_0 is None && final(self)@ == old(self)@ && final(self).spec_commitment() == old(self).spec_commitment() && final(self).entry_seq() == old(self).entry_seq(),
    {
        let idx = self.find(outpoint);
        if idx == self.store.utxos.len() {
            return Ok(None);
        }
        proof {
            use_type_invariant(&*self);
        }
        let ghost pre = self.store.utxos@;
        let mut store = UtxoStore { utxos: Vec::new(), muhash: MuHash::new() };
        proof {
            assert(entry_hashes(store.utxos@) =~= Seq::<crate::hashes::Hash>::empty());
            assert(distinct_keys(store.utxos@));
        }
        core::mem::swap(&mut store, &mut self.store);
        let entry = store.utxos.remove(idx);
        store.muhash.remove(&outpoint.tx_hash);
        proof {
            assert(distinct_keys(entries_v(pre))) by {
                assert(forall|a: int, b: int|
                    0 <= a < b < pre.len() ==> pre[a].0 != pre[b].0);
            }
            lemma_map_of_remove(entries_v(pre), idx as int);
            assert(entries_v(store.utxos@) =~= entries_v(pre).remove(idx as int));
            assert(distinct_keys(store.utxos@)) by {
                assert(distinct_keys(entries_v(pre).remove(idx as int)));
                assert(forall|j: int|
                    0 <= j < store.utxos@.len() ==> #[trigger] store.utxos@[j].0 == entries_v(
                        store.utxos@,
                    )[j].0);
            }
            assert(entry_hashes(store.utxos@) =~= entry_hashes(pre).remove(idx as int));
            lemma_mu_fold_remove(crate::hashes::Hash::zero(), entry_hashes(pre), idx as int);
            assert(entry_hashes(pre)[idx as int] == outpoint.tx_hash);
        }
        core::mem::swap(&mut store, &mut self.store);
        Ok(Some(entry.1))
    }

    /// Looks up the output an outpoint holds.
    pub fn get(&self, outpoint: &OutPoint) -> (r: Option<TxOutput>)
        ensures
            self@.dom().contains(*outpoint) ==> r is Some && out_v(r->0) == self@[*outpoint],
            !self@.dom().contains(*outpoint) ==> r is None,
    {
        let idx = self.find(outpoint);
        if idx < self.store.utxos.len() {
            Some(clone_output(&self.store.utxos[idx].1))
        } else {
            None
        }
    }

    /// The number of unspent outputs.
    pub fn len(&self) -> (r: usize)
        ensures
            r == self@.dom().len(),
    {
        proof {
            use_type_invariant(self);
            assert(distinct_keys(entries_v(self.store.utxos@))) by {
                assert(forall|a: int, b: int|
                    0 <= a < b < self.store.utxos@.len() ==> self.store.utxos@[a].0
                        != self.store.utxos@[b].0);
            }
            lemma_map_of_len(entries_v(self.store.utxos@));
        }
        self.store.utxos.len()
    }

    /// True when no output is unspent.
    pub fn is_empty(&self) -> (r: bool)
        ensures
            r == (self@.dom().len() == 0),
    {
        self.len() == 0
    }

    /// The current MuHash commitment over the live set.
    pub fn muhash(&self) -> (r: crate::hashes::Hash)
        ensures
            r == self.spec_commitment(),
            r == mu_fold(crate::hashes::Hash::zero(), entry_hashes(self.entry_seq())),
    {
        proof {
            use_type_invariant(self);
        }
        self.store.muhash.finalize()
    }

    /// A copy of the entries, for building views.
    pub fn entries(&self) -> (r: Vec<(OutPoint, TxOutput)>)
        ensures
            entries_v(r@) == entries_v(self.entry_seq()),
            map_of(entries_v(r@)) == self@,
            distinct_keys(r@),
    {
        let mut r: Vec<(OutPoint, TxOutput)> = Vec::new();
        let mut i: usize = 0;
        while i < self.store.utxos.len()
            invariant
                0 <= i <= self.store.utxos@.len(),
                r@.len() == i,
                forall|j: int|
                    0 <= j < i ==> #[trigger] r@[j].0 == self.store.utxos@[j].0 && out_v(r@[j].1)
                        == out_v(self.store.utxos@[j].1),
            decreases self.store.utxos@.len() - i,
        {
            let e = &self.store.utxos[i];
            r.push((e.0, clone_output(&e.1)));
            i += 1;
        }
        proof {
            use_type_invariant(self);
            assert(entries_v(r@) =~= entries_v(self.store.utxos@));
            assert forall|a: int, b: int| 0 <= a < b < r@.len() implies r@[a].0 != r@[b].0 by {
                assert(self.store.utxos@[a].0 != self.store.utxos@[b].0);
            }
        }
        r
    }
}

impl Default for UtxoCollection {
    /// The default collection is empty.
    fn default() -> (r: UtxoCollection)
        ensures
            r@ == Map::<OutPoint, (u64, Seq<u8>)>::empty(),
            r.spec_commitment() == crate::hashes::Hash::zero(),
    {
        UtxoCollection::new()
    }
}

} // verus!
