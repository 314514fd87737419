//! Immutable UTXO snapshots for validation without touching the live set.

use vstd::prelude::*;
use super::utxo_collection::{OutPoint, UtxoCollection, entries_v};
use super::utxo_diff::{UtxoDiff, add_all, remove_all, added_has_key};
use super::utxo_error::UtxoError;
use crate::tx::{Transaction, TransactionOutpoint, TxOutput, out_v, clone_output};
use crate::maps::{
    distinct_keys, map_of, lemma_map_of_index, lemma_map_of_dom_key, lemma_map_of_remove,
    lemma_map_of_update, lemma_map_of_push,
};

verus! {

/// A copy-on-write snapshot of a UTXO set. Its view is the map from
/// outpoints to plain output values.
pub struct UtxoView {
    utxos: Vec<(OutPoint, TxOutput)>,
}

impl View for UtxoView {
    type V = Map<OutPoint, (u64, Seq<u8>)>;

    closed spec fn view(&self) -> Map<OutPoint, (u64, Seq<u8>)> {
        map_of(entries_v(self.utxos@))
    }
}

/// Every input of the transaction spends an outpoint present in the map,
/// and no outpoint twice.
pub open spec fn tx_spendable(m: Map<OutPoint, (u64, Seq<u8>)>, tx: Transaction) -> bool {
    &&& forall|i: int|
        0 <= i < tx.inputs@.len() ==> m.dom().contains(
            #[trigger] input_outpoint(tx.inputs@[i]),
        )
    &&& crate::tx::inputs_distinct(tx.inputs@)
}

/// The outpoint an input spends.
pub open spec fn input_outpoint(input: crate::tx::TxInput) -> OutPoint {
    OutPoint { tx_hash: input.prev_tx_hash, index: input.index }
}

impl UtxoView {
    /// No outpoint appears twice.
    #[verifier::type_invariant]
    spec fn wf(&self) -> bool {
        distinct_keys(self.utxos@)
    }

    /// Takes a snapshot of the live collection.
    pub fn new_from_collection(collection: &UtxoCollection) -> (r: UtxoView)
        ensures
            r@ == collection@,
    {
        let entries = collection.entries();
        proof {
            assert(distinct_keys(entries_v(entries@))) by {
                assert(forall|j: int|
                    0 <= j < entries@.len() ==> (#[trigger] entries_v(entries@)[j]).0
                        == entries@[j].0);
            }
        }
        UtxoView { utxos: entries }
    }

    /// The index of the entry holding the outpoint, or the length.
    fn find(&self, outpoint: &OutPoint) -> (idx: usize)
        ensures
            idx <= self.utxos@.len(),
            idx < self.utxos@.len() ==> self.utxos@[idx as int].0 == *outpoint
                && self@.dom().contains(*outpoint) && self@[*outpoint] == out_v(
                self.utxos@[idx as int].1,
            ),
            idx == self.utxos@.len() ==> !self@.dom().contains(*outpoint) && (forall|j: int|
                0 <= j < self.utxos@.len() ==> self.utxos@[j].0 != *outpoint),
    {
        let ghost entries = entries_v(self.utxos@);
        let mut i: usize = 0;
        while i < self.utxos.len()
            invariant
                0 <= i <= self.utxos@.len(),
                entries == entries_v(self.utxos@),
                forall|j: int| 0 <= j < i ==> self.utxos@[j].0 != *outpoint,
            decreases self.utxos@.len() - i,
        {
            if self.utxos[i].0 == *outpoint {
                proof {
                    use_type_invariant(self);
                    assert forall|a: int, b: int| 0 <= a < b < entries.len() implies entries[a].0
                        != entries[b].0 by {
                        assert(self.utxos@[a].0 != self.utxos@[b].0);
                    }
                    assert(entries[i as int].0 == *outpoint);
                    lemma_map_of_index(entries, i as int);
                }
                return i;
            }
            i += 1;
        }
        proof {
            if self@.dom().contains(*outpoint) {
                lemma_map_of_dom_key(entries, *outpoint);
                let j = choose|j: int| 0 <= j < entries.len() && entries[j].0 == *outpoint;
                assert(self.utxos@[j].0 == *outpoint);
            }
        }
        i
    }

    /// True when the outpoint is present in the snapshot.
    pub fn contains(&self, outpoint: &OutPoint) -> (r: bool)
        ensures
            r == self@.dom().contains(*outpoint),
    {
        self.find(outpoint) < self.utxos.len()
    }

    /// Looks up the output an outpoint holds.
    pub fn get(&self, outpoint: &OutPoint) -> (r: Option<TxOutput>)
        ensures
            self@.dom().contains(*outpoint) ==> r is Some && out_v(r->0) == self@[*outpoint],
            !self@.dom().contains(*outpoint) ==> r is None,
    {
        let idx = self.find(outpoint);
        if idx < self.utxos.len() {
            Some(clone_output(&self.utxos[idx].1))
        } else {
            None
        }
    }

    /// Binds an outpoint in the snapshot, replacing any previous binding.
    fn put(&mut self, outpoint: OutPoint, output: TxOutput)
        ensures
            final(self)@ == old(self)@.insert(outpoint, out_v(output)),
    {
        let idx = self.find(&outpoint);
        proof {
            use_type_invariant(&*self);
        }
        let ghost pre = self.utxos@;
        let mut es: Vec<(OutPoint, TxOutput)> = Vec::new();
        core::mem::swap(&mut es, &mut self.utxos);
        if idx < es.len() {
            proof {
                lemma_map_of_update(entries_v(pre), idx as int, out_v(output));
            }
            es[idx] = (outpoint, output);
            proof {
                assert(entries_v(es@) =~= entries_v(pre).update(
                    idx as int,
                    (outpoint, out_v(es@[idx as int].1)),
                ));
                assert(distinct_keys(es@)) by {
                    assert(forall|j: int| 0 <= j < es@.len() ==> es@[j].0 == pre[j].0);
                }
            }
        } else {
            proof {
                assert(forall|j: int|
                    0 <= j < entries_v(pre).len() ==> (#[trigger] entries_v(pre)[j]).0
                        == pre[j].0);
                assert(forall|j: int|
                    0 <= j < entries_v(pre).len() ==> (#[trigger] entries_v(pre)[j]).0
                        != outpoint);
                lemma_map_of_push(entries_v(pre), outpoint, out_v(output));
            }
            es.push((outpoint, output));
            proof {
                assert(entries_v(es@) =~= entries_v(pre).push((outpoint, out_v(output))));
                assert(distinct_keys(es@)) by {
                    assert(forall|j: int| 0 <= j < pre.len() ==> es@[j] == pre[j]);
                }
            }
        }
        core::mem::swap(&mut es, &mut self.utxos);
    }

    /// Unbinds an outpoint in the snapshot; absent outpoints are left be.
    fn take_out(&mut self, outpoint: &OutPoint)
        ensures
            final(self)@ == old(self)@.remove(*outpoint),
    {
        let idx = self.find(outpoint);
        if idx == self.utxos.len() {
            proof {
                assert(self@ =~= old(self)@.remove(*outpoint));
            }
            return ;
        }
        proof {
            use_type_invariant(&*self);
        }
        let ghost pre = self.utxos@;
        let mut es: Vec<(OutPoint, TxOutput)> = Vec::new();
        core::mem::swap(&mut es, &mut self.utxos);
        proof {
            assert(distinct_keys(entries_v(pre))) by {
                assert(forall|j: int|
                    0 <= j < pre.len() ==> (#[trigger] entries_v(pre)[j]).0 == pre[j].0);
            }
            lemma_map_of_remove(entries_v(pre), idx as int);
        }
        let _ = es.remove(idx);
        proof {
            assert(entries_v(es@) =~= entries_v(pre).remove(idx as int));
            assert(distinct_keys(es@)) by {
                assert(forall|j: int|
                    0 <= j < es@.len() ==> (#[trigger] es@[j]).0 == entries_v(es@)[j].0);
                assert(distinct_keys(entries_v(pre).remove(idx as int)));
            }
        }
        core::mem::swap(&mut es, &mut self.utxos);
    }

    /// Applies a diff to the snapshot: additions overwrite, removals drop;
    /// nothing fails.
    pub fn apply_diff(&mut self, diff: &UtxoDiff)
        ensures
            final(self)@ == remove_all(add_all(old(self)@, diff.added@), diff.removed@),
    {
        let mut i: usize = 0;
        while i < diff.added.len()
            invariant
                0 <= i <= diff.added@.len(),
                self@ == add_all(old(self)@, diff.added@.take(i as int)),
            decreases diff.added@.len() - i,
        {
            let (op, out) = {
                let e = &diff.added[i];
                (e.0, clone_output(&e.1))
            };
            self.put(op, out);
            proof {
                assert(diff.added@.take(i + 1int).drop_last() =~= diff.added@.take(i as int));
                super::utxo_diff::lemma_add_all_snoc(old(self)@, diff.added@.take(i + 1int));
                assert(diff.added@.take(i + 1int).last() == diff.added@[i as int]);
            }
            i += 1;
        }
        proof {
            assert(diff.added@.take(diff.added@.len() as int) =~= diff.added@);
        }
        let ghost m1 = add_all(old(self)@, diff.added@);
        let mut j: usize = 0;
        while j < diff.removed.len()
            invariant
                0 <= j <= diff.removed@.len(),
                m1 == add_all(old(self)@, diff.added@),
                self@ == remove_all(m1, diff.removed@.take(j as int)),
            decreases diff.removed@.len() - j,
        {
            let op = diff.removed[j];
            self.take_out(&op);
            proof {
                assert(diff.removed@.take(j + 1int).drop_last() =~= diff.removed@.take(j as int));
                super::utxo_diff::lemma_remove_all_snoc(m1, diff.removed@.take(j + 1int));
                assert(diff.removed@.take(j + 1int).last() == diff.removed@[j as int]);
            }
            j += 1;
        }
        proof {
            assert(diff.removed@.take(diff.removed@.len() as int) =~= diff.removed@);
        }
    }

    /// Validates a transaction against the snapshot: every input must
    /// spend a present outpoint, none twice; coinbase transactions bypass
    /// the presence check.
    pub fn validate_tx(&self, tx: &Transaction) -> (r: Result<(), UtxoError>)
        ensures
            r.is_ok() <==> ((tx.inputs@.len() == 1 && tx.inputs@[0].prev_tx_hash
                == crate::hashes::Hash::zero()) || tx_spendable(self@, *tx)),
            !r.is_ok() ==> (r->Err_0 is NotFound || r->Err_0 is AlreadySpent),
            r matches Err(UtxoError::NotFound(_)) ==> exists|i: int|
                0 <= i < tx.inputs@.len() && !self@.dom().contains(
                    #[trigger] input_outpoint(tx.inputs@[i]),
                ),
            r matches Err(UtxoError::AlreadySpent(_)) ==> !crate::tx::inputs_distinct(tx.inputs@),
    {
        if tx.is_coinbase() {
            return Ok(());
        }
        let mut i: usize = 0;
        while i < tx.inputs.len()
            invariant
                0 <= i <= tx.inputs@.len(),
                !(tx.inputs@.len() == 1 && tx.inputs@[0].prev_tx_hash
                    == crate::hashes::Hash::zero()),
                forall|a: int|
                    0 <= a < i ==> self@.dom().contains(#[trigger] input_outpoint(tx.inputs@[a])),
                forall|a: int, b: int|
                    0 <= a < b < i ==> !(tx.inputs@[a].prev_tx_hash == tx.inputs@[b].prev_tx_hash
                        && tx.inputs@[a].index == tx.inputs@[b].index),
            decreases tx.inputs@.len() - i,
        {
            let input = &tx.inputs[i];
            let op = OutPoint { tx_hash: input.prev_tx_hash, index: input.index };
            if !self.contains(&op) {
                proof {
                    assert(input_outpoint(tx.inputs@[i as int]) == op);
                    assert(!tx_spendable(self@, *tx));
                }
                return Err(
                    UtxoError::NotFound(
                        TransactionOutpoint { transaction_id: op.tx_hash, index: op.index },
                    ),
                );
            }
            let mut a: usize = 0;
            while a < i
                invariant
                    0 <= a <= i < tx.inputs@.len(),
                    input == tx.inputs@[i as int],
                    forall|b: int|
                        0 <= b < a ==> !(tx.inputs@[b].prev_tx_hash == input.prev_tx_hash
                            && tx.inputs@[b].index == input.index),
                decreases i - a,
            {
                if tx.inputs[a].prev_tx_hash == input.prev_tx_hash && tx.inputs[a].index
                    == input.index {
                    proof {
                        assert(tx.inputs@[a as int].prev_tx_hash == tx.inputs@[
                            i as int].prev_tx_hash && tx.inputs@[a as int].index == tx.inputs@[
                            i as int].index);
                        assert(!crate::tx::inputs_distinct(tx.inputs@));
                        assert(!tx_spendable(self@, *tx));
                    }
                    return Err(
                        UtxoError::AlreadySpent(
                            TransactionOutpoint { transaction_id: op.tx_hash, index: op.index },
                        ),
                    );
                }
                a += 1;
            }
            i += 1;
        }
        Ok(())
    }
}

} // verus!
