//! Incremental UTXO changes: the diff a block implies, and its atomic
//! application to the live collection.

use vstd::prelude::*;
use super::utxo_collection::{OutPoint, UtxoCollection, entry_hashes, entries_v};
use super::utxo_error::UtxoError;
use crate::tx::{Transaction, TransactionOutpoint, TxOutput, out_v, clone_output, tx_bytes};
use crate::maps::distinct_keys;
use crate::muhash::{mu_add, mu_fold};
use crate::hashing::sha256_of;

verus! {

/// The atomic unit of UTXO change: outputs to add and outpoints to spend.
#[derive(Debug, Clone)]
pub struct UtxoDiff {
    pub added: Vec<(OutPoint, TxOutput)>,
    pub removed: Vec<OutPoint>,
}

/// A map after inserting every added entry, in order.
pub open spec fn add_all(
    m: Map<OutPoint, (u64, Seq<u8>)>,
    added: Seq<(OutPoint, TxOutput)>,
) -> Map<OutPoint, (u64, Seq<u8>)>
    decreases added.len(),
{
    if added.len() == 0 {
        m
    } else {
        add_all(m.insert(added.first().0, out_v(added.first().1)), added.drop_first())
    }
}

/// A map after removing every listed outpoint, in order.
pub open spec fn remove_all(
    m: Map<OutPoint, (u64, Seq<u8>)>,
    removed: Seq<OutPoint>,
) -> Map<OutPoint, (u64, Seq<u8>)>
    decreases removed.len(),
{
    if removed.len() == 0 {
        m
    } else {
        remove_all(m.remove(removed.first()), removed.drop_first())
    }
}

/// Some added entry carries this key.
pub open spec fn added_has_key(added: Seq<(OutPoint, TxOutput)>, k: OutPoint) -> bool {
    exists|i: int| 0 <= i < added.len() && (#[trigger] added[i]).0 == k
}

/// The additions apply: every added outpoint is fresh and listed once.
pub open spec fn adds_ok(m: Map<OutPoint, (u64, Seq<u8>)>, added: Seq<(OutPoint, TxOutput)>) -> bool {
    &&& forall|i: int| 0 <= i < added.len() ==> !m.dom().contains(#[trigger] added[i].0)
    &&& distinct_keys(added)
}

/// The removals apply: every removed outpoint is present after the
/// additions and listed once.
pub open spec fn removes_ok(
    m: Map<OutPoint, (u64, Seq<u8>)>,
    added: Seq<(OutPoint, TxOutput)>,
    removed: Seq<OutPoint>,
) -> bool {
    &&& forall|j: int|
        0 <= j < removed.len() ==> m.dom().contains(#[trigger] removed[j]) || added_has_key(
            added,
            removed[j],
        )
    &&& forall|a: int, b: int| 0 <= a < b < removed.len() ==> removed[a] != removed[b]
}

/// A diff applies to a map when every added outpoint is fresh and listed
/// once, and every removed outpoint is present afterwards and listed once.
pub open spec fn diff_ok(
    m: Map<OutPoint, (u64, Seq<u8>)>,
    added: Seq<(OutPoint, TxOutput)>,
    removed: Seq<OutPoint>,
) -> bool {
    adds_ok(m, added) && removes_ok(m, added, removed)
}

/// The domain after `add_all` holds the old keys and the added keys.
pub proof fn lemma_add_all_dom(
    m: Map<OutPoint, (u64, Seq<u8>)>,
    added: Seq<(OutPoint, TxOutput)>,
)
    ensures
        forall|k: OutPoint|
            #[trigger] add_all(m, added).dom().contains(k) <==> (m.dom().contains(k)
                || added_has_key(added, k)),
    decreases added.len(),
{
    if added.len() > 0 {
        let m1 = m.insert(added.first().0, out_v(added.first().1));
        let rest = added.drop_first();
        lemma_add_all_dom(m1, rest);
        assert(add_all(m, added) == add_all(m1, rest));
        assert forall|k: OutPoint| #[trigger] add_all(m, added).dom().contains(k) implies (
        m.dom().contains(k) || added_has_key(added, k)) by {
            assert(add_all(m1, rest).dom().contains(k));
            if !m.dom().contains(k) {
                if k == added.first().0 {
                    assert((added[0]).0 == k);
                } else {
                    assert(added_has_key(rest, k));
                    let i = choose|i: int| 0 <= i < rest.len() && (#[trigger] rest[i]).0 == k;
                    assert(rest[i] == added[i + 1]);
                    assert((added[i + 1]).0 == k);
                }
            }
        }
        assert forall|k: OutPoint| (m.dom().contains(k) || added_has_key(added, k)) implies
            #[trigger] add_all(m, added).dom().contains(k) by {
            if m.dom().contains(k) {
                assert(m1.dom().contains(k) || k == added.first().0);
                if k == added.first().0 {
                    assert(m1.dom().contains(k));
                }
                assert(add_all(m1, rest).dom().contains(k));
            } else {
                let i = choose|i: int| 0 <= i < added.len() && (#[trigger] added[i]).0 == k;
                if i == 0 {
                    assert(m1.dom().contains(k));
                } else {
                    assert(rest[i - 1] == added[i]);
                    assert((rest[i - 1]).0 == k);
                    assert(added_has_key(rest, k));
                }
                assert(add_all(m1, rest).dom().contains(k));
            }
        }
    }
}

/// With distinct fresh keys, `add_all` grows the finite domain by the
/// number of entries.
pub proof fn lemma_add_all_len(m: Map<OutPoint, (u64, Seq<u8>)>, added: Seq<(OutPoint, TxOutput)>)
    requires
        m.dom().finite(),
        distinct_keys(added),
        forall|i: int| 0 <= i < added.len() ==> !m.dom().contains(#[trigger] added[i].0),
    ensures
        add_all(m, added).dom().finite(),
        add_all(m, added).dom().len() == m.dom().len() + added.len(),
    decreases added.len(),
{
    if added.len() > 0 {
        let m1 = m.insert(added.first().0, out_v(added.first().1));
        assert forall|i: int| 0 <= i < added.drop_first().len() implies !m1.dom().contains(
            #[trigger] added.drop_first()[i].0,
        ) by {
            assert(added.drop_first()[i] == added[i + 1]);
        }
        lemma_add_all_len(m1, added.drop_first());
    }
}

impl UtxoDiff {
    /// Creates an empty diff.
    pub fn new() -> (r: UtxoDiff)
        ensures
            r.added@.len() == 0,
            r.removed@.len() == 0,
    {
        UtxoDiff { added: Vec::new(), removed: Vec::new() }
    }

    /// Records an output to add.
    pub fn add(&mut self, outpoint: OutPoint, output: TxOutput)
        ensures
            final(self).added@ == old(self).added@.push((outpoint, output)),
            final(self).removed@ == old(self).removed@,
    {
        self.added.push((outpoint, output));
    }

    /// Records an outpoint to spend.
    pub fn remove(&mut self, outpoint: OutPoint)
        ensures
            final(self).removed@ == old(self).removed@.push(outpoint),
            final(self).added@ == old(self).added@,
    {
        self.removed.push(outpoint);
    }

    /// Applies the diff to a collection, atomically.
    pub fn apply_to(&self, collection: &mut UtxoCollection) -> (r: Result<(), UtxoError>)
        ensures
            r.is_ok() <==> diff_ok(old(collection)@, self.added@, self.removed@),
            !adds_ok(old(collection)@, self.added@) ==> r is Err && r->Err_0 is AlreadySpent,
            adds_ok(old(collection)@, self.added@) && !removes_ok(
                old(collection)@,
                self.added@,
                self.removed@,
            ) ==> r is Err && r->Err_0 is NotFound,
            r.is_ok() ==> final(collection)@ == remove_all(
                add_all(old(collection)@, self.added@),
                self.removed@,
            ),
            !r.is_ok() ==> final(collection)@ == old(collection)@
                && final(collection).spec_commitment() == old(collection).spec_commitment(),
    {
        collection.apply_diff(self)
    }

    /// The diff that undoes this diff's additions: it spends every added
    /// outpoint. The outputs this diff removed are not recoverable from the
    /// diff alone, so the reverse adds nothing.
    pub fn reverse(&self) -> (r: UtxoDiff)
        ensures
            r.added@.len() == 0,
            r.removed@.len() == self.added@.len(),
            forall|i: int| 0 <= i < self.added@.len() ==> r.removed@[i] == self.added@[i].0,
    {
        let mut reversed = UtxoDiff::new();
        let mut i: usize = 0;
        while i < self.added.len()
            invariant
                0 <= i <= self.added@.len(),
                reversed.added@.len() == 0,
                reversed.removed@.len() == i,
                forall|j: int| 0 <= j < i ==> reversed.removed@[j] == self.added@[j].0,
            decreases self.added@.len() - i,
        {
            reversed.remove(self.added[i].0);
            i += 1;
        }
        reversed
    }

    /// The diff a transaction implies: it spends each input's outpoint and
    /// adds one output per transaction output, keyed by the transaction's
    /// own hash and the output index.
    pub fn from_transaction(tx: &Transaction) -> (r: UtxoDiff)
        requires
            tx.outputs@.len() <= u32::MAX,
        ensures
            r.removed@.len() == tx.inputs@.len(),
            forall|i: int|
                0 <= i < tx.inputs@.len() ==> r.removed@[i] == (OutPoint {
                    tx_hash: tx.inputs@[i].prev_tx_hash,
                    index: tx.inputs@[i].index,
                }),
            r.added@.len() == tx.outputs@.len(),
            forall|i: int|
                0 <= i < tx.outputs@.len() ==> (#[trigger] r.added@[i]).0.index == i
                    && r.added@[i].0.tx_hash.bytes() == sha256_of(tx_bytes(*tx)) && out_v(
                    r.added@[i].1,
                ) == out_v(tx.outputs@[i]),
    {
        let mut diff = UtxoDiff::new();
        let mut i: usize = 0;
        while i < tx.inputs.len()
            invariant
                0 <= i <= tx.inputs@.len(),
                diff.added@.len() == 0,
                diff.removed@.len() == i,
                forall|j: int|
                    0 <= j < i ==> diff.removed@[j] == (OutPoint {
                        tx_hash: tx.inputs@[j].prev_tx_hash,
                        index: tx.inputs@[j].index,
                    }),
            decreases tx.inputs@.len() - i,
        {
            let input = &tx.inputs[i];
            diff.remove(OutPoint { tx_hash: input.prev_tx_hash, index: input.index });
            i += 1;
        }
        let tx_hash = tx.hash();
        let mut o: usize = 0;
        while o < tx.outputs.len()
            invariant
                0 <= o <= tx.outputs@.len(),
                tx.outputs@.len() <= u32::MAX,
                tx_hash.bytes() == sha256_of(tx_bytes(*tx)),
                diff.removed@.len() == tx.inputs@.len(),
                forall|j: int|
                    0 <= j < tx.inputs@.len() ==> diff.removed@[j] == (OutPoint {
                        tx_hash: tx.inputs@[j].prev_tx_hash,
                        index: tx.inputs@[j].index,
                    }),
                diff.added@.len() == o,
                forall|j: int|
                    0 <= j < o ==> (#[trigger] diff.added@[j]).0.index == j
                        && diff.added@[j].0.tx_hash == tx_hash && out_v(diff.added@[j].1) == out_v(
                        tx.outputs@[j],
                    ),
            decreases tx.outputs@.len() - o,
        {
            let output = clone_output(&tx.outputs[o]);
            diff.add(OutPoint { tx_hash, index: o as u32 }, output);
            o += 1;
        }
        diff
    }
}

impl Default for UtxoDiff {
    /// The default diff is empty.
    fn default() -> (r: UtxoDiff)
        ensures
            r.added@.len() == 0,
            r.removed@.len() == 0,
    {
        UtxoDiff::new()
    }
}

impl UtxoCollection {
    /// Applies a diff atomically: all additions must be fresh and all
    /// removals present after the additions, else the whole diff is
    /// rejected and nothing changes.
    pub fn apply_diff(&mut self, diff: &UtxoDiff) -> (r: Result<(), UtxoError>)
        ensures
            r.is_ok() <==> diff_ok(old(self)@, diff.added@, diff.removed@),
            !adds_ok(old(self)@, diff.added@) ==> r is Err && r->Err_0 is AlreadySpent,
            adds_ok(old(self)@, diff.added@) && !removes_ok(
                old(self)@,
                diff.added@,
                diff.removed@,
            ) ==> r is Err && r->Err_0 is NotFound,
            r.is_ok() ==> final(self)@ == remove_all(
                add_all(old(self)@, diff.added@),
                diff.removed@,
            ),
            !r.is_ok() ==> final(self)@ == old(self)@ && final(self).spec_commitment() == old(
                self,
            ).spec_commitment(),
    {
        // Validation: added outpoints must be fresh and pairwise distinct.
        let mut i: usize = 0;
        while i < diff.added.len()
            invariant
                0 <= i <= diff.added@.len(),
                self == old(self),
                forall|j: int|
                    0 <= j < i ==> !old(self)@.dom().contains(#[trigger] diff.added@[j].0),
                forall|a: int, b: int| 0 <= a < b < i ==> diff.added@[a].0 != diff.added@[b].0,
            decreases diff.added@.len() - i,
        {
            let op = diff.added[i].0;
            if self.get(&op).is_some() {
                proof {
                    assert((diff.added@[i as int]).0 == op);
                    assert(!adds_ok(old(self)@, diff.added@));
                }
                return Err(
                    UtxoError::AlreadySpent(
                        TransactionOutpoint { transaction_id: op.tx_hash, index: op.index },
                    ),
                );
            }
            let mut a: usize = 0;
            while a < i
                invariant
                    0 <= a <= i < diff.added@.len(),
                    op == diff.added@[i as int].0,
                    forall|b: int| 0 <= b < a ==> diff.added@[b].0 != op,
                decreases i - a,
            {
                if diff.added[a].0 == op {
                    proof {
                        assert((diff.added@[a as int]).0 == (diff.added@[i as int]).0);
                        assert(!adds_ok(old(self)@, diff.added@));
                    }
                    return Err(
                        UtxoError::AlreadySpent(
                            TransactionOutpoint { transaction_id: op.tx_hash, index: op.index },
                        ),
                    );
                }
                a += 1;
            }
            i += 1;
        }
        // Validation: removed outpoints must be present after the adds and
        // pairwise distinct.
        let mut j: usize = 0;
        while j < diff.removed.len()
            invariant
                0 <= j <= diff.removed@.len(),
                self == old(self),
                forall|a: int, b: int| 0 <= a < b < diff.added@.len() ==> diff.added@[a].0 != diff.added@[b].0,
                forall|a: int|
                    0 <= a < diff.added@.len() ==> !old(self)@.dom().contains(
                        #[trigger] diff.added@[a].0,
                    ),
                forall|q: int|
                    0 <= q < j ==> old(self)@.dom().contains(#[trigger] diff.removed@[q])
                        || added_has_key(diff.added@, diff.removed@[q]),
                forall|a: int, b: int| 0 <= a < b < j ==> diff.removed@[a] != diff.removed@[b],
            decreases diff.removed@.len() - j,
        {
            let op = diff.removed[j];
            let mut in_added = false;
            let mut a: usize = 0;
            while a < diff.added.len() && !in_added
                invariant
                    0 <= a <= diff.added@.len(),
                    op == diff.removed@[j as int],
                    self == old(self),
                    forall|a2: int, b2: int|
                        0 <= a2 < b2 < diff.added@.len() ==> diff.added@[a2].0 != diff.added@[
                        b2].0,
                    forall|a2: int|
                        0 <= a2 < diff.added@.len() ==> !old(self)@.dom().contains(
                            #[trigger] diff.added@[a2].0,
                        ),
                    in_added ==> added_has_key(diff.added@, op),
                    !in_added ==> forall|b: int| 0 <= b < a ==> diff.added@[b].0 != op,
                decreases diff.added@.len() - a + (if in_added { 0int } else { 1int }),
            {
                if diff.added[a].0 == op {
                    proof {
                        assert((diff.added@[a as int]).0 == op);
                    }
                    in_added = true;
                }
                a += 1;
            }
            if !in_added {
                if self.get(&op).is_none() {
                    proof {
                        assert(distinct_keys(diff.added@));
                        assert(adds_ok(old(self)@, diff.added@));
                    }
                    return Err(
                        UtxoError::NotFound(
                            TransactionOutpoint { transaction_id: op.tx_hash, index: op.index },
                        ),
                    );
                }
            }
            let mut b: usize = 0;
            while b < j
                invariant
                    0 <= b <= j < diff.removed@.len(),
                    op == diff.removed@[j as int],
                    self == old(self),
                    forall|a2: int, b2: int|
                        0 <= a2 < b2 < diff.added@.len() ==> diff.added@[a2].0 != diff.added@[
                        b2].0,
                    forall|a2: int|
                        0 <= a2 < diff.added@.len() ==> !old(self)@.dom().contains(
                            #[trigger] diff.added@[a2].0,
                        ),
                    forall|q: int| 0 <= q < b ==> diff.removed@[q] != op,
                decreases j - b,
            {
                if diff.removed[b] == op {
                    proof {
                        assert(diff.removed@[b as int] == diff.removed@[j as int]);
                        assert(distinct_keys(diff.added@));
                        assert(adds_ok(old(self)@, diff.added@));
                    }
                    return Err(
                        UtxoError::NotFound(
                            TransactionOutpoint { transaction_id: op.tx_hash, index: op.index },
                        ),
                    );
                }
                b += 1;
            }
            j += 1;
        }
        proof {
            assert(diff_ok(old(self)@, diff.added@, diff.removed@));
        }
        // Application: insert the additions, then take out the removals.
        let ghost m0 = old(self)@;
        let mut i: usize = 0;
        while i < diff.added.len()
            invariant
                0 <= i <= diff.added@.len(),
                diff_ok(m0, diff.added@, diff.removed@),
                self@ == add_all(m0, diff.added@.take(i as int)),
                forall|k: OutPoint|
                    self@.dom().contains(k) <==> (m0.dom().contains(k) || added_has_key(
                        diff.added@.take(i as int),
                        k,
                    )),
            decreases diff.added@.len() - i,
        {
            let (op, out) = {
                let e = &diff.added[i];
                (e.0, clone_output(&e.1))
            };
            proof {
                assert(!self@.dom().contains(op)) by {
                    assert(!m0.dom().contains((diff.added@[i as int]).0));
                    if added_has_key(diff.added@.take(i as int), op) {
                        let t = diff.added@.take(i as int);
                        let i2 = choose|i2: int| 0 <= i2 < t.len() && (#[trigger] t[i2]).0 == op;
                        assert(diff.added@[i2] == t[i2]);
                        assert((diff.added@[i2]).0 != (diff.added@[i as int]).0);
                    }
                }
            }
            let res = self.insert(op, out);
            proof {
                assert(res is Ok);
                assert(diff.added@.take(i + 1int).drop_last() =~= diff.added@.take(i as int));
                lemma_add_all_snoc(m0, diff.added@.take(i + 1int));
                assert(diff.added@.take(i + 1int).last() == diff.added@[i as int]);
                assert(out_v(out) == out_v((diff.added@[i as int]).1));
                assert(self@ == add_all(m0, diff.added@.take(i + 1int)));
                let t1 = diff.added@.take(i + 1int);
                let t0 = diff.added@.take(i as int);
                assert forall|k: OutPoint| added_has_key(t1, k) == (added_has_key(t0, k) || k
                    == op) by {
                    if added_has_key(t1, k) {
                        let q = choose|q: int| 0 <= q < t1.len() && (#[trigger] t1[q]).0 == k;
                        if q < i {
                            assert(t0[q] == t1[q]);
                            assert((t0[q]).0 == k);
                        } else {
                            assert(t1[q] == diff.added@[i as int]);
                        }
                    }
                    if added_has_key(t0, k) {
                        let q = choose|q: int| 0 <= q < t0.len() && (#[trigger] t0[q]).0 == k;
                        assert(t1[q] == t0[q]);
                        assert((t1[q]).0 == k);
                    }
                    if k == op {
                        assert((t1[i as int]).0 == k);
                    }
                }
            }
            i += 1;
        }
        proof {
            assert(diff.added@.take(diff.added@.len() as int) =~= diff.added@);
        }
        let ghost m1 = add_all(m0, diff.added@);
        let mut j: usize = 0;
        while j < diff.removed.len()
            invariant
                0 <= j <= diff.removed@.len(),
                diff_ok(m0, diff.added@, diff.removed@),
                m1 == add_all(m0, diff.added@),
                self@ == remove_all(m1, diff.removed@.take(j as int)),
                forall|k: OutPoint|
                    self@.dom().contains(k) <==> (m1.dom().contains(k) && !diff.removed@.take(
                        j as int,
                    ).contains(k)),
            decreases diff.removed@.len() - j,
        {
            let op = diff.removed[j];
            proof {
                lemma_add_all_dom(m0, diff.added@);
                assert(diff.removed@[j as int] == op);
                assert(m0.dom().contains(op) || added_has_key(diff.added@, op));
                assert(m1.dom().contains(op));
                assert(!diff.removed@.take(j as int).contains(op)) by {
                    if diff.removed@.take(j as int).contains(op) {
                        let q = choose|q: int|
                            0 <= q < j && diff.removed@.take(j as int)[q] == op;
                        assert(diff.removed@[q] == op);
                        assert(diff.removed@[q] != diff.removed@[j as int]);
                    }
                }
                assert(self@.dom().contains(op));
            }
            let ghost prev_m = self@;
            let res = self.remove(&op);
            proof {
                assert(self@ == prev_m.remove(op));
                assert(forall|k: OutPoint|
                    prev_m.dom().contains(k) <==> (m1.dom().contains(k) && !diff.removed@.take(
                        j as int,
                    ).contains(k)));
                assert(diff.removed@.take(j + 1int).drop_last() =~= diff.removed@.take(j as int));
                lemma_remove_all_snoc(m1, diff.removed@.take(j + 1int));
                assert(diff.removed@.take(j + 1int).last() == diff.removed@[j as int]);
                assert(self@ == remove_all(m1, diff.removed@.take(j + 1int)));
                let ghost t1 = diff.removed@.take(j + 1int);
                let ghost t0 = diff.removed@.take(j as int);
                assert forall|k: OutPoint| self@.dom().contains(k) <==> (m1.dom().contains(k)
                    && !t1.contains(k)) by {
                    assert(t1 =~= t0.push(op));
                    if t1.contains(k) {
                        let q = choose|q: int| 0 <= q < t1.len() && t1[q] == k;
                        if q < j {
                            assert(t0[q] == k);
                        }
                    }
                    if t0.contains(k) {
                        let q = choose|q: int| 0 <= q < t0.len() && t0[q] == k;
                        assert(t1[q] == k);
                    }
                    if k == op {
                        assert(t1[j as int] == k);
                    }
                }
            }
            j += 1;
        }
        proof {
            assert(diff.removed@.take(diff.removed@.len() as int) =~= diff.removed@);
        }
        Ok(())
    }
}

/// `add_all` peels from the back: adding a sequence plus one last entry is
/// adding the sequence and then inserting the last entry.
pub proof fn lemma_add_all_snoc(m: Map<OutPoint, (u64, Seq<u8>)>, added: Seq<(OutPoint, TxOutput)>)
    requires
        added.len() > 0,
    ensures
        add_all(m, added) == add_all(m, added.drop_last()).insert(
            added.last().0,
            out_v(added.last().1),
        ),
    decreases added.len(),
{
    let m1 = m.insert(added.first().0, out_v(added.first().1));
    let rest = added.drop_first();
    if added.len() == 1 {
        assert(added.drop_last() =~= Seq::<(OutPoint, TxOutput)>::empty());
        assert(rest =~= Seq::<(OutPoint, TxOutput)>::empty());
        assert(add_all(m, added) == add_all(m1, rest));
        assert(add_all(m1, rest) == m1);
        assert(add_all(m, added.drop_last()) == m);
        assert(added.last() == added.first());
    } else {
        lemma_add_all_snoc(m1, rest);
        assert(rest.len() > 0);
        assert(rest.drop_last() =~= added.drop_last().drop_first());
        assert(rest.last() == added.last());
        assert(added.drop_last().first() == added.first());
        assert(add_all(m, added) == add_all(m1, rest));
        assert(add_all(m1, rest) == add_all(m1, rest.drop_last()).insert(
            rest.last().0,
            out_v(rest.last().1),
        ));
        assert(added.drop_last().len() > 0);
        assert(add_all(m, added.drop_last()) == add_all(m1, added.drop_last().drop_first()));
        assert(add_all(m1, added.drop_last().drop_first()) == add_all(m1, rest.drop_last()));
    }
}

/// `remove_all` peels from the back likewise.
pub proof fn lemma_remove_all_snoc(m: Map<OutPoint, (u64, Seq<u8>)>, removed: Seq<OutPoint>)
    requires
        removed.len() > 0,
    ensures
        remove_all(m, removed) == remove_all(m, removed.drop_last()).remove(removed.last()),
    decreases removed.len(),
{
    let m1 = m.remove(removed.first());
    let rest = removed.drop_first();
    if removed.len() == 1 {
        assert(removed.drop_last() =~= Seq::<OutPoint>::empty());
        assert(rest =~= Seq::<OutPoint>::empty());
        assert(remove_all(m, removed) == remove_all(m1, rest));
        assert(remove_all(m1, rest) == m1);
        assert(remove_all(m, removed.drop_last()) == m);
        assert(removed.last() == removed.first());
    } else {
        lemma_remove_all_snoc(m1, rest);
        assert(rest.drop_last() =~= removed.drop_last().drop_first());
        assert(rest.last() == removed.last());
        assert(removed.drop_last().first() == removed.first());
        assert(remove_all(m, removed) == remove_all(m1, rest));
        assert(remove_all(m1, rest) == remove_all(m1, rest.drop_last()).remove(rest.last()));
        assert(removed.drop_last().len() > 0);
        assert(remove_all(m, removed.drop_last()) == remove_all(
            m1,
            removed.drop_last().drop_first(),
        ));
        assert(remove_all(m1, removed.drop_last().drop_first()) == remove_all(
            m1,
            rest.drop_last(),
        ));
    }
}

/// A removal of an outpoint that is neither present nor among the diff's
/// own additions fails the whole diff: `apply_diff` then returns an error
/// and, by its contract, leaves the collection and its commitment
/// untouched. (A removal the diff itself adds is exempt: additions apply
/// before removals are checked.)
pub proof fn lemma_missing_removal_fails(
    m: Map<OutPoint, (u64, Seq<u8>)>,
    added: Seq<(OutPoint, TxOutput)>,
    removed: Seq<OutPoint>,
    j: int,
)
    requires
        0 <= j < removed.len(),
        !m.dom().contains(removed[j]),
        !added_has_key(added, removed[j]),
    ensures
        !diff_ok(m, added, removed),
{
}

/// Applying the diff of an input-free transaction to the empty collection
/// and then spending one of its outpoints leaves one output fewer than the
/// transaction carries.
pub proof fn lemma_diff_spend_one(
    added: Seq<(OutPoint, TxOutput)>,
    h: crate::hashes::Hash,
    op: OutPoint,
)
    requires
        added.len() >= 1,
        added.len() <= u32::MAX,
        forall|i: int|
            0 <= i < added.len() ==> (#[trigger] added[i]).0.index == i && added[i].0.tx_hash == h,
        op == added[0].0,
    ensures
        diff_ok(Map::<OutPoint, (u64, Seq<u8>)>::empty(), added, Seq::<OutPoint>::empty()),
        add_all(Map::<OutPoint, (u64, Seq<u8>)>::empty(), added).remove(op).dom().len()
            == added.len() - 1,
{
    let empty = Map::<OutPoint, (u64, Seq<u8>)>::empty();
    assert forall|a: int, b: int| 0 <= a < b < added.len() implies added[a].0 != added[b].0 by {
        assert(added[a].0.index == a && added[b].0.index == b);
    }
    lemma_add_all_len(empty, added);
    lemma_add_all_dom(empty, added);
    assert(added_has_key(added, op)) by {
        assert((added[0]).0 == op);
    }
    assert(add_all(empty, added).dom().contains(op));
    assert(add_all(empty, added).dom().remove(op).len() == add_all(empty, added).dom().len() - 1);
    assert(add_all(empty, added).remove(op).dom() =~= add_all(empty, added).dom().remove(op));
}

} // verus!
