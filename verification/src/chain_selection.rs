//! Chain selection: tip discovery, the virtual state, and reorganization
//! paths along the selected-parent chains.

use vstd::prelude::*;
use std::sync::Arc;
use crate::ghostdag::{GhostDag, BlockRelations, preferred};
use crate::errors::{ConsensusError, ConsensusResult};
use crate::block::Block;

verus! {

/// The virtual state: the current head of the selected chain.
#[derive(Debug, Clone)]
pub struct VirtualState {
    pub selected_tip: crate::hashes::Hash,
    pub blue_score: u64,
    pub daa_score: u64,
    pub merge_set: Vec<crate::hashes::Hash>,
}

impl Default for VirtualState {
    /// The initial virtual state: the all-zero tip and zero scores.
    fn default() -> (r: VirtualState)
        ensures
            r.selected_tip == crate::hashes::Hash::zero(),
            r.blue_score == 0,
            r.daa_score == 0,
            r.merge_set@.len() == 0,
    {
        VirtualState {
            selected_tip: crate::hashes::Hash::default(),
            blue_score: 0,
            daa_score: 0,
            merge_set: Vec::new(),
        }
    }
}

/// A block with no children is a tip of the DAG.
pub open spec fn is_tip(
    m: Map<crate::hashes::Hash, BlockRelations>,
    h: crate::hashes::Hash,
) -> bool {
    m.dom().contains(h) && m[h].children@.len() == 0
}

/// The blue work the virtual state's tip carries under the engine, zero
/// when the engine does not know the tip.
pub open spec fn tip_work(
    m: Map<crate::hashes::Hash, BlockRelations>,
    tip: crate::hashes::Hash,
) -> int {
    if m.dom().contains(tip) {
        m[tip].blue_work.value()
    } else {
        0
    }
}

/// The chain selector: the engine it reads and the virtual state it keeps.
pub struct ChainSelector {
    ghostdag: Arc<GhostDag>,
    virtual_state: VirtualState,
}

impl ChainSelector {
    /// The engine read by this selector.
    pub closed spec fn engine(&self) -> GhostDag {
        *self.ghostdag
    }

    /// The engine's relations.
    pub open spec fn dag(&self) -> Map<crate::hashes::Hash, BlockRelations> {
        self.engine().rels()
    }

    /// The virtual state held.
    pub closed spec fn state(&self) -> VirtualState {
        self.virtual_state
    }

    /// Creates a selector over an engine, with the initial virtual state.
    pub fn new(ghostdag: Arc<GhostDag>) -> (r: ChainSelector)
        ensures
            r.dag() == ghostdag.rels(),
            r.engine() == *ghostdag,
            r.state().selected_tip == crate::hashes::Hash::zero(),
            r.state().blue_score == 0,
    {
        ChainSelector { ghostdag, virtual_state: VirtualState::default() }
    }

    /// All current tips: the blocks with no children.
    pub fn get_all_tips(&self) -> (r: ConsensusResult<Vec<crate::hashes::Hash>>)
        ensures
            r is Ok,
            forall|i: int| 0 <= i < r->Ok_0@.len() ==> is_tip(self.dag(), #[trigger] r->Ok_0@[i]),
            forall|h: crate::hashes::Hash| is_tip(self.dag(), h) ==> r->Ok_0@.contains(h),
            forall|a: int, b: int| 0 <= a < b < r->Ok_0@.len() ==> r->Ok_0@[a] != r->Ok_0@[b],
            r->Ok_0@.len() > 0 <==> self.engine().spec_len() > 0,
    {
        let hashes = self.ghostdag.block_hashes();
        let mut tips: Vec<crate::hashes::Hash> = Vec::new();
        let mut i: usize = 0;
        while i < hashes.len()
            invariant
                0 <= i <= hashes@.len(),
                forall|q: int|
                    0 <= q < hashes@.len() ==> self.dag().dom().contains(#[trigger] hashes@[q]),
                forall|a: int, b: int| 0 <= a < b < hashes@.len() ==> hashes@[a] != hashes@[b],
                forall|q: int| 0 <= q < tips@.len() ==> is_tip(self.dag(), #[trigger] tips@[q]),
                forall|q: int|
                    0 <= q < i ==> (is_tip(self.dag(), #[trigger] hashes@[q]) <==> tips@.contains(
                        hashes@[q],
                    )),
                forall|q: int|
                    0 <= q < tips@.len() ==> exists|w: int|
                        0 <= w < i && hashes@[w] == #[trigger] tips@[q],
                forall|a: int, b: int| 0 <= a < b < tips@.len() ==> tips@[a] != tips@[b],
            decreases hashes@.len() - i,
        {
            let h = hashes[i];
            match self.ghostdag.get_relations(&h) {
                Some(rel) => {
                    if rel.children.len() == 0 {
                        let ghost pre = tips@;
                        proof {
                            assert(!pre.contains(h)) by {
                                if pre.contains(h) {
                                    let q = choose|q: int| 0 <= q < pre.len() && pre[q] == h;
                                    let w = choose|w: int| 0 <= w < i && hashes@[w] == pre[q];
                                    assert(hashes@[w] == hashes@[i as int]);
                                }
                            }
                        }
                        tips.push(h);
                        proof {
                            assert forall|x: crate::hashes::Hash| pre.contains(x)
                                implies tips@.contains(x) by {
                                let q = choose|q: int| 0 <= q < pre.len() && pre[q] == x;
                                assert(tips@[q] == x);
                            }
                            assert(tips@.contains(h)) by {
                                assert(tips@.last() == h);
                            }
                        }
                    }
                },
                None => {
                    proof {
                        assert(false);
                    }
                },
            }
            i += 1;
        }
        proof {
            assert forall|h: crate::hashes::Hash| is_tip(self.dag(), h) implies tips@.contains(
                h,
            ) by {
                let w = choose|w: int| 0 <= w < hashes@.len() && hashes@[w] == h;
                assert(is_tip(self.dag(), hashes@[w]));
                assert(tips@.contains(hashes@[w]));
            }
            if self.engine().spec_len() > 0 {
                let h = choose|h: crate::hashes::Hash|
                    #[trigger] self.dag().dom().contains(h) && self.dag()[h].children@.len() == 0;
                assert(is_tip(self.dag(), h));
                assert(tips@.contains(h));
            }
            if tips@.len() > 0 {
                assert(self.dag().dom().contains(tips@[0]));
                let w = choose|w: int| 0 <= w < hashes@.len() && hashes@[w] == tips@[0];
            }
        }
        Ok(tips)
    }

    /// The current tip: the tip with the highest blue score, ties broken
    /// by blue work and then by the numerically smaller hash; fails with
    /// `NoTips` exactly when the DAG has none.
    pub fn select_tip(&self) -> (r: ConsensusResult<crate::hashes::Hash>)
        ensures
            r is Err <==> (forall|h: crate::hashes::Hash| !is_tip(self.dag(), h)),
            r is Err <==> self.engine().spec_len() == 0,
            r is Err ==> r->Err_0 is NoTips,
            r is Ok ==> is_tip(self.dag(), r->Ok_0) && (forall|h: crate::hashes::Hash|
                is_tip(self.dag(), h) ==> preferred(self.dag(), h, r->Ok_0)),
    {
        let tips = match self.get_all_tips() {
            Ok(tips) => tips,
            Err(e) => {
                proof {
                    assert(false);
                }
                return Err(e);
            },
        };
        if tips.len() == 0 {
            proof {
                assert forall|h: crate::hashes::Hash| !is_tip(self.dag(), h) by {
                    if is_tip(self.dag(), h) {
                        assert(tips@.contains(h));
                        let i = choose|i: int| 0 <= i < tips@.len() && tips@[i] == h;
                    }
                }
            }
            return Err(ConsensusError::NoTips);
        }
        let mut best: crate::hashes::Hash = tips[0];
        let mut i: usize = 1;
        while i < tips.len()
            invariant
                1 <= i <= tips@.len(),
                forall|q: int| 0 <= q < tips@.len() ==> is_tip(self.dag(), #[trigger] tips@[q]),
                is_tip(self.dag(), best),
                forall|q: int| 0 <= q < i ==> preferred(self.dag(), #[trigger] tips@[q], best),
            decreases tips@.len() - i,
        {
            let candidate = tips[i];
            let better = match (
                self.ghostdag.get_relations(&candidate),
                self.ghostdag.get_relations(&best),
            ) {
                (Some(cr), Some(br)) => {
                    proof {
                        crate::hashes::lemma_value_order(candidate, best);
                        crate::ghostdag::lemma_u192_value_eq(cr.blue_work, br.blue_work);
                    }
                    if cr.blue_score != br.blue_score {
                        cr.blue_score > br.blue_score
                    } else if !(cr.blue_work == br.blue_work) {
                        br.blue_work.less_than(&cr.blue_work)
                    } else {
                        candidate.less_than(&best)
                    }
                },
                _ => {
                    proof {
                        assert(false);
                    }
                    false
                },
            };
            if better {
                best = candidate;
            }
            i += 1;
        }
        proof {
            assert forall|h: crate::hashes::Hash| is_tip(self.dag(), h) implies preferred(
                self.dag(),
                h,
                best,
            ) by {
                assert(tips@.contains(h));
                let q = choose|q: int| 0 <= q < tips@.len() && tips@[q] == h;
            }
        }
        Ok(best)
    }

    /// Adopts the block as the virtual tip when it wins the tip rule:
    /// a strictly higher blue score, or an equal score and more blue work,
    /// or equal both and the numerically smaller hash.
    pub fn update_virtual_state(&mut self, new_block: &Block) -> (r: ConsensusResult<()>)
        requires
            new_block.header.counts_fit(),
        ensures
            r is Ok,
            final(self).dag() == old(self).dag(),
            ({
                let adopt = new_block.header.blue_score > old(self).state().blue_score || (
                new_block.header.blue_score == old(self).state().blue_score
                    && new_block.header.blue_work.value() > tip_work(
                    old(self).dag(),
                    old(self).state().selected_tip,
                )) || (new_block.header.blue_score == old(self).state().blue_score
                    && new_block.header.blue_work.value() == tip_work(
                    old(self).dag(),
                    old(self).state().selected_tip,
                ) && exists|bh: crate::hashes::Hash|
                    bh.bytes() == crate::hashing::sha256_of(
                        crate::header::header_bytes_with_nonce(
                            new_block.header,
                            new_block.header.nonce,
                        ),
                    ) && bh.value() < old(self).state().selected_tip.value());
                &&& (!adopt ==> final(self).state() == old(self).state())
                &&& (adopt ==> final(self).state().selected_tip.bytes()
                    == crate::hashing::sha256_of(
                    crate::header::header_bytes_with_nonce(
                        new_block.header,
                        new_block.header.nonce,
                    ),
                ) && final(self).state().blue_score == new_block.header.blue_score
                    && final(self).state().daa_score == new_block.header.daa_score)
                &&& (adopt && new_block.ghostdag_data is Some ==> final(self).state().merge_set@
                    == new_block.ghostdag_data->0.merge_set_blues@)
                &&& (adopt && new_block.ghostdag_data is None
                    ==> final(self).state().merge_set@.len() == 0)
            }),
    {
        let new_blue_score = new_block.header.blue_score;
        let current_blue_score = self.virtual_state.blue_score;
        let bh = new_block.hash();
        let current_work = match self.ghostdag.get_relations(&self.virtual_state.selected_tip) {
            Some(rel) => rel.blue_work,
            None => crate::uint::Uint192::from_u64(0),
        };
        let adopt = if new_blue_score != current_blue_score {
            new_blue_score > current_blue_score
        } else if !(new_block.header.blue_work == current_work) {
            proof {
                crate::ghostdag::lemma_u192_value_eq(new_block.header.blue_work, current_work);
            }
            current_work.less_than(&new_block.header.blue_work)
        } else {
            proof {
                crate::ghostdag::lemma_u192_value_eq(new_block.header.blue_work, current_work);
            }
            bh.less_than(&self.virtual_state.selected_tip)
        };
        proof {
            assert forall|bh2: crate::hashes::Hash|
                bh2.bytes() == crate::hashing::sha256_of(
                    crate::header::header_bytes_with_nonce(
                        new_block.header,
                        new_block.header.nonce,
                    ),
                ) implies bh2 == bh by {
                crate::hashes::lemma_hash_bytes_injective(bh2, bh);
            }
        }
        if adopt {
            let merge_set = match &new_block.ghostdag_data {
                Some(data) => crate::ghostdag::copy_hashes(&data.merge_set_blues),
                None => Vec::new(),
            };
            self.virtual_state = VirtualState {
                selected_tip: bh,
                blue_score: new_blue_score,
                daa_score: new_block.header.daa_score,
                merge_set,
            };
        }
        Ok(())
    }

    /// The virtual state held.
    pub fn get_virtual_state(&self) -> (r: VirtualState)
        ensures
            r.selected_tip == self.state().selected_tip,
            r.blue_score == self.state().blue_score,
            r.daa_score == self.state().daa_score,
            r.merge_set@ == self.state().merge_set@,
    {
        VirtualState {
            selected_tip: self.virtual_state.selected_tip,
            blue_score: self.virtual_state.blue_score,
            daa_score: self.virtual_state.daa_score,
            merge_set: crate::ghostdag::copy_hashes(&self.virtual_state.merge_set),
        }
    }

    /// The lowest common selected-parent ancestor: the first block on the
    /// second tip's chain that also stands on the first tip's chain; fails
    /// with `NoCommonAncestor` when the chains share nothing.
    pub fn find_common_ancestor(
        &self,
        block1: crate::hashes::Hash,
        block2: crate::hashes::Hash,
    ) -> (r: ConsensusResult<crate::hashes::Hash>)
        ensures
            ({
                let c1 = self.engine().chain(block1);
                let c2 = self.engine().chain(block2);
                &&& (r is Err ==> r->Err_0 is NoCommonAncestor && (forall|j: int|
                    0 <= j < c2.len() ==> !c1.contains(#[trigger] c2[j])))
                &&& (r is Ok ==> exists|j: int|
                    0 <= j < c2.len() && c2[j] == r->Ok_0 && c1.contains(#[trigger] c2[j]) && (
                    forall|q: int| 0 <= q < j ==> !c1.contains(#[trigger] c2[q])))
            }),
    {
        let chain1 = self.ghostdag.selected_parent_chain(&block1);
        let chain2 = self.ghostdag.selected_parent_chain(&block2);
        let mut j: usize = 0;
        while j < chain2.len()
            invariant
                0 <= j <= chain2@.len(),
                chain1@ == self.engine().chain(block1),
                chain2@ == self.engine().chain(block2),
                forall|q: int| 0 <= q < j ==> !chain1@.contains(#[trigger] chain2@[q]),
            decreases chain2@.len() - j,
        {
            let candidate = chain2[j];
            let mut q: usize = 0;
            let mut found = false;
            while q < chain1.len() && !found
                invariant
                    0 <= q <= chain1@.len(),
                    found ==> chain1@.contains(candidate),
                    !found ==> forall|w: int| 0 <= w < q ==> chain1@[w] != candidate,
                decreases chain1@.len() - q + (if found { 0int } else { 1int }),
            {
                if chain1[q] == candidate {
                    proof {
                        assert(chain1@[q as int] == candidate);
                    }
                    found = true;
                }
                q += 1;
            }
            if found {
                proof {
                    assert(chain2@[j as int] == candidate);
                }
                return Ok(candidate);
            }
            proof {
                if chain1@.contains(candidate) {
                    let w = choose|w: int| 0 <= w < chain1@.len() && chain1@[w] == candidate;
                    assert(false);
                }
            }
            j += 1;
        }
        Err(ConsensusError::NoCommonAncestor)
    }

    /// The blocks a reorganization removes and adds: the old tip's chain
    /// down to the common ancestor, tip first, and the new tip's chain up
    /// from the ancestor, ancestor side first.
    pub fn calculate_reorg_path(
        &self,
        old_tip: crate::hashes::Hash,
        new_tip: crate::hashes::Hash,
    ) -> (r: ConsensusResult<(Vec<crate::hashes::Hash>, Vec<crate::hashes::Hash>)>)
        ensures
            r is Err ==> r->Err_0 is NoCommonAncestor && (forall|j: int|
                0 <= j < self.engine().chain(new_tip).len() ==> !self.engine().chain(
                    old_tip,
                ).contains(#[trigger] self.engine().chain(new_tip)[j])),
            r is Ok ==> ({
                let added = r->Ok_0.0;
                let removed = r->Ok_0.1;
                let c1 = self.engine().chain(old_tip);
                let c2 = self.engine().chain(new_tip);
                exists|i1: int, i2: int|
                    #![auto]
                    0 <= i1 < c1.len() && 0 <= i2 < c2.len() && c1[i1] == c2[i2] && (forall|q: int|
                        0 <= q < i2 ==> !c1.contains(#[trigger] c2[q])) && removed@ == c1.take(i1)
                        && added@ == c2.take(i2).reverse()
            }),
    {
        let common = match self.find_common_ancestor(old_tip, new_tip) {
            Ok(c) => c,
            Err(e) => {
                return Err(e);
            },
        };
        proof {
            let c2 = self.engine().chain(new_tip);
            assert(c2.contains(common)) by {
                let j = choose|j: int|
                    0 <= j < c2.len() && c2[j] == common && self.engine().chain(
                        old_tip,
                    ).contains(c2[j]) && (forall|q: int|
                        0 <= q < j ==> !self.engine().chain(old_tip).contains(#[trigger] c2[q]));
            }
        }
        let chain1 = self.ghostdag.selected_parent_chain(&old_tip);
        let chain2 = self.ghostdag.selected_parent_chain(&new_tip);
        let mut removed: Vec<crate::hashes::Hash> = Vec::new();
        let mut i: usize = 0;
        while i < chain1.len() && !(chain1[i] == common)
            invariant
                0 <= i <= chain1@.len(),
                chain1@ == self.engine().chain(old_tip),
                forall|q: int| 0 <= q < i ==> chain1@[q] != common,
                removed@ == chain1@.take(i as int),
            decreases chain1@.len() - i,
        {
            proof {
                assert(chain1@.take(i + 1int) =~= chain1@.take(i as int).push(chain1@[i as int]));
            }
            removed.push(chain1[i]);
            i += 1;
        }
        proof {
            assert(chain1@.contains(common));
            if i == chain1@.len() {
                let w = choose|w: int| 0 <= w < chain1@.len() && chain1@[w] == common;
                assert(false);
            }
            assert(chain1@[i as int] == common);
        }
        let mut up: Vec<crate::hashes::Hash> = Vec::new();
        let mut j: usize = 0;
        while j < chain2.len() && !(chain2[j] == common)
            invariant
                0 <= j <= chain2@.len(),
                chain2@ == self.engine().chain(new_tip),
                forall|q: int| 0 <= q < j ==> chain2@[q] != common,
                up@ == chain2@.take(j as int),
            decreases chain2@.len() - j,
        {
            proof {
                assert(chain2@.take(j + 1int) =~= chain2@.take(j as int).push(chain2@[j as int]));
            }
            up.push(chain2[j]);
            j += 1;
        }
        proof {
            assert(chain2@.contains(common));
            if j == chain2@.len() {
                let w = choose|w: int| 0 <= w < chain2@.len() && chain2@[w] == common;
                assert(false);
            }
            assert(chain2@[j as int] == common);
        }
        let mut added: Vec<crate::hashes::Hash> = Vec::new();
        let mut b: usize = up.len();
        while b > 0
            invariant
                0 <= b <= up@.len(),
                added@ == up@.skip(b as int).reverse(),
            decreases b,
        {
            b -= 1;
            proof {
                assert(up@.skip(b as int).reverse() =~= up@.skip(b + 1int).reverse().push(
                    up@[b as int],
                ));
            }
            added.push(up[b]);
        }
        proof {
            assert(up@.skip(0) =~= up@);
            assert(added@ == up@.reverse());
            let c1 = self.engine().chain(old_tip);
            let c2 = self.engine().chain(new_tip);
            let jf = choose|jf: int|
                0 <= jf < c2.len() && c2[jf] == common && c1.contains(c2[jf]) && (forall|q: int|
                    0 <= q < jf ==> !c1.contains(#[trigger] c2[q]));
            assert(c1.contains(common));
            if jf > j {
                assert(!c1.contains(c2[j as int]));
                assert(false);
            }
            if jf < j {
                assert(c2[jf] != common);
                assert(false);
            }
            assert(forall|q: int| 0 <= q < j ==> !c1.contains(#[trigger] c2[q]));
            assert(c1[i as int] == c2[j as int]);
        }
        Ok((added, removed))
    }

    /// Performs a reorganization from the old tip to the new one: computes
    /// the removed and added chains and adopts the new tip's virtual state
    /// as the engine records it.
    pub fn handle_reorg(
        &mut self,
        old_tip: crate::hashes::Hash,
        new_tip: crate::hashes::Hash,
    ) -> (r: ConsensusResult<crate::ChainPath>)
        ensures
            final(self).dag() == old(self).dag(),
            r is Err ==> r->Err_0 is NoCommonAncestor && final(self).state() == old(self).state()
                && (forall|j: int|
                0 <= j < old(self).engine().chain(new_tip).len() ==> !old(self).engine().chain(
                    old_tip,
                ).contains(#[trigger] old(self).engine().chain(new_tip)[j])),
            r is Ok ==> ({
                let c1 = old(self).engine().chain(old_tip);
                let c2 = old(self).engine().chain(new_tip);
                &&& (exists|i1: int, i2: int|
                    #![auto]
                    0 <= i1 < c1.len() && 0 <= i2 < c2.len() && c1[i1] == c2[i2] && (forall|
                        q: int,
                    | 0 <= q < i2 ==> !c1.contains(#[trigger] c2[q])) && r->Ok_0.removed@
                        == c1.take(i1) && r->Ok_0.added@ == c2.take(i2).reverse())
                &&& final(self).state().selected_tip == new_tip
                &&& final(self).state().blue_score == (if old(self).dag().dom().contains(new_tip) {
                    old(self).dag()[new_tip].blue_score
                } else {
                    0
                })
            }),
    {
        let (added, removed) = match self.calculate_reorg_path(old_tip, new_tip) {
            Ok(path) => path,
            Err(e) => {
                return Err(e);
            },
        };
        let new_state = self.calculate_virtual_state_for_tip(new_tip);
        self.virtual_state = new_state;
        Ok(crate::ChainPath { added, removed })
    }

    /// Reads the virtual state the engine records for a tip: its blue
    /// score and merge set, with the recorded blue score standing in for
    /// the daa score until the difficulty window is specified.
    pub fn calculate_virtual_state_for_tip(&self, tip: crate::hashes::Hash) -> (r: VirtualState)
        ensures
            r.selected_tip == tip,
            r.blue_score == (if self.dag().dom().contains(tip) {
                self.dag()[tip].blue_score
            } else {
                0
            }),
            r.daa_score == r.blue_score,
            self.dag().dom().contains(tip) ==> r.merge_set@ == self.dag()[tip].merge_set_blues@,
    {
        match self.ghostdag.get_relations(&tip) {
            Some(rel) => VirtualState {
                selected_tip: tip,
                blue_score: rel.blue_score,
                daa_score: rel.blue_score,
                merge_set: crate::ghostdag::copy_hashes(&rel.merge_set_blues),
            },
            None => VirtualState {
                selected_tip: tip,
                blue_score: 0,
                daa_score: 0,
                merge_set: Vec::new(),
            },
        }
    }
}

} // verus!
