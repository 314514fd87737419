//! The GHOSTDAG engine: block relations, blue/red classification under the
//! k-cluster rule, blue score and blue work, and anticone bookkeeping.

use vstd::prelude::*;
use crate::uint::{Uint192, base192};
use crate::maps::BlockHashMap;
use crate::errors::{ConsensusError, ConsensusResult};
use crate::block::Block;
use crate::KType;

verus! {

/// The GHOSTDAG verdict for one block.
#[derive(Debug, Clone, PartialEq, Eq)]
pub struct GhostDagData {
    pub blue_score: u64,
    pub blue_work: Uint192,
    pub selected_parent: crate::hashes::Hash,
    pub merge_set_blues: Vec<crate::hashes::Hash>,
    pub merge_set_reds: Vec<crate::hashes::Hash>,
    pub blues_anticone_sizes: Vec<(crate::hashes::Hash, u64)>,
}

impl Default for GhostDagData {
    /// The default data is the genesis data: score zero, zero work, the
    /// all-zero selected parent and empty merge sets.
    fn default() -> (r: GhostDagData)
        ensures
            r.blue_score == 0,
            r.blue_work.value() == 0,
            r.selected_parent == crate::hashes::Hash::zero(),
            r.merge_set_blues@.len() == 0,
            r.merge_set_reds@.len() == 0,
            r.blues_anticone_sizes@.len() == 0,
    {
        GhostDagData {
            blue_score: 0,
            blue_work: Uint192::from_u64(0),
            selected_parent: crate::hashes::Hash::default(),
            merge_set_blues: Vec::new(),
            merge_set_reds: Vec::new(),
            blues_anticone_sizes: Vec::new(),
        }
    }
}

/// The relations the engine keeps for one block: its parents, the children
/// appended as descendants arrive, and its own verdict fields.
#[derive(Debug, Clone)]
pub struct BlockRelations {
    pub parents: Vec<crate::hashes::Hash>,
    pub children: Vec<crate::hashes::Hash>,
    pub is_blue: bool,
    pub blue_score: u64,
    pub blue_work: Uint192,
    pub own_work: Uint192,
    pub selected_parent: Option<crate::hashes::Hash>,
    pub merge_set_blues: Vec<crate::hashes::Hash>,
    pub merge_set_reds: Vec<crate::hashes::Hash>,
}

/// The hash stands in the first `i` places of the order.
pub open spec fn in_prefix(order: Seq<crate::hashes::Hash>, h: crate::hashes::Hash, i: int) -> bool {
    exists|j: int| 0 <= j < i && order[j] == h
}

/// The place of a hash in the order.
pub open spec fn order_index(order: Seq<crate::hashes::Hash>, h: crate::hashes::Hash) -> int {
    choose|j: int| 0 <= j < order.len() && order[j] == h
}

/// The engine's store: relations and blue scores by block hash, and the
/// insertion order that witnesses acyclicity.
struct DagStore {
    k: KType,
    relations: BlockHashMap<BlockRelations>,
    blue_scores: BlockHashMap<u64>,
    order: Vec<crate::hashes::Hash>,
}

/// Every stored block stands in the order once; its parents and selected
/// parent stand strictly earlier; and the blue-score map mirrors the
/// relations.
spec fn dag_wf(d: &DagStore) -> bool {
    &&& forall|a: int, b: int| 0 <= a < b < d.order@.len() ==> d.order@[a] != d.order@[b]
    &&& forall|h: crate::hashes::Hash|
        #[trigger] d.relations@.dom().contains(h) <==> in_prefix(d.order@, h, d.order@.len() as int)
    &&& forall|i: int| 0 <= i < d.order@.len() ==> rel_wf(d, i)
    &&& d.blue_scores@.dom() == d.relations@.dom()
    &&& forall|h: crate::hashes::Hash|
        #[trigger] d.relations@.dom().contains(h) ==> d.blue_scores@[h] == d.relations@[h].blue_score
    &&& d.order@.len() > 0 ==> d.relations@[d.order@.last()].children@.len() == 0
}

/// The block at place `i` is stored, and everything it points back to
/// stands strictly earlier in the order.
spec fn rel_wf(d: &DagStore, i: int) -> bool {
    &&& d.relations@.dom().contains(d.order@[i])
    &&& forall|p: int|
        0 <= p < d.relations@[d.order@[i]].parents@.len() ==> in_prefix(
            d.order@,
            #[trigger] d.relations@[d.order@[i]].parents@[p],
            i,
        )
    &&& d.relations@[d.order@[i]].selected_parent is Some ==> in_prefix(
        d.order@,
        d.relations@[d.order@[i]].selected_parent->0,
        i,
    )
}

/// The selected-parent chain read from a relations map, starting at a
/// hash: the hash itself, then the chain from its selected parent. The
/// fuel bounds the walk; any fuel at least the number of stored blocks
/// reads the whole chain.
pub open spec fn chain_in(
    m: Map<crate::hashes::Hash, BlockRelations>,
    h: crate::hashes::Hash,
    fuel: nat,
) -> Seq<crate::hashes::Hash>
    decreases fuel,
{
    if fuel == 0 || !m.dom().contains(h) || !(m[h].selected_parent is Some) {
        seq![h]
    } else {
        seq![h] + chain_in(m, m[h].selected_parent->0, (fuel - 1) as nat)
    }
}

/// The GHOSTDAG manager.
pub struct GhostDag {
    store: DagStore,
}

impl GhostDag {
    /// The store is well formed.
    #[verifier::type_invariant]
    spec fn wf(&self) -> bool {
        dag_wf(&self.store)
    }

    /// The relations held, by block hash.
    pub closed spec fn rels(&self) -> Map<crate::hashes::Hash, BlockRelations> {
        self.store.relations@
    }

    /// The blue scores held, by block hash.
    pub closed spec fn scores(&self) -> Map<crate::hashes::Hash, u64> {
        self.store.blue_scores@
    }

    /// The k parameter the engine was created with.
    pub closed spec fn spec_k(&self) -> KType {
        self.store.k
    }

    /// The number of blocks the engine holds.
    pub closed spec fn spec_len(&self) -> nat {
        self.store.order@.len()
    }

    /// The selected-parent chain from a hash under this engine's relations.
    pub open spec fn chain(&self, h: crate::hashes::Hash) -> Seq<crate::hashes::Hash> {
        chain_in(self.rels(), h, self.spec_len())
    }

    /// Creates an engine with the given k parameter and no blocks.
    pub fn new(k: KType) -> (r: GhostDag)
        ensures
            r.rels() == Map::<crate::hashes::Hash, BlockRelations>::empty(),
            r.scores() == Map::<crate::hashes::Hash, u64>::empty(),
            r.spec_k() == k,
            r.spec_len() == 0,
    {
        let r = GhostDag {
            store: DagStore {
                k,
                relations: BlockHashMap::new(),
                blue_scores: BlockHashMap::new(),
                order: Vec::new(),
            },
        };
        proof {
            assert(dag_wf(&r.store));
        }
        r
    }

    /// The blue score recorded for a block.
    pub fn get_blue_score(&self, block_hash: &crate::hashes::Hash) -> (r: Option<u64>)
        ensures
            self.scores().dom().contains(*block_hash) ==> r is Some && r->0 == self.scores()[
                *block_hash],
            !self.scores().dom().contains(*block_hash) ==> r is None,
    {
        match self.store.blue_scores.get(block_hash) {
            Some(score) => Some(*score),
            None => None,
        }
    }

    /// The hashes of every block the engine holds.
    pub fn block_hashes(&self) -> (r: Vec<crate::hashes::Hash>)
        ensures
            r@.len() == self.spec_len(),
            forall|i: int| 0 <= i < r@.len() ==> self.rels().dom().contains(#[trigger] r@[i]),
            forall|h: crate::hashes::Hash|
                self.rels().dom().contains(h) ==> exists|i: int| 0 <= i < r@.len() && r@[i] == h,
            forall|a: int, b: int| 0 <= a < b < r@.len() ==> r@[a] != r@[b],
            self.spec_len() > 0 ==> exists|h: crate::hashes::Hash|
                #[trigger] self.rels().dom().contains(h) && self.rels()[h].children@.len() == 0,
    {
        proof {
            use_type_invariant(self);
            lemma_dom_size(&self.store);
            self.store.relations.lemma_finite_dom();
            if self.spec_len() > 0 {
                let last = self.store.order@.last();
                assert(in_prefix(self.store.order@, last, self.store.order@.len() as int)) by {
                    assert(self.store.order@[self.store.order@.len() - 1] == last);
                }
                assert(self.rels().dom().contains(last) && self.rels()[last].children@.len()
                    == 0);
            }
        }
        let n = self.store.relations.len();
        proof {
            assert(n == self.rels().dom().len());
        }
        self.store.relations.keys()
    }

    /// The relations recorded for a block.
    pub fn get_relations(&self, block_hash: &crate::hashes::Hash) -> (r: Option<&BlockRelations>)
        ensures
            self.rels().dom().contains(*block_hash) ==> r is Some && *r->0 == self.rels()[
                *block_hash],
            !self.rels().dom().contains(*block_hash) ==> r is None,
    {
        self.store.relations.get(block_hash)
    }

    /// Walks the selected-parent chain backwards from the candidate;
    /// true when the reference is reached.
    pub fn is_in_past_cone(&self, candidate: &crate::hashes::Hash, reference: &crate::hashes::Hash)
        -> (r: bool)
        ensures
            r == self.chain(*candidate).contains(*reference),
    {
        let chain = self.selected_parent_chain(candidate);
        let mut i: usize = 0;
        while i < chain.len()
            invariant
                0 <= i <= chain@.len(),
                chain@ == self.chain(*candidate),
                forall|j: int| 0 <= j < i ==> chain@[j] != *reference,
            decreases chain@.len() - i,
        {
            if chain[i] == *reference {
                return true;
            }
            i += 1;
        }
        proof {
            if self.chain(*candidate).contains(*reference) {
                let j = choose|j: int|
                    0 <= j < chain@.len() && chain@[j] == *reference;
                assert(false);
            }
        }
        false
    }

    /// The selected-parent chain from a hash, the hash itself first.
    pub fn selected_parent_chain(&self, from: &crate::hashes::Hash) -> (r: Vec<
        crate::hashes::Hash,
    >)
        ensures
            r@ == self.chain(*from),
    {
        proof {
            use_type_invariant(self);
        }
        let mut r: Vec<crate::hashes::Hash> = Vec::new();
        let mut current: crate::hashes::Hash = *from;
        r.push(current);
        loop
            invariant
                dag_wf(&self.store),
                r@.len() >= 1,
                r@.last() == current,
                r@ + chain_in(self.rels(), current, self.spec_len()).drop_first() == self.chain(
                    *from,
                ),
                self.rels().dom().contains(current) ==> fuel_enough(
                    &self.store,
                    current,
                    self.spec_len(),
                ),
            ensures
                r@ + chain_in(self.rels(), current, self.spec_len()).drop_first() == self.chain(
                    *from,
                ),
                r@.len() >= 1 && r@.last() == current,
                !self.rels().dom().contains(current) || !(self.rels()[current].selected_parent
                    is Some),
            decreases (if self.rels().dom().contains(current) {
                order_index(self.store.order@, current) + 1
            } else {
                0int
            }),
        {
            let next = match self.store.relations.get(&current) {
                Some(rel) => match rel.selected_parent {
                    Some(p) => p,
                    None => {
                        proof {
                            lemma_chain_stops(&self.store, current, self.spec_len());
                        }
                        break ;
                    },
                },
                None => {
                    proof {
                        lemma_chain_stops(&self.store, current, self.spec_len());
                    }
                    break ;
                },
            };
            proof {
                lemma_chain_step(&self.store, current, self.spec_len());
                lemma_parent_index_smaller(&self.store, current, next);
            }
            r.push(next);
            current = next;
        }
        proof {
            assert(chain_in(self.rels(), current, self.spec_len()) =~= seq![current]);
            assert(r@ =~= self.chain(*from));
        }
        r
    }
}

/// Any fuel at least the number of stored blocks walks the chain to its
/// end: with a well-formed store the chain from a stored block needs no
/// more steps than the block's place in the order.
spec fn fuel_enough(d: &DagStore, h: crate::hashes::Hash, fuel: nat) -> bool {
    fuel > order_index(d.order@, h)
}

/// In a well-formed store, a stored block's selected parent is stored and
/// stands strictly earlier in the order.
proof fn lemma_parent_index_smaller(d: &DagStore, h: crate::hashes::Hash, p: crate::hashes::Hash)
    requires
        dag_wf(d),
        d.relations@.dom().contains(h),
        d.relations@[h].selected_parent == Some(p),
    ensures
        d.relations@.dom().contains(p),
        0 <= order_index(d.order@, p) < order_index(d.order@, h) < d.order@.len(),
{
    let i = order_index(d.order@, h);
    assert(in_prefix(d.order@, h, d.order@.len() as int));
    let wi = choose|j: int| 0 <= j < d.order@.len() && d.order@[j] == h;
    assert(d.order@[i] == h && 0 <= i < d.order@.len());
    assert(rel_wf(d, i));
    assert(in_prefix(d.order@, p, i));
    let pj = choose|j: int| 0 <= j < i && d.order@[j] == p;
    assert(in_prefix(d.order@, p, d.order@.len() as int));
    assert(d.relations@.dom().contains(p));
    let ip = order_index(d.order@, p);
    assert(d.order@[ip] == p && 0 <= ip < d.order@.len());
    if ip >= i {
        if ip == i {
            assert(h == p);
            assert(d.order@[pj] == p && pj < i);
            assert(false);
        } else {
            assert(d.order@[pj] == d.order@[ip]);
            assert(pj < i < ip);
            assert(false);
        }
    }
}

/// One unfolding of the chain at a stored block with a selected parent.
proof fn lemma_chain_step(d: &DagStore, h: crate::hashes::Hash, fuel: nat)
    requires
        dag_wf(d),
        d.relations@.dom().contains(h),
        d.relations@[h].selected_parent is Some,
        fuel_enough(d, h, fuel),
    ensures
        chain_in(d.relations@, h, fuel) == seq![h] + chain_in(
            d.relations@,
            d.relations@[h].selected_parent->0,
            (fuel - 1) as nat,
        ),
        fuel_enough(d, d.relations@[h].selected_parent->0, (fuel - 1) as nat),
        chain_in(d.relations@, d.relations@[h].selected_parent->0, (fuel - 1) as nat) == chain_in(
            d.relations@,
            d.relations@[h].selected_parent->0,
            d.order@.len() as nat,
        ),
{
    let p = d.relations@[h].selected_parent->0;
    lemma_parent_index_smaller(d, h, p);
    assert(fuel > order_index(d.order@, h) >= 1 + order_index(d.order@, p));
    lemma_chain_fuel(d, p, (fuel - 1) as nat, d.order@.len() as nat);
}

/// The chain from a dead end is the block alone.
proof fn lemma_chain_stops(d: &DagStore, h: crate::hashes::Hash, fuel: nat)
    requires
        !d.relations@.dom().contains(h) || !(d.relations@[h].selected_parent is Some),
    ensures
        chain_in(d.relations@, h, fuel) == seq![h],
{
}

/// Chains do not depend on the fuel once it covers the block's place in
/// the order.
proof fn lemma_chain_fuel(d: &DagStore, h: crate::hashes::Hash, f1: nat, f2: nat)
    requires
        dag_wf(d),
        d.relations@.dom().contains(h) ==> fuel_enough(d, h, f1) && fuel_enough(d, h, f2),
    ensures
        chain_in(d.relations@, h, f1) == chain_in(d.relations@, h, f2),
    decreases f1,
{
    if d.relations@.dom().contains(h) && d.relations@[h].selected_parent is Some {
        let p = d.relations@[h].selected_parent->0;
        lemma_parent_index_smaller(d, h, p);
        assert(f1 >= 1 && f2 >= 1);
        lemma_chain_fuel(d, p, (f1 - 1) as nat, (f2 - 1) as nat);
    }
}


/// The number of significant bits of a nonnegative integer.
pub open spec fn bit_len(v: int) -> nat
    decreases v,
{
    if v <= 0 {
        0
    } else {
        1 + bit_len(v / 2)
    }
}

/// The bit length is the unique `n` with `2^(n-1) <= v < 2^n`.
#[verifier::rlimit(30)]
proof fn lemma_bit_len_unique(v: int, n: nat)
    requires
        0 <= v,
        v < vstd::arithmetic::power2::pow2(n),
        n > 0 ==> v >= vstd::arithmetic::power2::pow2((n - 1) as nat),
        n == 0 ==> v == 0,
    ensures
        bit_len(v) == n,
    decreases n,
{
    vstd::arithmetic::power2::lemma2_to64();
    assert(bit_len(0) == 0);
    if n == 0 {
    } else if n == 1 {
        assert(v < 2 && v >= 1);
        assert(v == 1);
        assert(bit_len(1) == 1 + bit_len(0));
    } else {
        vstd::arithmetic::power2::lemma_pow2_unfold(n);
        vstd::arithmetic::power2::lemma_pow2_unfold((n - 1) as nat);
        vstd::arithmetic::power2::lemma_pow2_pos((n - 2) as nat);
        assert(v / 2 < vstd::arithmetic::power2::pow2((n - 1) as nat));
        assert(v / 2 >= vstd::arithmetic::power2::pow2((n - 2) as nat));
        lemma_bit_len_unique(v / 2, (n - 1) as nat);
        assert(v > 0);
    }
}

/// The work a block contributes, derived from its compact target bits.
/// With exponent `e` and mantissa `m`, the target is `m * 2^(8*(e-3))`,
/// and the work approximates `2^256 / (target + 1)` as
/// `2^(256 - 8*(e-3)) / (m + 1)`: the divisor is the target rounded up to
/// the next multiple of its mantissa resolution, plus one step. The work
/// clamps into 192 bits; targets below the 24-bit mantissa range, and the
/// zero target, clamp to the largest work.
pub open spec fn spec_work_of(bits: u32) -> int {
    let e = bits >> 24;
    let m = bits & 0x00FF_FFFF;
    if e <= 3 || 8 * (e - 3) >= 232 {
        base192() - 1
    } else {
        let q = (vstd::arithmetic::power2::pow2((256 - 8 * (e - 3)) as nat) as int) / (m + 1);
        if q >= base192() {
            base192() - 1
        } else {
            q
        }
    }
}

/// One short-division step: divides `rem * 2^64 + limb` by `d`.
fn div_step(rem: u64, limb: u64, d: u64) -> (r: (u64, u64))
    requires
        1 <= d,
        rem < d,
    ensures
        (rem * 0x1_0000_0000_0000_0000int) + limb == r.0 * d + r.1,
        r.1 < d,
{
    let cur: u128 = ((rem as u128) << 64) | (limb as u128);
    proof {
        assert(cur == (rem as u128) * 0x1_0000_0000_0000_0000u128 + limb) by (bit_vector)
            requires
                cur == ((rem as u128) << 64) | (limb as u128),
        ;
        assert(cur / (d as u128) < 0x1_0000_0000_0000_0000u128) by (nonlinear_arith)
            requires
                cur == (rem as u128) * 0x1_0000_0000_0000_0000u128 + (limb as u128),
                rem < d,
                1 <= d,
                limb < 0x1_0000_0000_0000_0000u128,
        ;
        assert(cur == (cur / (d as u128)) * (d as u128) + (cur % (d as u128))) by (nonlinear_arith)
            requires
                1 <= d,
        ;
        assert(cur % (d as u128) < (d as u128)) by (nonlinear_arith)
            requires
                1 <= d,
        ;
    }
    let q = (cur / (d as u128)) as u64;
    let r = (cur % (d as u128)) as u64;
    (q, r)
}

/// Divides a power of two by a small divisor, clamping into 192 bits.
#[verifier::rlimit(50)]
fn pow2_div(e: u32, d: u64) -> (r: Uint192)
    requires
        32 <= e <= 248,
        1 <= d <= 0x100_0000,
    ensures
        r.value() == ({
            let q = (vstd::arithmetic::power2::pow2(e as nat) as int) / (d as int);
            if q >= base192() {
                base192() - 1
            } else {
                q
            }
        }),
{
    let t: u32 = e / 64;
    let u: u32 = e % 64;
    let limb: u64 = 1u64 << u;
    proof {
        assert(limb == vstd::arithmetic::power2::pow2(u as nat)) by {
            vstd::arithmetic::power2::lemma2_to64();
            vstd::arithmetic::power2::lemma2_to64_rest();
            if u > 0 {
                vstd::arithmetic::power2::lemma_pow2_strictly_increases(u as nat, 64);
            }
            vstd::bits::lemma_u64_shl_is_mul(1u64, u as u64);
            assert((1u64 << (u as u64)) == 1 * vstd::arithmetic::power2::pow2(u as nat));
        }
        vstd::arithmetic::power2::lemma2_to64();
        vstd::arithmetic::power2::lemma2_to64_rest();
        vstd::arithmetic::power2::lemma_pow2_adds((64 * t) as nat, u as nat);
        crate::uint::lemma_pow2_bases();
    }
    let d3: u64 = if t == 3 {
        limb
    } else {
        0
    };
    let d2: u64 = if t == 2 {
        limb
    } else {
        0
    };
    let d1: u64 = if t == 1 {
        limb
    } else {
        0
    };
    let d0: u64 = if t == 0 {
        limb
    } else {
        0
    };
    let ghost p64: int = crate::uint::base64();
    let ghost p128: int = crate::uint::base128();
    let ghost p192: int = base192();
    let ghost n: int = vstd::arithmetic::power2::pow2(e as nat) as int;
    proof {
        assert(n == d3 * p192 + d2 * p128 + d1 * p64 + d0) by (nonlinear_arith)
            requires
                0 <= t <= 3,
                n == vstd::arithmetic::power2::pow2((64 * t) as nat) * vstd::arithmetic::power2::pow2(
                    u as nat,
                ),
                limb == vstd::arithmetic::power2::pow2(u as nat),
                t == 3 ==> d3 == limb && d2 == 0 && d1 == 0 && d0 == 0
                    && vstd::arithmetic::power2::pow2((64 * t) as nat) == p192,
                t == 2 ==> d3 == 0 && d2 == limb && d1 == 0 && d0 == 0
                    && vstd::arithmetic::power2::pow2((64 * t) as nat) == p128,
                t == 1 ==> d3 == 0 && d2 == 0 && d1 == limb && d0 == 0
                    && vstd::arithmetic::power2::pow2((64 * t) as nat) == p64,
                t == 0 ==> d3 == 0 && d2 == 0 && d1 == 0 && d0 == limb
                    && vstd::arithmetic::power2::pow2((64 * t) as nat) == 1,
        ;
    }
    let (q3, r3) = div_step(0, d3, d);
    let (q2, r2) = div_step(r3, d2, d);
    let (q1, r1) = div_step(r2, d1, d);
    let (q0, r0) = div_step(r1, d0, d);
    proof {
        assert(n == ((q3 * p192 + q2 * p128 + q1 * p64 + q0) * d) + r0) by (nonlinear_arith)
            requires
                n == d3 * p192 + d2 * p128 + d1 * p64 + d0,
                d3 == q3 * d + r3,
                r3 * p64 + d2 == q2 * d + r2,
                r2 * p64 + d1 == q1 * d + r1,
                r1 * p64 + d0 == q0 * d + r0,
                p128 == p64 * p64,
                p192 == p64 * p128,
                p64 == 0x1_0000_0000_0000_0000int,
        ;
        vstd::arithmetic::div_mod::lemma_fundamental_div_mod_converse(
            n,
            d as int,
            q3 * p192 + q2 * p128 + q1 * p64 + q0,
            r0 as int,
        );
        assert(n / (d as int) == q3 * p192 + q2 * p128 + q1 * p64 + q0);
    }
    if q3 > 0 {
        let r = Uint192 {
            l0: 0xFFFF_FFFF_FFFF_FFFF,
            l1: 0xFFFF_FFFF_FFFF_FFFF,
            l2: 0xFFFF_FFFF_FFFF_FFFF,
        };
        proof {
            assert(n / (d as int) >= p192) by (nonlinear_arith)
                requires
                    n / (d as int) == q3 * p192 + q2 * p128 + q1 * p64 + q0,
                    q3 >= 1,
                    q2 >= 0 && q1 >= 0 && q0 >= 0,
                    p192 == 0x1_0000_0000_0000_0000_0000_0000_0000_0000_0000_0000_0000_0000int,
                    p128 >= 0 && p64 >= 0,
            ;
        }
        r
    } else {
        let r = Uint192 { l0: q0, l1: q1, l2: q2 };
        proof {
            assert(r.value() == n / (d as int));
            assert(r.value() < p192);
        }
        r
    }
}

/// Computes the work a block contributes from its compact target bits.
pub fn work_from_bits(bits: u32) -> (r: Uint192)
    ensures
        r.value() == spec_work_of(bits),
{
    let exp: u32 = bits >> 24;
    let m: u32 = bits & 0x00FF_FFFF;
    proof {
        assert(exp <= 255 && m < 0x100_0000) by (bit_vector)
            requires
                exp == bits >> 24,
                m == bits & 0x00FF_FFFF,
        ;
    }
    if exp <= 3 || 8 * (exp - 3) >= 232 {
        Uint192 {
            l0: 0xFFFF_FFFF_FFFF_FFFF,
            l1: 0xFFFF_FFFF_FFFF_FFFF,
            l2: 0xFFFF_FFFF_FFFF_FFFF,
        }
    } else {
        let e: u32 = 256 - 8 * (exp - 3);
        pow2_div(e, (m as u64) + 1)
    }
}

/// An owned copy of a hash list.
pub fn copy_hashes(v: &Vec<crate::hashes::Hash>) -> (r: Vec<crate::hashes::Hash>)
    ensures
        r@ == v@,
{
    let mut r: Vec<crate::hashes::Hash> = Vec::new();
    let mut i: usize = 0;
    while i < v.len()
        invariant
            0 <= i <= v@.len(),
            r@ =~= v@.take(i as int),
        decreases v@.len() - i,
    {
        proof {
            assert(v@.take(i + 1int) =~= v@.take(i as int).push(v@[i as int]));
        }
        r.push(v[i]);
        i += 1;
    }
    proof {
        assert(v@.take(v@.len() as int) =~= v@);
    }
    r
}

/// An owned copy of a relations record.
fn clone_relations(rel: &BlockRelations) -> (r: BlockRelations)
    ensures
        r.parents@ == rel.parents@,
        r.children@ == rel.children@,
        r.is_blue == rel.is_blue,
        r.blue_score == rel.blue_score,
        r.blue_work == rel.blue_work,
        r.own_work == rel.own_work,
        r.selected_parent == rel.selected_parent,
        r.merge_set_blues@ == rel.merge_set_blues@,
        r.merge_set_reds@ == rel.merge_set_reds@,
{
    BlockRelations {
        parents: copy_hashes(&rel.parents),
        children: copy_hashes(&rel.children),
        is_blue: rel.is_blue,
        blue_score: rel.blue_score,
        blue_work: rel.blue_work,
        own_work: rel.own_work,
        selected_parent: rel.selected_parent,
        merge_set_blues: copy_hashes(&rel.merge_set_blues),
        merge_set_reds: copy_hashes(&rel.merge_set_reds),
    }
}

impl GhostDag {
    /// Walks backwards from `from` over all parents; true exactly when
    /// `target` is `from` itself or one of its ancestors.
    fn past_reaches(&self, from: &crate::hashes::Hash, target: &crate::hashes::Hash) -> (r: bool)
        ensures
            r == reaches(self.rels(), *from, *target, self.spec_len()),
    {
        let ghost m = self.rels();
        let ghost fuel = self.spec_len();
        if from == target {
            return true;
        }
        proof {
            use_type_invariant(self);
            self.store.relations.lemma_finite_dom();
            lemma_dom_size(&self.store);
        }
        let ghost dom = self.rels().dom();
        let mut queue: Vec<crate::hashes::Hash> = Vec::new();
        queue.push(*from);
        let mut visited = crate::maps::BlockHashSet::new();
        proof {
            assert(queue@[0] == *from);
            assert(queue@.contains(*from));
        }
        while queue.len() > 0
            invariant
                dag_wf(&self.store),
                m == self.rels(),
                fuel == self.spec_len(),
                dom == m.dom(),
                dom.finite(),
                dom.len() == fuel,
                *from != *target,
                visited@.finite(),
                visited@.subset_of(dom),
                visited@.len() <= fuel,
                forall|i: int|
                    0 <= i < queue@.len() ==> reaches(m, *from, #[trigger] queue@[i], fuel),
                forall|v: crate::hashes::Hash| #[trigger] visited@.contains(v) ==> v != *target,
                forall|v: crate::hashes::Hash, q: int|
                    #![trigger visited@.contains(v), m[v].parents@[q]]
                    visited@.contains(v) && m.dom().contains(v) && 0 <= q < m[v].parents@.len()
                        ==> visited@.contains(m[v].parents@[q]) || queue@.contains(
                        m[v].parents@[q],
                    ),
                visited@.contains(*from) || queue@.contains(*from) || !m.dom().contains(*from),
            decreases fuel - visited@.len(), queue@.len(),
        {
            let ghost q0 = queue@;
            let cur = match queue.pop() {
                Some(h) => h,
                None => {
                    proof {
                        assert(false);
                    }
                    *from
                },
            };
            proof {
                assert(q0.last() == cur && queue@ == q0.drop_last());
                assert(q0[q0.len() - 1] == cur);
                assert(reaches(m, *from, cur, fuel));
            }
            if cur == *target {
                return true;
            }
            if !visited.contains(&cur) {
                match self.store.relations.get(&cur) {
                    Some(rel) => {
                        proof {
                            visited.lemma_finite();
                            assert(dom.contains(cur));
                            assert(!visited@.contains(cur));
                            vstd::set_lib::lemma_len_subset(visited@.insert(cur), dom);
                        }
                        let ghost vis0 = visited@;
                        let _ = visited.insert(cur);
                        let mut p: usize = 0;
                        let nparents = rel.parents.len();
                        let ghost pre_queue = queue@;
                        while p < nparents
                            invariant
                                dag_wf(&self.store),
                                m == self.rels(),
                                fuel == self.spec_len(),
                                m.dom().contains(cur),
                                rel == m[cur],
                                nparents == rel.parents@.len(),
                                0 <= p <= nparents,
                                visited@ == vis0.insert(cur),
                                queue@ == pre_queue + rel.parents@.take(p as int),
                            decreases nparents - p,
                        {
                            proof {
                                assert(rel.parents@.take(p + 1int) =~= rel.parents@.take(
                                    p as int,
                                ).push(rel.parents@[p as int]));
                                assert(pre_queue + rel.parents@.take(p + 1int) =~= (pre_queue
                                    + rel.parents@.take(p as int)).push(rel.parents@[p as int]));
                            }
                            queue.push(rel.parents[p]);
                            p += 1;
                        }
                        proof {
                            assert(rel.parents@.take(nparents as int) =~= rel.parents@);
                            assert(queue@ == pre_queue + rel.parents@);
                            assert forall|i: int| 0 <= i < queue@.len() implies reaches(
                                m,
                                *from,
                                #[trigger] queue@[i],
                                fuel,
                            ) by {
                                if i < pre_queue.len() {
                                    assert(queue@[i] == q0[i]);
                                } else {
                                    let q = i - pre_queue.len();
                                    assert(queue@[i] == m[cur].parents@[q]);
                                    lemma_reaches_edge(m, *from, cur, q, fuel);
                                    lemma_reaches_bound(
                                        &self.store,
                                        *from,
                                        m[cur].parents@[q],
                                        (fuel + 1) as nat,
                                    );
                                }
                            }
                            assert forall|v: crate::hashes::Hash, q: int|
                                #![trigger visited@.contains(v), m[v].parents@[q]]
                                visited@.contains(v) && m.dom().contains(v) && 0 <= q < m[
                                v].parents@.len() implies visited@.contains(m[v].parents@[q])
                                || queue@.contains(m[v].parents@[q]) by {
                                let x = m[v].parents@[q];
                                if v == cur {
                                    assert(queue@[pre_queue.len() + q] == x);
                                } else {
                                    assert(vis0.contains(v));
                                    if !vis0.contains(x) {
                                        assert(q0.contains(x));
                                        if x == cur {
                                            assert(visited@.contains(x));
                                        } else {
                                            let w = choose|w: int|
                                                0 <= w < q0.len() && q0[w] == x;
                                            assert(w < q0.len() - 1);
                                            assert(pre_queue[w] == x);
                                            assert(queue@[w] == x);
                                        }
                                    }
                                }
                            }
                            assert(visited@.contains(*from) || queue@.contains(*from)
                                || !m.dom().contains(*from)) by {
                                if !vis0.contains(*from) && !m.dom().contains(*from) {
                                } else if vis0.contains(*from) {
                                } else if *from == cur {
                                } else if q0.contains(*from) {
                                    let w = choose|w: int|
                                        0 <= w < q0.len() && q0[w] == *from;
                                    if w < q0.len() - 1 {
                                        assert(queue@[w] == pre_queue[w]);
                                    } else {
                                        assert(false);
                                    }
                                }
                            }
                        }
                    },
                    None => {
                        proof {
                            assert forall|v: crate::hashes::Hash, q: int|
                                #![trigger visited@.contains(v), m[v].parents@[q]]
                                visited@.contains(v) && m.dom().contains(v) && 0 <= q < m[
                                v].parents@.len() implies visited@.contains(m[v].parents@[q])
                                || queue@.contains(m[v].parents@[q]) by {
                                let x = m[v].parents@[q];
                                if !visited@.contains(x) {
                                    assert(q0.contains(x));
                                    assert(x != cur) by {
                                        let i = order_index(self.store.order@, v);
                                        assert(in_prefix(
                                            self.store.order@,
                                            v,
                                            self.store.order@.len() as int,
                                        ));
                                        let wv = choose|j: int|
                                            0 <= j < self.store.order@.len()
                                                && self.store.order@[j] == v;
                                        assert(self.store.order@[i] == v);
                                        assert(rel_wf(&self.store, i));
                                        assert(in_prefix(self.store.order@, x, i));
                                        let wj = choose|j: int|
                                            0 <= j < i && self.store.order@[j] == x;
                                        assert(in_prefix(
                                            self.store.order@,
                                            x,
                                            self.store.order@.len() as int,
                                        ));
                                        assert(m.dom().contains(x));
                                    }
                                    let w = choose|w: int| 0 <= w < q0.len() && q0[w] == x;
                                    assert(w < q0.len() - 1);
                                    assert(queue@[w] == x);
                                }
                            }
                            assert(visited@.contains(*from) || queue@.contains(*from)
                                || !m.dom().contains(*from)) by {
                                if !visited@.contains(*from) && q0.contains(*from) {
                                    if *from == cur {
                                        assert(!m.dom().contains(*from));
                                    } else {
                                        let w = choose|w: int|
                                            0 <= w < q0.len() && q0[w] == *from;
                                        assert(w < q0.len() - 1);
                                        assert(queue@[w] == *from);
                                    }
                                }
                            }
                        }
                    },
                }
            } else {
                proof {
                    assert forall|v: crate::hashes::Hash, q: int|
                        #![trigger visited@.contains(v), m[v].parents@[q]]
                        visited@.contains(v) && m.dom().contains(v) && 0 <= q < m[
                        v].parents@.len() implies visited@.contains(m[v].parents@[q])
                        || queue@.contains(m[v].parents@[q]) by {
                        let x = m[v].parents@[q];
                        if !visited@.contains(x) {
                            assert(q0.contains(x));
                            if x == cur {
                                assert(visited@.contains(x));
                            } else {
                                let w = choose|w: int| 0 <= w < q0.len() && q0[w] == x;
                                assert(w < q0.len() - 1);
                                assert(queue@[w] == x);
                            }
                        }
                    }
                    assert(visited@.contains(*from) || queue@.contains(*from)
                        || !m.dom().contains(*from)) by {
                        if !visited@.contains(*from) && q0.contains(*from) {
                            if *from == cur {
                                assert(visited@.contains(*from));
                            } else {
                                let w = choose|w: int| 0 <= w < q0.len() && q0[w] == *from;
                                assert(w < q0.len() - 1);
                                assert(queue@[w] == *from);
                            }
                        }
                    }
                }
            }
        }
        proof {
            if reaches(m, *from, *target, fuel) {
                assert(m.dom().contains(*from));
                assert(visited@.contains(*from));
                lemma_reaches_closed(m, visited@, *from, *target, fuel);
                assert(false);
            }
        }
        false
    }
}


/// In a well-formed store the relations domain counts the order exactly.
proof fn lemma_dom_size(d: &DagStore)
    requires
        dag_wf(d),
    ensures
        d.relations@.dom().finite(),
        d.relations@.dom().len() == d.order@.len(),
{
    d.relations.lemma_finite_dom();
    broadcast use vstd::seq_lib::seq_to_set_is_finite;

    assert(d.relations@.dom() =~= d.order@.to_set()) by {
        assert forall|h: crate::hashes::Hash| d.relations@.dom().contains(h) == d.order@.to_set()
            .contains(h) by {
            if d.relations@.dom().contains(h) {
                assert(in_prefix(d.order@, h, d.order@.len() as int));
                let j = choose|j: int| 0 <= j < d.order@.len() && d.order@[j] == h;
                assert(d.order@.contains(h));
            }
            if d.order@.to_set().contains(h) {
                let j = choose|j: int| 0 <= j < d.order@.len() && d.order@[j] == h;
                assert(in_prefix(d.order@, h, d.order@.len() as int));
            }
        }
    }
    d.order@.unique_seq_to_set();
}


/// Clamped 192-bit addition at the spec level.
pub open spec fn sat_add_int(a: int, b: int) -> int {
    if a + b < base192() {
        a + b
    } else {
        base192() - 1
    }
}

/// The accumulated work of a base and the own work of each listed blue,
/// clamped at each step.
pub open spec fn work_fold(
    m: Map<crate::hashes::Hash, BlockRelations>,
    base: int,
    blues: Seq<crate::hashes::Hash>,
) -> int
    decreases blues.len(),
{
    if blues.len() == 0 {
        base
    } else {
        work_fold(m, sat_add_int(base, m[blues.first()].own_work.value()), blues.drop_first())
    }
}

/// `work_fold` peels from the back.
proof fn lemma_work_fold_snoc(
    m: Map<crate::hashes::Hash, BlockRelations>,
    base: int,
    blues: Seq<crate::hashes::Hash>,
)
    requires
        blues.len() > 0,
    ensures
        work_fold(m, base, blues) == sat_add_int(
            work_fold(m, base, blues.drop_last()),
            m[blues.last()].own_work.value(),
        ),
    decreases blues.len(),
{
    if blues.len() == 1 {
        assert(blues.drop_last() =~= Seq::<crate::hashes::Hash>::empty());
        assert(blues.drop_first() =~= Seq::<crate::hashes::Hash>::empty());
        assert(blues.last() == blues.first());
        let base1 = sat_add_int(base, m[blues.first()].own_work.value());
        assert(work_fold(m, base, blues) == work_fold(m, base1, blues.drop_first()));
        assert(work_fold(m, base1, blues.drop_first()) == base1);
        assert(work_fold(m, base, blues.drop_last()) == base);
    } else {
        let base1 = sat_add_int(base, m[blues.first()].own_work.value());
        lemma_work_fold_snoc(m, base1, blues.drop_first());
        assert(blues.drop_first().drop_last() =~= blues.drop_last().drop_first());
        assert(blues.drop_first().last() == blues.last());
        assert(blues.drop_last().first() == blues.first());
        assert(work_fold(m, base, blues) == work_fold(m, base1, blues.drop_first()));
        assert(work_fold(m, base, blues.drop_last()) == work_fold(
            m,
            base1,
            blues.drop_last().drop_first(),
        )) by {
            assert(blues.drop_last().len() > 0);
            assert(sat_add_int(base, m[blues.drop_last().first()].own_work.value()) == base1);
        }
        assert(work_fold(m, base1, blues.drop_last().drop_first()) == work_fold(
            m,
            base1,
            blues.drop_first().drop_last(),
        ));
        assert(work_fold(m, base1, blues.drop_first()) == sat_add_int(
            work_fold(m, base1, blues.drop_first().drop_last()),
            m[blues.drop_first().last()].own_work.value(),
        ));
        assert(work_fold(m, base, blues) == work_fold(m, base1, blues.drop_first()));
    }
}

/// Topological candidate order: lower blue score first, ties by the
/// numerically smaller hash (the 256-bit value, as in `preferred`).
pub open spec fn candidate_le(
    m: Map<crate::hashes::Hash, BlockRelations>,
    a: crate::hashes::Hash,
    b: crate::hashes::Hash,
) -> bool {
    ||| m[a].blue_score < m[b].blue_score
    ||| (m[a].blue_score == m[b].blue_score && a.value() <= b.value())
}

/// One parent is at least as preferred as another: higher blue score,
/// then higher blue work, then the numerically smaller hash — the hash
/// order is the 256-bit value, the lexicographic order of the displayed
/// reversed-byte hex form.
pub open spec fn preferred(
    m: Map<crate::hashes::Hash, BlockRelations>,
    a: crate::hashes::Hash,
    b: crate::hashes::Hash,
) -> bool {
    ||| m[b].blue_score > m[a].blue_score
    ||| (m[b].blue_score == m[a].blue_score && m[b].blue_work.value() > m[a].blue_work.value())
    ||| (m[b].blue_score == m[a].blue_score && m[b].blue_work.value() == m[a].blue_work.value()
        && (b.value() < a.value() || a == b))
}

impl GhostDag {
    /// Commits a new block: inserts its relations and blue score, records
    /// it in the order, and appends it to each parent's children.
    fn commit(
        &mut self,
        bh: crate::hashes::Hash,
        rel: BlockRelations,
        parents: &Vec<crate::hashes::Hash>,
    )
        requires
            !old(self).rels().dom().contains(bh),
            forall|i: int|
                0 <= i < parents@.len() ==> old(self).rels().dom().contains(#[trigger] parents@[i]),
            forall|a: int, b: int| 0 <= a < b < parents@.len() ==> parents@[a] != parents@[b],
            forall|i: int|
                0 <= i < rel.parents@.len() ==> old(self).rels().dom().contains(
                    #[trigger] rel.parents@[i],
                ),
            rel.selected_parent is Some ==> old(self).rels().dom().contains(
                rel.selected_parent->0,
            ),
            rel.children@.len() == 0,
        ensures
            final(self).spec_k() == old(self).spec_k(),
            final(self).spec_len() == old(self).spec_len() + 1,
            final(self).rels().dom() == old(self).rels().dom().insert(bh),
            final(self).rels()[bh] == rel,
            final(self).scores() == old(self).scores().insert(bh, rel.blue_score),
            forall|h: crate::hashes::Hash|
                old(self).rels().dom().contains(h) && !parents@.contains(h) ==> final(self).rels()[
                    h] == old(self).rels()[h],
            forall|h: crate::hashes::Hash|
                #![trigger parents@.contains(h)]
                old(self).rels().dom().contains(h) && parents@.contains(h) ==> final(self).rels()[
                    h].children@ == old(self).rels()[h].children@.push(bh) && final(self).rels()[
                    h].parents@ == old(self).rels()[h].parents@
                    && final(self).rels()[h].selected_parent == old(self).rels()[
                    h].selected_parent && final(self).rels()[h].blue_score == old(self).rels()[
                    h].blue_score && final(self).rels()[h].blue_work == old(self).rels()[
                    h].blue_work && final(self).rels()[h].own_work == old(self).rels()[
                    h].own_work,
    {
        proof {
            use_type_invariant(&*self);
        }
        let ghost old_rels = self.rels();
        let ghost old_scores = self.scores();
        let ghost old_order = self.store.order@;
        let ghost old_k = self.store.k;
        let k = self.store.k;
        let mut store = DagStore {
            k,
            relations: BlockHashMap::new(),
            blue_scores: BlockHashMap::new(),
            order: Vec::new(),
        };
        proof {
            assert(dag_wf(&store));
        }
        core::mem::swap(&mut store, &mut self.store);
        let ghost rel_snapshot = rel;
        let score = rel.blue_score;
        store.relations.insert(bh, rel);
        let mut p: usize = 0;
        while p < parents.len()
            invariant
                0 <= p <= parents@.len(),
                store.order@ == old_order,
                store.blue_scores@ == old_scores,
                store.k == old_k,
                forall|i: int|
                    0 <= i < parents@.len() ==> old_rels.dom().contains(#[trigger] parents@[i]),
                forall|a: int, b: int| 0 <= a < b < parents@.len() ==> parents@[a] != parents@[b],
                !old_rels.dom().contains(bh),
                store.relations@.dom() =~= old_rels.dom().insert(bh),
                store.relations@[bh] == rel_snapshot,
                forall|h: crate::hashes::Hash|
                    old_rels.dom().contains(h) && !parents@.take(p as int).contains(h)
                        ==> store.relations@[h] == old_rels[h],
                forall|h: crate::hashes::Hash|
                    #![trigger parents@.take(p as int).contains(h)]
                    old_rels.dom().contains(h) && parents@.take(p as int).contains(h)
                        ==> store.relations@[h].children@ == old_rels[h].children@.push(bh)
                        && store.relations@[h].parents@ == old_rels[h].parents@
                        && store.relations@[h].selected_parent == old_rels[h].selected_parent
                        && store.relations@[h].blue_score == old_rels[h].blue_score
                        && store.relations@[h].blue_work == old_rels[h].blue_work
                        && store.relations@[h].own_work == old_rels[h].own_work,
            decreases parents@.len() - p,
        {
            let parent = parents[p];
            proof {
                assert(!parents@.take(p as int).contains(parent)) by {
                    if parents@.take(p as int).contains(parent) {
                        let q = choose|q: int|
                            0 <= q < p && parents@.take(p as int)[q] == parent;
                        assert(parents@[q] == parents@[p as int]);
                    }
                }
                assert(parent != bh);
            }
            let updated = match store.relations.get(&parent) {
                Some(prel) => {
                    let mut updated = clone_relations(prel);
                    updated.children.push(bh);
                    updated
                },
                None => {
                    proof {
                        assert(store.relations@.dom().contains(parent));
                        assert(false);
                    }
                    BlockRelations {
                        parents: Vec::new(),
                        children: Vec::new(),
                        is_blue: false,
                        blue_score: 0,
                        blue_work: Uint192::from_u64(0),
                        own_work: Uint192::from_u64(0),
                        selected_parent: None,
                        merge_set_blues: Vec::new(),
                        merge_set_reds: Vec::new(),
                    }
                },
            };
            store.relations.insert(parent, updated);
            proof {
                let t1 = parents@.take(p + 1int);
                let t0 = parents@.take(p as int);
                assert(t1 =~= t0.push(parent));
                assert forall|h: crate::hashes::Hash| #![trigger t1.contains(h)]
                    old_rels.dom().contains(h) && t1.contains(h) implies store.relations@[
                    h].children@ == old_rels[h].children@.push(bh) && store.relations@[h].parents@
                    == old_rels[h].parents@ && store.relations@[h].selected_parent == old_rels[
                    h].selected_parent && store.relations@[h].blue_score == old_rels[h].blue_score
                    && store.relations@[h].blue_work == old_rels[h].blue_work && store.relations@[
                    h].own_work == old_rels[h].own_work by {
                    if h != parent {
                        let q = choose|q: int| 0 <= q < t1.len() && t1[q] == h;
                        assert(q < p);
                        assert(t0[q] == h);
                        assert(t0.contains(h));
                    }
                }
                assert forall|h: crate::hashes::Hash|
                    old_rels.dom().contains(h) && !t1.contains(h) implies store.relations@[h]
                    == old_rels[h] by {
                    if t0.contains(h) {
                        let q = choose|q: int| 0 <= q < t0.len() && t0[q] == h;
                        assert(t1[q] == h);
                    }
                    assert(h != parent) by {
                        if h == parent {
                            assert(t1[p as int] == h);
                        }
                    }
                }
                assert(store.relations@.dom() =~= old_rels.dom().insert(bh));
            }
            p += 1;
        }
        proof {
            assert(parents@.take(parents@.len() as int) =~= parents@);
        }
        store.blue_scores.insert(bh, score);
        store.order.push(bh);
        proof {
            let n = old_order.len() as int;
            assert(store.order@ == old_order.push(bh));
            assert(forall|j: int| 0 <= j < n ==> old_order[j] != bh) by {
                assert(!in_prefix(old_order, bh, n));
            }
            assert forall|a: int, b: int| 0 <= a < b < store.order@.len() implies store.order@[a]
                != store.order@[b] by {
                if b < n {
                    assert(store.order@[a] == old_order[a] && store.order@[b] == old_order[b]);
                } else {
                    assert(store.order@[b] == bh && store.order@[a] == old_order[a]);
                }
            }
            assert forall|h: crate::hashes::Hash| #[trigger] store.relations@.dom().contains(h)
                <==> in_prefix(store.order@, h, store.order@.len() as int) by {
                if store.relations@.dom().contains(h) {
                    if h == bh {
                        assert(store.order@[n] == h);
                    } else {
                        assert(old_rels.dom().contains(h));
                        assert(in_prefix(old_order, h, n));
                        let j = choose|j: int| 0 <= j < n && old_order[j] == h;
                        assert(store.order@[j] == h);
                    }
                }
                if in_prefix(store.order@, h, store.order@.len() as int) {
                    let j = choose|j: int|
                        0 <= j < store.order@.len() && store.order@[j] == h;
                    if j < n {
                        assert(old_order[j] == h);
                        assert(in_prefix(old_order, h, n));
                        assert(old_rels.dom().contains(h));
                    } else {
                        assert(h == bh);
                    }
                }
            }
            assert forall|i: int| 0 <= i < store.order@.len() implies rel_wf(&store, i) by {
                if i < n {
                    let h = old_order[i];
                    assert(store.order@[i] == h);
                    assert(in_prefix(old_order, h, n)) by {
                        assert(old_order[i] == h);
                    }
                    assert(old_rels.dom().contains(h));
                    assert(store.relations@.dom().contains(h));
                    assert(store.relations@[h].parents@ == old_rels[h].parents@
                        && store.relations@[h].selected_parent == old_rels[h].selected_parent) by {
                        if parents@.contains(h) {
                        } else {
                            assert(store.relations@[h] == old_rels[h]);
                        }
                    }
                    assert(rel_wf(&old(self).store, i));
                    assert(old(self).store.order@ == old_order);
                    assert(old(self).store.relations@ == old_rels);
                    assert(old_rels[h].parents@ == old(self).store.relations@[old(
                        self,
                    ).store.order@[i]].parents@);
                    assert forall|q: int| 0 <= q < store.relations@[store.order@[i]].parents@.len()
                        implies in_prefix(
                        store.order@,
                        #[trigger] store.relations@[store.order@[i]].parents@[q],
                        i,
                    ) by {
                        let pq = store.relations@[store.order@[i]].parents@[q];
                        assert(in_prefix(old_order, pq, i));
                        let j = choose|j: int| 0 <= j < i && old_order[j] == pq;
                        assert(store.order@[j] == pq);
                    }
                    if store.relations@[store.order@[i]].selected_parent is Some {
                        let sp = store.relations@[store.order@[i]].selected_parent->0;
                        assert(in_prefix(old_order, sp, i));
                        let j = choose|j: int| 0 <= j < i && old_order[j] == sp;
                        assert(store.order@[j] == sp);
                    }
                } else {
                    assert(store.order@[i] == bh);
                    assert(store.relations@[bh] == rel_snapshot);
                    assert forall|q: int| 0 <= q < store.relations@[store.order@[i]].parents@.len()
                        implies in_prefix(
                        store.order@,
                        #[trigger] store.relations@[store.order@[i]].parents@[q],
                        i,
                    ) by {
                        let pq = store.relations@[store.order@[i]].parents@[q];
                        assert(old_rels.dom().contains(pq));
                        assert(in_prefix(old_order, pq, n));
                        let j = choose|j: int| 0 <= j < n && old_order[j] == pq;
                        assert(store.order@[j] == pq);
                    }
                    if store.relations@[store.order@[i]].selected_parent is Some {
                        let sp = store.relations@[store.order@[i]].selected_parent->0;
                        assert(old_rels.dom().contains(sp));
                        assert(in_prefix(old_order, sp, n));
                        let j = choose|j: int| 0 <= j < n && old_order[j] == sp;
                        assert(store.order@[j] == sp);
                    }
                }
            }
            assert(store.blue_scores@.dom() =~= store.relations@.dom()) by {
                assert(old_scores.dom() == old_rels.dom());
            }
            assert forall|h: crate::hashes::Hash| #[trigger] store.relations@.dom().contains(h)
                implies store.blue_scores@[h] == store.relations@[h].blue_score by {
                if h == bh {
                } else {
                    assert(old_rels.dom().contains(h));
                    assert(store.blue_scores@[h] == old_scores[h]);
                    assert(old_scores[h] == old_rels[h].blue_score);
                    if parents@.contains(h) {
                        assert(store.relations@[h].blue_score == old_rels[h].blue_score);
                    } else {
                        assert(store.relations@[h] == old_rels[h]);
                    }
                }
            }
            assert(store.order@.last() == bh);
            assert(store.relations@[bh].children@.len() == 0);
            assert(dag_wf(&store));
        }
        core::mem::swap(&mut store, &mut self.store);
    }
}




/// The hash stands somewhere in the stratified parent levels.
pub open spec fn from_levels(
    levels: Seq<Vec<crate::hashes::Hash>>,
    h: crate::hashes::Hash,
) -> bool {
    exists|i: int, j: int|
        0 <= i < levels.len() && 0 <= j < levels[i]@.len() && (#[trigger] levels[i]@[j]) == h
}

/// In a well-formed store, every parent of a stored block is stored.
proof fn lemma_parents_in_dom(d: &DagStore, h: crate::hashes::Hash)
    requires
        dag_wf(d),
        d.relations@.dom().contains(h),
    ensures
        forall|q: int|
            0 <= q < d.relations@[h].parents@.len() ==> d.relations@.dom().contains(
                #[trigger] d.relations@[h].parents@[q],
            ),
{
    assert(in_prefix(d.order@, h, d.order@.len() as int));
    let i = choose|j: int| 0 <= j < d.order@.len() && d.order@[j] == h;
    assert(d.order@[i] == h);
    assert(rel_wf(d, i));
    assert forall|q: int| 0 <= q < d.relations@[h].parents@.len() implies d.relations@
        .dom().contains(#[trigger] d.relations@[h].parents@[q]) by {
        assert(in_prefix(d.order@, d.relations@[h].parents@[q], i));
        let j = choose|j: int| 0 <= j < i && d.order@[j] == d.relations@[h].parents@[q];
        assert(in_prefix(d.order@, d.relations@[h].parents@[q], d.order@.len() as int));
    }
}


/// Everything a successful insertion guarantees about the returned verdict
/// and the committed state, over the engine's relations before (`m`) and
/// after (`rels1`) the call. Kept opaque so each caller reveals it where
/// needed.
#[verifier::opaque]
pub open spec fn add_block_post(
    m: Map<crate::hashes::Hash, BlockRelations>,
    scores0: Map<crate::hashes::Hash, u64>,
    k: KType,
    fuel: nat,
    header: crate::header::Header,
    data: GhostDagData,
    rels1: Map<crate::hashes::Hash, BlockRelations>,
    scores1: Map<crate::hashes::Hash, u64>,
) -> bool {
    let genesis = header.spec_is_genesis();
        &&& (genesis ==> data.selected_parent == crate::hashes::Hash::zero()
            && data.blue_score == 0 && data.merge_set_blues@.len() == 0
            && data.merge_set_reds@.len() == 0)
        &&& (!genesis ==> header.parents_level0().contains(data.selected_parent)
            && m.dom().contains(data.selected_parent) && data.blue_score == m[
            data.selected_parent].blue_score + data.merge_set_blues@.len() + 1)
        &&& (!genesis ==> forall|i: int|
            0 <= i < header.parents_level0().len() ==> preferred(
                m,
                #[trigger] header.parents_level0()[i],
                data.selected_parent,
            ))
        &&& (!genesis ==> forall|i: int, j: int|
            0 <= i < header.parents_by_level@.len() && 0 <= j
                < header.parents_by_level@[i]@.len() ==> m.dom().contains(
                #[trigger] header.parents_by_level@[i]@[j],
            ))
        &&& data.blues_anticone_sizes@.len() == data.merge_set_blues@.len()
        &&& (forall|i: int|
            0 <= i < data.blues_anticone_sizes@.len()
                ==> (#[trigger] data.blues_anticone_sizes@[i]).0 == data.merge_set_blues@[i]
                && data.blues_anticone_sizes@[i].1 <= k)
        &&& (forall|i: int, j: int|
            0 <= i < data.merge_set_blues@.len() && 0 <= j < data.merge_set_reds@.len()
                ==> data.merge_set_blues@[i] != data.merge_set_reds@[j])
        &&& (forall|a: int, b: int|
            0 <= a < b < data.merge_set_reds@.len() ==> data.merge_set_reds@[a]
                != data.merge_set_reds@[b])
        &&& (!genesis ==> forall|a: int, b: int|
            0 <= a < b < data.merge_set_blues@.len() ==> candidate_le(
                m,
                #[trigger] data.merge_set_blues@[a],
                #[trigger] data.merge_set_blues@[b],
            ))
        &&& (!genesis ==> forall|a: int, b: int|
            0 <= a < b < data.merge_set_reds@.len() ==> candidate_le(
                m,
                #[trigger] data.merge_set_reds@[a],
                #[trigger] data.merge_set_reds@[b],
            ))
        &&& (!genesis ==> forall|h: crate::hashes::Hash|
            #![trigger data.merge_set_blues@.contains(h)]
            #![trigger data.merge_set_reds@.contains(h)]
            #![trigger in_merge_set(m, header.parents_by_level@, data.selected_parent, h, fuel)]
            (data.merge_set_blues@.contains(h) || data.merge_set_reds@.contains(h))
                <==> in_merge_set(
                m,
                header.parents_by_level@,
                data.selected_parent,
                h,
                fuel,
            ))
        &&& (!genesis ==> forall|i: int|
            0 <= i < data.blues_anticone_sizes@.len()
                ==> (#[trigger] data.blues_anticone_sizes@[i]).1 == parallel_count(
                m,
                data.selected_parent,
                data.merge_set_blues@,
                data.merge_set_blues@[i],
                fuel,
            ))
        &&& (!genesis ==> forall|i: int|
            0 <= i < data.merge_set_reds@.len() ==> parallel_count(
                m,
                data.selected_parent,
                data.merge_set_blues@,
                #[trigger] data.merge_set_reds@[i],
                fuel,
            ) > k || (exists|j: int|
                0 <= j < data.merge_set_blues@.len() && anticone_rel(
                    m,
                    #[trigger] data.merge_set_blues@[j],
                    data.merge_set_reds@[i],
                    fuel,
                ) && data.blues_anticone_sizes@[j].1 >= k))
        &&& (forall|i: int, j: int|
            0 <= i < j < data.merge_set_blues@.len() ==> data.merge_set_blues@[i]
                != data.merge_set_blues@[j])
        &&& (forall|i: int|
            0 <= i < data.merge_set_blues@.len() ==> m.dom().contains(
                #[trigger] data.merge_set_blues@[i],
            ) && data.merge_set_blues@[i] != data.selected_parent)
        &&& data.blue_work.value() == sat_add_int(
            work_fold(
                m,
                if genesis {
                    0
                } else {
                    m[data.selected_parent].blue_work.value()
                },
                data.merge_set_blues@,
            ),
            spec_work_of(header.bits),
        )
        &&& (exists|bh: crate::hashes::Hash|
            #![trigger bh.bytes()]
            bh.bytes() == crate::hashing::sha256_of(
                crate::header::header_bytes_with_nonce(
                    header,
                    header.nonce,
                ),
            ) && !m.dom().contains(bh) && rels1.dom() == m.dom().insert(bh)
                && scores1 == scores0.insert(bh, data.blue_score)
                && ({
                let rel = rels1[bh];
                &&& rel.children@.len() == 0
                &&& rel.blue_score == data.blue_score
                &&& rel.blue_work == data.blue_work
                &&& rel.own_work.value() == spec_work_of(header.bits)
                &&& rel.selected_parent == (if genesis {
                    Option::<crate::hashes::Hash>::None
                } else {
                    Some(data.selected_parent)
                })
                &&& rel.merge_set_blues@ == data.merge_set_blues@
                &&& rel.merge_set_reds@ == data.merge_set_reds@
                &&& (forall|a: int, b: int|
                    0 <= a < b < rel.parents@.len() ==> rel.parents@[a] != rel.parents@[b])
                &&& (forall|p: crate::hashes::Hash|
                    #[trigger] rel.parents@.contains(p) <==> from_levels(
                        header.parents_by_level@,
                        p,
                    ))
            }) && (forall|h: crate::hashes::Hash|
                #![trigger m.dom().contains(h)]
                m.dom().contains(h) ==> (if rels1[bh].parents@.contains(h) {
                    rels1[h].children@ == m[h].children@.push(bh)
                        && rels1[h].parents@ == m[h].parents@
                        && rels1[h].selected_parent == m[h].selected_parent
                        && rels1[h].blue_score == m[h].blue_score
                        && rels1[h].blue_work == m[h].blue_work
                        && rels1[h].own_work == m[h].own_work
                } else {
                    rels1[h] == m[h]
                })))

}

impl GhostDag {
    /// Ingests a block: selects its parent, computes its merge set and the
    /// blue/red classification under the k-cluster rule, assembles its
    /// verdict, and commits the relations.
    ///
    /// On success, `add_block_post` holds: the selected parent is a
    /// level-0 parent (the all-zero hash for genesis) and is the most
    /// preferred one; the blue score is the selected parent's plus the
    /// blues plus one (zero for genesis); the blues and reds together are
    /// exactly the merge set (ancestors of the block outside the selected
    /// parent's past); each blue's recorded anticone size is its exact
    /// anticone count within the selected parent and the blues, at most k;
    /// each red would break that bound; the blue work accumulates the
    /// blues' own works over the selected parent's, clamped into 192 bits;
    /// and the engine gained exactly this block's relations entry, with
    /// the block appended to each parent's children and its score
    /// recorded.
    #[verifier::rlimit(100)]
    pub fn add_block(&mut self, block: &Block) -> (r: ConsensusResult<GhostDagData>)
        requires
            block.header.counts_fit(),
        ensures
            final(self).spec_k() == old(self).spec_k(),
            r is Err ==> final(self).rels() == old(self).rels() && final(self).scores() == old(
                self,
            ).scores() && final(self).spec_len() == old(self).spec_len(),
            r is Err ==> (r->Err_0 is NoValidParent || r->Err_0 is Generic),
            r matches Err(ConsensusError::NoValidParent) ==> !block.header.spec_is_genesis() && ((
            exists|i: int, j: int|
                0 <= i < block.header.parents_by_level@.len() && 0 <= j
                    < block.header.parents_by_level@[i]@.len() && !old(self).rels().dom().contains(
                    #[trigger] block.header.parents_by_level@[i]@[j],
                )) || block.header.parents_level0().len() == 0),
            r matches Err(ConsensusError::Generic { .. }) ==> ((exists|bh: crate::hashes::Hash|
                bh.bytes() == crate::hashing::sha256_of(
                    #[trigger] crate::header::header_bytes_with_nonce(
                        block.header,
                        block.header.nonce,
                    ),
                ) && old(self).rels().dom().contains(bh)) || (exists|h: crate::hashes::Hash|
                #[trigger] old(self).rels().dom().contains(h) && old(self).rels()[h].blue_score
                    + old(self).spec_len() + 1 > u64::MAX)),
            r is Ok ==> final(self).spec_len() == old(self).spec_len() + 1,
            r is Ok && block.header.spec_is_genesis() ==> r->Ok_0.selected_parent
                == crate::hashes::Hash::zero() && r->Ok_0.blue_score == 0,
            r is Ok && !block.header.spec_is_genesis()
                ==> block.header.parents_level0().contains(r->Ok_0.selected_parent) && old(
                self,
            ).rels().dom().contains(r->Ok_0.selected_parent) && r->Ok_0.blue_score == old(
                self,
            ).rels()[r->Ok_0.selected_parent].blue_score + r->Ok_0.merge_set_blues@.len() + 1,
            r is Ok ==> forall|i: int|
                0 <= i < r->Ok_0.blues_anticone_sizes@.len()
                    ==> (#[trigger] r->Ok_0.blues_anticone_sizes@[i]).1 <= old(self).spec_k(),
            r is Ok ==> add_block_post(
                old(self).rels(),
                old(self).scores(),
                old(self).spec_k(),
                old(self).spec_len(),
                block.header,
                r->Ok_0,
                final(self).rels(),
                final(self).scores(),
            ),
    {
        proof {
            use_type_invariant(&*self);
        }
        let ghost m = self.rels();
        let ghost scores0 = self.scores();
        let ghost k0 = self.spec_k();
        let ghost fuel0 = self.spec_len();
        let bh = block.hash();
        if self.store.relations.get(&bh).is_some() {
            proof {
                assert(self.rels().dom().contains(bh));
            }
            return Err(
                ConsensusError::Generic { msg: "block already known to the engine".to_owned() },
            );
        }
        // Gather the distinct parents across all levels.
        let ghost levels = block.header.parents_by_level@;
        let mut all_parents: Vec<crate::hashes::Hash> = Vec::new();
        let mut li: usize = 0;
        while li < block.header.parents_by_level.len()
            invariant
                self == old(self),
                levels == block.header.parents_by_level@,
                0 <= li <= levels.len(),
                forall|a: int, b: int|
                    0 <= a < b < all_parents@.len() ==> all_parents@[a] != all_parents@[b],
                forall|q: int|
                    0 <= q < all_parents@.len() ==> from_levels(levels, #[trigger] all_parents@[q]),
                forall|i: int, j: int|
                    0 <= i < li && 0 <= j < levels[i]@.len() ==> all_parents@.contains(
                        #[trigger] levels[i]@[j],
                    ),
            decreases levels.len() - li,
        {
            let level = &block.header.parents_by_level[li];
            let mut lj: usize = 0;
            while lj < level.len()
                invariant
                    self == old(self),
                    levels == block.header.parents_by_level@,
                    0 <= lj <= level@.len(),
                    0 <= li < levels.len(),
                    level == block.header.parents_by_level@[li as int],
                    forall|a: int, b: int|
                        0 <= a < b < all_parents@.len() ==> all_parents@[a] != all_parents@[b],
                    forall|q: int|
                        0 <= q < all_parents@.len() ==> from_levels(
                            levels,
                            #[trigger] all_parents@[q],
                        ),
                    forall|i: int, j: int|
                        0 <= i < li && 0 <= j < levels[i]@.len() ==> all_parents@.contains(
                            #[trigger] levels[i]@[j],
                        ),
                    forall|j: int| 0 <= j < lj ==> all_parents@.contains(#[trigger] level@[j]),
                decreases level@.len() - lj,
            {
                let parent = level[lj];
                let mut seen = false;
                let mut q: usize = 0;
                while q < all_parents.len() && !seen
                    invariant
                        0 <= q <= all_parents@.len(),
                        seen ==> all_parents@.contains(parent),
                        !seen ==> forall|b: int| 0 <= b < q ==> all_parents@[b] != parent,
                    decreases all_parents@.len() - q + (if seen { 0int } else { 1int }),
                {
                    if all_parents[q] == parent {
                        proof {
                            assert(all_parents@[q as int] == parent);
                        }
                        seen = true;
                    }
                    q += 1;
                }
                if !seen {
                    let ghost ap0 = all_parents@;
                    all_parents.push(parent);
                    proof {
                        assert(all_parents@.last() == parent);
                        assert forall|x: crate::hashes::Hash| ap0.contains(x)
                            implies all_parents@.contains(x) by {
                            let w = choose|w: int| 0 <= w < ap0.len() && ap0[w] == x;
                            assert(all_parents@[w] == x);
                        }
                        assert(from_levels(levels, parent)) by {
                            assert((levels[li as int]@[lj as int]) == parent);
                        }
                    }
                }
                proof {
                    assert(all_parents@.contains(parent));
                }
                lj += 1;
            }
            proof {
                assert forall|i: int, j: int|
                    0 <= i < li + 1 && 0 <= j < levels[i]@.len() implies all_parents@.contains(
                    #[trigger] levels[i]@[j],
                ) by {
                    if i == li {
                        assert(level@[j] == levels[i]@[j]);
                        assert(all_parents@.contains(level@[j]));
                    }
                }
            }
            li += 1;
        }
        // Genesis: no parents at any level.
        if all_parents.len() == 0 {
            proof {
                assert(block.header.spec_is_genesis()) by {
                    assert forall|i: int|
                        0 <= i < block.header.parents_by_level@.len()
                            implies block.header.parents_by_level@[i]@.len() == 0 by {
                        if block.header.parents_by_level@[i]@.len() > 0 {
                            assert(all_parents@.contains(
                                block.header.parents_by_level@[i]@[0],
                            ));
                        }
                    }
                }
            }
            let own_work = work_from_bits(block.header.bits);
            let data = GhostDagData {
                blue_score: 0,
                blue_work: Uint192::from_u64(0).saturating_add(&own_work),
                selected_parent: crate::hashes::Hash::default(),
                merge_set_blues: Vec::new(),
                merge_set_reds: Vec::new(),
                blues_anticone_sizes: Vec::new(),
            };
            let rel = BlockRelations {
                parents: Vec::new(),
                children: Vec::new(),
                is_blue: true,
                blue_score: 0,
                blue_work: data.blue_work,
                own_work,
                selected_parent: None,
                merge_set_blues: Vec::new(),
                merge_set_reds: Vec::new(),
            };
            let no_parents: Vec<crate::hashes::Hash> = Vec::new();
            self.commit(bh, rel, &no_parents);
            proof {
                assert(add_block_post(
                    m,
                    scores0,
                    k0,
                    fuel0,
                    block.header,
                    data,
                    self.rels(),
                    self.scores(),
                )) by {
                    reveal(add_block_post);
                    assert(data.merge_set_blues@ =~= Seq::<crate::hashes::Hash>::empty());
                    assert(work_fold(m, 0, data.merge_set_blues@) == 0);
                    assert forall|p: crate::hashes::Hash| #[trigger] self.rels()[
                        bh].parents@.contains(p) <==> from_levels(levels, p) by {
                        if self.rels()[bh].parents@.contains(p) {
                            let q = choose|q: int|
                                0 <= q < self.rels()[bh].parents@.len() && self.rels()[
                                    bh].parents@[q] == p;
                        }
                        if from_levels(levels, p) {
                            let (i, j) = choose|i: int, j: int|
                                0 <= i < levels.len() && 0 <= j < levels[i]@.len() && (
                                #[trigger] levels[i]@[j]) == p;
                            assert(levels[i]@.len() == 0);
                        }
                    }
                }
            }
            return Ok(data);
        }
        // Every named parent must be known to the engine.
        proof {
            assert(!block.header.spec_is_genesis()) by {
                assert(from_levels(levels, all_parents@[0]));
                let (i, j) = choose|i: int, j: int|
                    0 <= i < levels.len() && 0 <= j < levels[i]@.len() && (#[trigger] levels[i]@[
                    j]) == all_parents@[0];
                assert(levels[i]@.len() > 0);
            }
        }
        let mut q: usize = 0;
        while q < all_parents.len()
            invariant
                self == old(self),
                m == self.rels(),
                levels == block.header.parents_by_level@,
                0 <= q <= all_parents@.len(),
                !block.header.spec_is_genesis(),
                forall|q2: int|
                    0 <= q2 < all_parents@.len() ==> from_levels(
                        levels,
                        #[trigger] all_parents@[q2],
                    ),
                forall|b: int| 0 <= b < q ==> m.dom().contains(#[trigger] all_parents@[b]),
            decreases all_parents@.len() - q,
        {
            if self.store.relations.get(&all_parents[q]).is_none() {
                proof {
                    assert(from_levels(levels, all_parents@[q as int]));
                    let (i, j) = choose|i: int, j: int|
                        0 <= i < levels.len() && 0 <= j < levels[i]@.len() && (#[trigger] levels[
                        i]@[j]) == all_parents@[q as int];
                    assert(!m.dom().contains(levels[i]@[j]));
                }
                return Err(ConsensusError::NoValidParent);
            }
            q += 1;
        }
        // The level-0 parents drive selection.
        let level0 = if block.header.parents_by_level.len() > 0 {
            copy_hashes(&block.header.parents_by_level[0])
        } else {
            Vec::new()
        };
        proof {
            assert(level0@ == block.header.parents_level0());
        }
        if level0.len() == 0 {
            return Err(ConsensusError::NoValidParent);
        }
        proof {
            assert forall|i: int| 0 <= i < level0@.len() implies m.dom().contains(
                #[trigger] level0@[i],
            ) by {
                assert(block.header.parents_by_level@[0]@[i] == level0@[i]);
                assert(all_parents@.contains(level0@[i]));
                let b = choose|b: int|
                    0 <= b < all_parents@.len() && all_parents@[b] == level0@[i];
                assert(m.dom().contains(all_parents@[b]));
            }
        }
        // Select the most preferred level-0 parent.
        let mut best: crate::hashes::Hash = level0[0];
        let mut bi: usize = 1;
        while bi < level0.len()
            invariant
                self == old(self),
                1 <= bi <= level0@.len(),
                m == self.rels(),
                dag_wf(&self.store),
                forall|i: int| 0 <= i < level0@.len() ==> m.dom().contains(#[trigger] level0@[i]),
                m.dom().contains(best),
                level0@.contains(best),
                forall|i: int| 0 <= i < bi ==> preferred(m, #[trigger] level0@[i], best),
            decreases level0@.len() - bi,
        {
            let candidate = level0[bi];
            let cand_rel = match self.store.relations.get(&candidate) {
                Some(rel) => rel,
                None => {
                    proof {
                        assert(false);
                    }
                    return Err(ConsensusError::NoValidParent);
                },
            };
            let best_rel = match self.store.relations.get(&best) {
                Some(rel) => rel,
                None => {
                    proof {
                        assert(false);
                    }
                    return Err(ConsensusError::NoValidParent);
                },
            };
            let better = if cand_rel.blue_score != best_rel.blue_score {
                cand_rel.blue_score > best_rel.blue_score
            } else if !(cand_rel.blue_work == best_rel.blue_work) {
                best_rel.blue_work.less_than(&cand_rel.blue_work)
            } else {
                candidate.less_than(&best)
            };
            proof {
                crate::hashes::lemma_value_order(candidate, best);
                lemma_u192_value_eq(cand_rel.blue_work, best_rel.blue_work);
            }
            if better {
                best = candidate;
            }
            bi += 1;
        }
        let selected_parent = best;
        // Merge set: ancestors reached from the parents, stopping at
        // anything in the selected parent's past cone.
        let ghost fuel = self.spec_len();
        let mut ms: Vec<crate::hashes::Hash> = Vec::new();
        let mut queue = copy_hashes(&all_parents);
        let mut visited = crate::maps::BlockHashSet::new();
        proof {
            lemma_dom_size(&self.store);
            assert forall|i: int| 0 <= i < queue@.len() implies from_parent_list(
                m,
                all_parents@,
                #[trigger] queue@[i],
                fuel,
            ) by {
                assert(reaches(m, all_parents@[i], queue@[i], fuel));
            }
        }
        while queue.len() > 0
            invariant
                self == old(self),
                m == self.rels(),
                fuel == self.spec_len(),
                dag_wf(&self.store),
                m.dom().contains(selected_parent),
                m.dom().finite(),
                m.dom().len() == self.spec_len(),
                visited@.finite(),
                visited@.subset_of(m.dom()),
                visited@.len() <= self.spec_len(),
                forall|i: int| 0 <= i < queue@.len() ==> m.dom().contains(#[trigger] queue@[i]),
                forall|i: int|
                    0 <= i < queue@.len() ==> from_parent_list(
                        m,
                        all_parents@,
                        #[trigger] queue@[i],
                        fuel,
                    ),
                forall|x: crate::hashes::Hash|
                    #[trigger] visited@.contains(x) <==> ms@.contains(x),
                forall|i: int|
                    0 <= i < ms@.len() ==> from_parent_list(
                        m,
                        all_parents@,
                        #[trigger] ms@[i],
                        fuel,
                    ) && !reaches(m, selected_parent, ms@[i], fuel),
                forall|i: int|
                    0 <= i < ms@.len() ==> m.dom().contains(#[trigger] ms@[i]) && ms@[i]
                        != selected_parent,
                forall|a: int, b: int| 0 <= a < b < ms@.len() ==> ms@[a] != ms@[b],
                forall|v: crate::hashes::Hash, q: int|
                    #![trigger visited@.contains(v), m[v].parents@[q]]
                    visited@.contains(v) && m.dom().contains(v) && 0 <= q < m[v].parents@.len()
                        ==> visited@.contains(m[v].parents@[q]) || queue@.contains(
                        m[v].parents@[q],
                    ) || reaches(m, selected_parent, m[v].parents@[q], fuel),
                forall|j: int|
                    0 <= j < all_parents@.len() ==> visited@.contains(#[trigger] all_parents@[j])
                        || queue@.contains(all_parents@[j]) || reaches(
                        m,
                        selected_parent,
                        all_parents@[j],
                        fuel,
                    ),
            decreases self.spec_len() - visited@.len(), queue@.len(),
        {
            let ghost q0 = queue@;
            let cur = match queue.pop() {
                Some(h) => h,
                None => {
                    proof {
                        assert(false);
                    }
                    selected_parent
                },
            };
            proof {
                assert(q0.last() == cur && queue@ == q0.drop_last());
                assert(q0[q0.len() - 1] == cur);
            }
            let mut expanded = false;
            if !visited.contains(&cur) {
                if !self.past_reaches(&selected_parent, &cur) {
                    proof {
                        visited.lemma_finite();
                        vstd::set_lib::lemma_len_subset(visited@.insert(cur), m.dom());
                        assert(cur != selected_parent) by {
                            assert(reaches(m, selected_parent, selected_parent, fuel));
                        }
                        assert(from_parent_list(m, all_parents@, cur, fuel));
                    }
                    let ghost vis0 = visited@;
                    let ghost ms0 = ms@;
                    let _ = visited.insert(cur);
                    ms.push(cur);
                    proof {
                        assert(ms@.last() == cur);
                        assert forall|x: crate::hashes::Hash| #[trigger] visited@.contains(x)
                            <==> ms@.contains(x) by {
                            if x == cur {
                                assert(ms@[ms@.len() - 1] == cur);
                            } else {
                                if ms0.contains(x) {
                                    let w = choose|w: int| 0 <= w < ms0.len() && ms0[w] == x;
                                    assert(ms@[w] == x);
                                }
                                if ms@.contains(x) {
                                    let w = choose|w: int| 0 <= w < ms@.len() && ms@[w] == x;
                                    assert(w < ms@.len() - 1);
                                    assert(ms0[w] == x);
                                }
                            }
                        }
                    }
                    expanded = true;
                    match self.store.relations.get(&cur) {
                        Some(rel) => {
                            proof {
                                lemma_parents_in_dom(&self.store, cur);
                            }
                            let mut p: usize = 0;
                            let nparents = rel.parents.len();
                            let ghost pre_queue = queue@;
                            while p < nparents
                                invariant
                                    self == old(self),
                                    m == self.rels(),
                                    fuel == self.spec_len(),
                                    m.dom().contains(cur),
                                    rel == self.rels()[cur],
                                    nparents == rel.parents@.len(),
                                    0 <= p <= nparents,
                                    queue@ == pre_queue + rel.parents@.take(p as int),
                                    forall|q2: int|
                                        0 <= q2 < rel.parents@.len() ==> m.dom().contains(
                                            #[trigger] rel.parents@[q2],
                                        ),
                                decreases nparents - p,
                            {
                                proof {
                                    assert(rel.parents@.take(p + 1int) =~= rel.parents@.take(
                                        p as int,
                                    ).push(rel.parents@[p as int]));
                                    assert(pre_queue + rel.parents@.take(p + 1int) =~= (pre_queue
                                        + rel.parents@.take(p as int)).push(
                                        rel.parents@[p as int],
                                    ));
                                }
                                queue.push(rel.parents[p]);
                                p += 1;
                            }
                            proof {
                                assert(rel.parents@.take(nparents as int) =~= rel.parents@);
                                assert(queue@ == pre_queue + rel.parents@);
                                assert forall|i: int| 0 <= i < queue@.len() implies
                                    from_parent_list(m, all_parents@, #[trigger] queue@[i], fuel)
                                    && m.dom().contains(queue@[i]) by {
                                    if i < pre_queue.len() {
                                        assert(queue@[i] == q0[i]);
                                    } else {
                                        let q = i - pre_queue.len();
                                        assert(queue@[i] == m[cur].parents@[q]);
                                        let j = choose|j: int|
                                            0 <= j < all_parents@.len() && reaches(
                                                m,
                                                #[trigger] all_parents@[j],
                                                cur,
                                                fuel,
                                            );
                                        lemma_reaches_edge(m, all_parents@[j], cur, q, fuel);
                                        lemma_reaches_bound(
                                            &self.store,
                                            all_parents@[j],
                                            m[cur].parents@[q],
                                            (fuel + 1) as nat,
                                        );
                                        assert(reaches(
                                            m,
                                            all_parents@[j],
                                            m[cur].parents@[q],
                                            fuel,
                                        ));
                                    }
                                }
                                assert forall|v: crate::hashes::Hash, q: int|
                                    #![trigger visited@.contains(v), m[v].parents@[q]]
                                    visited@.contains(v) && m.dom().contains(v) && 0 <= q < m[
                                    v].parents@.len() implies visited@.contains(m[v].parents@[q])
                                    || queue@.contains(m[v].parents@[q]) || reaches(
                                    m,
                                    selected_parent,
                                    m[v].parents@[q],
                                    fuel,
                                ) by {
                                    let x = m[v].parents@[q];
                                    if v == cur {
                                        assert(queue@[pre_queue.len() + q] == x);
                                    } else {
                                        assert(vis0.contains(v));
                                        if !vis0.contains(x) && !reaches(
                                            m,
                                            selected_parent,
                                            x,
                                            fuel,
                                        ) {
                                            assert(q0.contains(x));
                                            if x == cur {
                                                assert(visited@.contains(x));
                                            } else {
                                                let w = choose|w: int|
                                                    0 <= w < q0.len() && q0[w] == x;
                                                assert(w < q0.len() - 1);
                                                assert(queue@[w] == pre_queue[w]);
                                            }
                                        }
                                    }
                                }
                                assert forall|j: int| 0 <= j < all_parents@.len() implies
                                    visited@.contains(#[trigger] all_parents@[j])
                                    || queue@.contains(all_parents@[j]) || reaches(
                                    m,
                                    selected_parent,
                                    all_parents@[j],
                                    fuel,
                                ) by {
                                    let x = all_parents@[j];
                                    if !vis0.contains(x) && !reaches(m, selected_parent, x, fuel)
                                    {
                                        assert(q0.contains(x));
                                        if x == cur {
                                            assert(visited@.contains(x));
                                        } else {
                                            let w = choose|w: int|
                                                0 <= w < q0.len() && q0[w] == x;
                                            assert(w < q0.len() - 1);
                                            assert(queue@[w] == pre_queue[w]);
                                        }
                                    }
                                }
                            }
                        },
                        None => {
                            proof {
                                assert(false);
                            }
                        },
                    }
                }
            }
            proof {
                if !expanded {
                    assert(visited@.contains(cur) || reaches(m, selected_parent, cur, fuel));
                    assert forall|v: crate::hashes::Hash, q: int|
                        #![trigger visited@.contains(v), m[v].parents@[q]]
                        visited@.contains(v) && m.dom().contains(v) && 0 <= q < m[
                        v].parents@.len() implies visited@.contains(m[v].parents@[q])
                        || queue@.contains(m[v].parents@[q]) || reaches(
                        m,
                        selected_parent,
                        m[v].parents@[q],
                        fuel,
                    ) by {
                        let x = m[v].parents@[q];
                        if !visited@.contains(x) && !reaches(m, selected_parent, x, fuel) {
                            assert(q0.contains(x));
                            let w = choose|w: int| 0 <= w < q0.len() && q0[w] == x;
                            if w == q0.len() - 1 {
                                assert(x == cur);
                                assert(false);
                            }
                            assert(queue@[w] == x);
                        }
                    }
                    assert forall|j: int| 0 <= j < all_parents@.len() implies visited@.contains(
                        #[trigger] all_parents@[j],
                    ) || queue@.contains(all_parents@[j]) || reaches(
                        m,
                        selected_parent,
                        all_parents@[j],
                        fuel,
                    ) by {
                        let x = all_parents@[j];
                        if !visited@.contains(x) && !reaches(m, selected_parent, x, fuel) {
                            assert(q0.contains(x));
                            let w = choose|w: int| 0 <= w < q0.len() && q0[w] == x;
                            if w == q0.len() - 1 {
                                assert(x == cur);
                                assert(false);
                            }
                            assert(queue@[w] == x);
                        }
                    }
                }
            }
        }
        // The gathered candidates are exactly the merge set.
        proof {
            assert forall|h: crate::hashes::Hash| #[trigger] ms@.contains(h) <==> in_merge_set(
                m,
                levels,
                selected_parent,
                h,
                fuel,
            ) by {
                if ms@.contains(h) {
                    let w = choose|w: int| 0 <= w < ms@.len() && ms@[w] == h;
                    assert(from_parent_list(m, all_parents@, h, fuel));
                    let j = choose|j: int|
                        0 <= j < all_parents@.len() && reaches(m, #[trigger] all_parents@[j], h, fuel);
                    assert(from_levels(levels, all_parents@[j]));
                    assert(in_merge_set(m, levels, selected_parent, h, fuel));
                }
                if in_merge_set(m, levels, selected_parent, h, fuel) {
                    let p = choose|p: crate::hashes::Hash|
                        #![auto]
                        from_levels(levels, p) && reaches(m, p, h, fuel);
                    let (li2, lj2) = choose|i: int, j: int|
                        0 <= i < levels.len() && 0 <= j < levels[i]@.len() && (#[trigger] levels[
                        i]@[j]) == p;
                    assert(all_parents@.contains(p));
                    let big = visited@.union(
                        Set::new(|y: crate::hashes::Hash| reaches(m, selected_parent, y, fuel)),
                    );
                    assert forall|v: crate::hashes::Hash, q: int|
                        #[trigger] big.contains(v) && m.dom().contains(v) && 0 <= q < m[
                        v].parents@.len() implies big.contains(#[trigger] m[v].parents@[q]) by {
                        if visited@.contains(v) {
                            assert(visited@.contains(m[v].parents@[q]) || queue@.contains(
                                m[v].parents@[q],
                            ) || reaches(m, selected_parent, m[v].parents@[q], fuel));
                        } else {
                            assert(reaches(m, selected_parent, v, fuel));
                            lemma_reaches_edge(m, selected_parent, v, q, fuel);
                            lemma_reaches_bound(
                                &self.store,
                                selected_parent,
                                m[v].parents@[q],
                                (fuel + 1) as nat,
                            );
                        }
                    }
                    assert(big.contains(p)) by {
                        let w = choose|w: int|
                            0 <= w < all_parents@.len() && all_parents@[w] == p;
                        assert(visited@.contains(p) || queue@.contains(p) || reaches(
                            m,
                            selected_parent,
                            p,
                            fuel,
                        ));
                    }
                    lemma_reaches_closed(m, big, p, h, fuel);
                    assert(visited@.contains(h));
                }
            }
        }
        let ghost ms_before = ms@;
        // Candidates in blue-score order, ties by hash.
        let n = ms.len();
        let mut si: usize = 0;
        while si < n
            invariant
                self == old(self),
                m == self.rels(),
                fuel == self.spec_len(),
                dag_wf(&self.store),
                n == ms@.len(),
                0 <= si <= n,
                m.dom().contains(selected_parent),
                forall|x: crate::hashes::Hash|
                    #[trigger] ms@.contains(x) <==> ms_before.contains(x),
                forall|i: int|
                    0 <= i < ms@.len() ==> m.dom().contains(#[trigger] ms@[i]) && ms@[i]
                        != selected_parent,
                forall|a: int, b: int| 0 <= a < b < ms@.len() ==> ms@[a] != ms@[b],
                forall|a: int, b: int|
                    0 <= a < b < si ==> candidate_le(m, #[trigger] ms@[a], #[trigger] ms@[b]),
                forall|a: int, b: int|
                    0 <= a < si && si <= b < n ==> candidate_le(m, #[trigger] ms@[a], #[trigger] ms@[b]),
            decreases n - si,
        {
            let mut mn: usize = si;
            let mut sj: usize = si + 1;
            while sj < n
                invariant
                    self == old(self),
                    m == self.rels(),
                    n == ms@.len(),
                    0 <= si <= mn < n,
                    si <= mn < sj || mn == si,
                    si < sj <= n,
                    forall|i: int| 0 <= i < ms@.len() ==> m.dom().contains(#[trigger] ms@[i]),
                    forall|b: int|
                        si <= b < sj ==> candidate_le(m, ms@[mn as int], #[trigger] ms@[b]),
                decreases n - sj,
            {
                let a = ms[sj];
                let b = ms[mn];
                let take = match (self.store.relations.get(&a), self.store.relations.get(&b)) {
                    (Some(ra), Some(rb)) => {
                        proof {
                            crate::hashes::lemma_value_order(a, b);
                        }
                        if ra.blue_score != rb.blue_score {
                            ra.blue_score < rb.blue_score
                        } else {
                            a.less_than(&b)
                        }
                    },
                    _ => {
                        proof {
                            assert(false);
                        }
                        false
                    },
                };
                proof {
                    crate::hashes::lemma_value_order(a, b);
                    if take {
                        assert(candidate_le(m, ms@[sj as int], ms@[mn as int]));
                        assert forall|b2: int| si <= b2 < sj + 1 implies candidate_le(
                            m,
                            ms@[sj as int],
                            #[trigger] ms@[b2],
                        ) by {
                            if b2 < sj {
                                assert(candidate_le(m, ms@[mn as int], ms@[b2]));
                            }
                        }
                    } else {
                        assert(candidate_le(m, ms@[mn as int], ms@[sj as int]));
                    }
                }
                if take {
                    mn = sj;
                }
                sj += 1;
            }
            if mn != si {
                let ghost pre = ms@;
                let x = ms[si];
                let y = ms[mn];
                ms[si] = y;
                ms[mn] = x;
                proof {
                    assert(ms@ =~= pre.update(si as int, pre[mn as int]).update(
                        mn as int,
                        pre[si as int],
                    ));
                    assert forall|x2: crate::hashes::Hash| #[trigger] ms@.contains(x2)
                        <==> pre.contains(x2) by {
                        if ms@.contains(x2) {
                            let w = choose|w: int| 0 <= w < ms@.len() && ms@[w] == x2;
                            assert(ms@[w] == pre[w] || ms@[w] == pre[si as int] || ms@[w] == pre[
                                mn as int]);
                            assert(pre.contains(x2));
                        }
                        if pre.contains(x2) {
                            let w = choose|w: int| 0 <= w < pre.len() && pre[w] == x2;
                            let w2 = if w == si {
                                mn as int
                            } else if w == mn {
                                si as int
                            } else {
                                w
                            };
                            assert(ms@[w2] == pre[w]);
                        }
                    }
                    assert forall|i: int| 0 <= i < ms@.len() implies m.dom().contains(
                        #[trigger] ms@[i],
                    ) && ms@[i] != selected_parent by {
                        assert(ms@[i] == pre[i] || ms@[i] == pre[si as int] || ms@[i] == pre[
                            mn as int]);
                    }
                    assert forall|a2: int, b2: int| 0 <= a2 < b2 < ms@.len() implies ms@[a2]
                        != ms@[b2] by {
                        let ia = if a2 == si {
                            mn as int
                        } else if a2 == mn {
                            si as int
                        } else {
                            a2
                        };
                        let ib = if b2 == si {
                            mn as int
                        } else if b2 == mn {
                            si as int
                        } else {
                            b2
                        };
                        assert(ms@[a2] == pre[ia] && ms@[b2] == pre[ib]);
                        assert(ia != ib);
                    }
                    assert forall|a2: int, b2: int| 0 <= a2 < b2 < si + 1 implies candidate_le(
                        m,
                        #[trigger] ms@[a2],
                        #[trigger] ms@[b2],
                    ) by {
                        assert(ms@[a2] == pre[a2]);
                        if b2 < si {
                            assert(ms@[b2] == pre[b2]);
                        } else {
                            assert(ms@[b2] == pre[mn as int]);
                        }
                    }
                    assert forall|a2: int, b2: int|
                        0 <= a2 < si + 1 && si + 1 <= b2 < n implies candidate_le(
                        m,
                        #[trigger] ms@[a2],
                        #[trigger] ms@[b2],
                    ) by {
                        let ib = if b2 == mn {
                            si as int
                        } else {
                            b2
                        };
                        assert(ms@[b2] == pre[ib]);
                        if a2 < si {
                            assert(ms@[a2] == pre[a2]);
                            assert(candidate_le(m, pre[a2], pre[ib]));
                        } else {
                            assert(ms@[a2] == pre[mn as int]);
                            assert(candidate_le(m, pre[mn as int], pre[ib]));
                        }
                    }
                }
            } else {
                proof {
                    assert forall|a2: int, b2: int|
                        0 <= a2 < si + 1 && si + 1 <= b2 < n implies candidate_le(
                        m,
                        #[trigger] ms@[a2],
                        #[trigger] ms@[b2],
                    ) by {
                        if a2 == si {
                            assert(candidate_le(m, ms@[mn as int], ms@[b2]));
                        }
                    }
                }
            }
            si += 1;
        }
        // Classify each candidate under the k-cluster rule, counting its
        // anticone within the selected parent and the blues built so far.
        let k64: u64 = self.store.k as u64;
        let mut blues: Vec<crate::hashes::Hash> = Vec::new();
        let mut reds: Vec<crate::hashes::Hash> = Vec::new();
        let mut bas: Vec<(crate::hashes::Hash, u64)> = Vec::new();
        let mut ci: usize = 0;
        while ci < ms.len()
            invariant
                self == old(self),
                m == self.rels(),
                fuel == self.spec_len(),
                dag_wf(&self.store),
                k64 == self.spec_k(),
                k64 <= 65535,
                0 <= ci <= ms@.len(),
                m.dom().contains(selected_parent),
                forall|x: crate::hashes::Hash|
                    #[trigger] ms@.contains(x) <==> ms_before.contains(x),
                forall|i: int|
                    0 <= i < ms@.len() ==> m.dom().contains(#[trigger] ms@[i]) && ms@[i]
                        != selected_parent,
                forall|a: int, b: int| 0 <= a < b < ms@.len() ==> ms@[a] != ms@[b],
                forall|a: int, b: int|
                    0 <= a < b < ms@.len() ==> candidate_le(m, #[trigger] ms@[a], #[trigger] ms@[b]),
                forall|a: int, b: int|
                    0 <= a < b < blues@.len() ==> candidate_le(
                        m,
                        #[trigger] blues@[a],
                        #[trigger] blues@[b],
                    ),
                forall|a: int, b: int|
                    0 <= a < b < reds@.len() ==> candidate_le(
                        m,
                        #[trigger] reds@[a],
                        #[trigger] reds@[b],
                    ),
                bas@.len() == blues@.len(),
                forall|i: int|
                    0 <= i < bas@.len() ==> (#[trigger] bas@[i]).0 == blues@[i] && bas@[i].1
                        <= k64,
                forall|i: int|
                    0 <= i < blues@.len() ==> in_prefix(ms@, #[trigger] blues@[i], ci as int),
                forall|i: int|
                    0 <= i < reds@.len() ==> in_prefix(ms@, #[trigger] reds@[i], ci as int),
                forall|q: int|
                    0 <= q < ci ==> blues@.contains(#[trigger] ms@[q]) || reds@.contains(ms@[q]),
                forall|i: int|
                    0 <= i < blues@.len() ==> m.dom().contains(#[trigger] blues@[i]) && blues@[i]
                        != selected_parent,
                forall|a: int, b: int| 0 <= a < b < blues@.len() ==> blues@[a] != blues@[b],
                forall|a: int, b: int| 0 <= a < b < reds@.len() ==> reds@[a] != reds@[b],
                forall|a: int, b: int|
                    0 <= a < blues@.len() && 0 <= b < reds@.len() ==> blues@[a] != reds@[b],
                forall|i: int|
                    0 <= i < bas@.len() ==> (#[trigger] bas@[i]).1 == parallel_count(
                        m,
                        selected_parent,
                        blues@,
                        blues@[i],
                        fuel,
                    ),
                forall|i: int|
                    0 <= i < reds@.len() ==> parallel_count(
                        m,
                        selected_parent,
                        blues@,
                        #[trigger] reds@[i],
                        fuel,
                    ) > k64 || (exists|j: int|
                        0 <= j < blues@.len() && anticone_rel(
                            m,
                            #[trigger] blues@[j],
                            reds@[i],
                            fuel,
                        ) && bas@[j].1 >= k64),
            decreases ms@.len() - ci,
        {
            let c = ms[ci];
            proof {
                assert(!in_prefix(ms@, c, ci as int)) by {
                    if in_prefix(ms@, c, ci as int) {
                        let w = choose|w: int| 0 <= w < ci && ms@[w] == c;
                        assert(ms@[w] == ms@[ci as int]);
                    }
                }
            }
            let mut cnt: u64 = 0;
            if !self.past_reaches(&c, &selected_parent) && !self.past_reaches(&selected_parent, &c)
            {
                cnt = 1;
            }
            proof {
                assert(blues@.take(0) =~= Seq::<crate::hashes::Hash>::empty());
                assert(cnt == parallel_count(m, selected_parent, blues@.take(0), c, fuel));
            }
            let mut anti: Vec<usize> = Vec::new();
            let mut over = false;
            if cnt > k64 {
                over = true;
                proof {
                    lemma_parallel_count_mono(m, selected_parent, blues@, 0, c, fuel);
                }
            }
            let mut t: usize = 0;
            while t < blues.len() && !over
                invariant
                    self == old(self),
                    m == self.rels(),
                    fuel == self.spec_len(),
                    dag_wf(&self.store),
                    k64 <= 65535,
                    0 <= t <= blues@.len(),
                    cnt <= k64 + 1,
                    m.dom().contains(selected_parent),
                    forall|i: int| 0 <= i < blues@.len() ==> m.dom().contains(#[trigger] blues@[i]),
                    !over ==> cnt <= k64,
                    !over ==> cnt == parallel_count(m, selected_parent, blues@.take(t as int), c, fuel),
                    over ==> parallel_count(m, selected_parent, blues@, c, fuel) > k64,
                    forall|x: int|
                        0 <= x < anti@.len() ==> 0 <= #[trigger] anti@[x] < blues@.len(),
                    forall|x: int, y: int| 0 <= x < y < anti@.len() ==> anti@[x] < anti@[y],
                    forall|x: int| 0 <= x < anti@.len() ==> anti@[x] < t,
                    forall|x: int|
                        0 <= x < anti@.len() ==> anticone_rel(
                            m,
                            blues@[#[trigger] anti@[x] as int],
                            c,
                            fuel,
                        ),
                    !over ==> forall|t2: int|
                        0 <= t2 < t && anticone_rel(m, #[trigger] blues@[t2], c, fuel) ==> (
                        exists|x: int| 0 <= x < anti@.len() && #[trigger] anti@[x] as int == t2),
                decreases blues@.len() - t + (if over { 0int } else { 1int }),
            {
                let b = blues[t];
                let ghost pre_cnt = cnt;
                let parallel = !self.past_reaches(&c, &b) && !self.past_reaches(&b, &c);
                proof {
                    assert(blues@.take(t + 1int).drop_last() =~= blues@.take(t as int));
                    assert(blues@.take(t + 1int).last() == blues@[t as int]);
                    assert(parallel == anticone_rel(m, blues@[t as int], c, fuel));
                }
                if parallel {
                    if cnt >= k64 {
                        proof {
                            assert(parallel_count(m, selected_parent, blues@.take(t + 1int), c, fuel)
                                == pre_cnt + 1);
                            lemma_parallel_count_mono(m, selected_parent, blues@, t + 1, c, fuel);
                        }
                        over = true;
                        cnt = k64 + 1;
                    } else {
                        cnt = cnt + 1;
                        let ghost anti0 = anti@;
                        anti.push(t);
                        proof {
                            assert(anti@.last() == t);
                            assert forall|t2: int|
                                0 <= t2 < t + 1 && anticone_rel(m, #[trigger] blues@[t2], c, fuel)
                                implies (exists|x: int|
                                0 <= x < anti@.len() && #[trigger] anti@[x] as int == t2) by {
                                if t2 == t {
                                    assert(anti@[anti@.len() - 1] as int == t2);
                                } else {
                                    let x = choose|x: int|
                                        0 <= x < anti0.len() && #[trigger] anti0[x] as int == t2;
                                    assert(anti@[x] as int == t2);
                                }
                            }
                        }
                    }
                } else {
                    proof {
                        if !over {
                            assert(parallel_count(
                                m,
                                selected_parent,
                                blues@.take(t + 1int),
                                c,
                                fuel,
                            ) == pre_cnt);
                            assert forall|t2: int|
                                0 <= t2 < t + 1 && anticone_rel(m, #[trigger] blues@[t2], c, fuel)
                                implies (exists|x: int|
                                0 <= x < anti@.len() && #[trigger] anti@[x] as int == t2) by {
                                if t2 < t {
                                    let x = choose|x: int|
                                        0 <= x < anti@.len() && #[trigger] anti@[x] as int == t2;
                                }
                            }
                        }
                    }
                }
                t += 1;
            }
            proof {
                if !over {
                    assert(blues@.take(blues@.len() as int) =~= blues@);
                    assert(cnt == parallel_count(m, selected_parent, blues@, c, fuel));
                }
            }
            let mut ok = !over && cnt <= k64;
            let mut x: usize = 0;
            while x < anti.len() && ok
                invariant
                    0 <= x <= anti@.len(),
                    k64 <= 65535,
                    ok ==> cnt <= k64 && !over,
                    !over ==> cnt == parallel_count(m, selected_parent, blues@, c, fuel),
                    over ==> parallel_count(m, selected_parent, blues@, c, fuel) > k64,
                    bas@.len() == blues@.len(),
                    forall|i: int|
                        0 <= i < bas@.len() ==> (#[trigger] bas@[i]).0 == blues@[i] && bas@[i].1
                            <= k64,
                    forall|i: int|
                        0 <= i < anti@.len() ==> 0 <= #[trigger] anti@[i] < blues@.len(),
                    forall|i: int|
                        0 <= i < anti@.len() ==> anticone_rel(
                            m,
                            blues@[#[trigger] anti@[i] as int],
                            c,
                            fuel,
                        ),
                    !ok ==> over || (exists|j: int|
                        0 <= j < blues@.len() && anticone_rel(m, #[trigger] blues@[j], c, fuel)
                            && bas@[j].1 >= k64),
                    ok ==> forall|i: int|
                        0 <= i < x ==> (#[trigger] bas@[anti@[i] as int]).1 + 1 <= k64,
                decreases anti@.len() - x + (if ok { 1int } else { 0int }),
            {
                if bas[anti[x]].1 + 1 > k64 {
                    proof {
                        let j = anti@[x as int] as int;
                        assert(anticone_rel(m, blues@[j], c, fuel));
                        assert(bas@[j].1 >= k64);
                    }
                    ok = false;
                }
                x += 1;
            }
            if ok {
                let ghost bas_pre = bas@;
                let mut y: usize = 0;
                while y < anti.len()
                    invariant
                        0 <= y <= anti@.len(),
                        k64 <= 65535,
                        cnt <= k64,
                        bas@.len() == blues@.len(),
                        bas@.len() == bas_pre.len(),
                        forall|i: int|
                            0 <= i < anti@.len() ==> 0 <= #[trigger] anti@[i] < blues@.len(),
                        forall|x2: int, y2: int|
                            0 <= x2 < y2 < anti@.len() ==> anti@[x2] < anti@[y2],
                        forall|i: int|
                            0 <= i < bas@.len() ==> (#[trigger] bas@[i]).0 == blues@[i]
                                && bas@[i].1 <= k64,
                        forall|i: int|
                            0 <= i < anti@.len() && y <= i ==> (#[trigger] bas@[anti@[
                            i] as int]).1 + 1 <= k64,
                        forall|x2: int|
                            0 <= x2 < y ==> (#[trigger] bas@[anti@[x2] as int]).1 == bas_pre[
                            anti@[x2] as int].1 + 1 && bas@[anti@[x2] as int].0 == bas_pre[anti@[
                            x2] as int].0,
                        forall|i: int|
                            0 <= i < bas@.len() && (forall|x2: int|
                                0 <= x2 < y ==> #[trigger] anti@[x2] as int != i) ==> bas@[i]
                                == bas_pre[i],
                    decreases anti@.len() - y,
                {
                    let idx = anti[y];
                    let prev = bas[idx];
                    proof {
                        assert(bas@[anti@[y as int] as int].1 + 1 <= k64);
                        assert(bas@[idx as int] == bas_pre[idx as int]) by {
                            assert forall|x2: int| 0 <= x2 < y implies #[trigger] anti@[
                                x2] as int != idx as int by {
                                assert(anti@[x2] < anti@[y as int]);
                            }
                        }
                        assert forall|i: int|
                            0 <= i < anti@.len() && y + 1 <= i implies (#[trigger] bas@.update(
                            idx as int,
                            (prev.0, (prev.1 + 1) as u64),
                        )[anti@[i] as int]).1 + 1 <= k64 by {
                            assert(anti@[y as int] < anti@[i]);
                        }
                    }
                    bas[idx] = (prev.0, prev.1 + 1);
                    y += 1;
                }
                proof {
                    assert forall|i: int| 0 <= i < bas@.len() implies (#[trigger] bas@[i]).1
                        == bas_pre[i].1 + (if anticone_rel(m, blues@[i], c, fuel) {
                        1int
                    } else {
                        0
                    }) && bas@[i].0 == bas_pre[i].0 by {
                        if anticone_rel(m, blues@[i], c, fuel) {
                            let x2 = choose|x2: int|
                                0 <= x2 < anti@.len() && #[trigger] anti@[x2] as int == i;
                        } else {
                            assert forall|x2: int| 0 <= x2 < anti@.len() implies #[trigger] anti@[
                                x2] as int != i by {
                                assert(anticone_rel(m, blues@[anti@[x2] as int], c, fuel));
                            }
                            assert(bas@[i] == bas_pre[i]);
                        }
                    }
                }
                let ghost blues_pre = blues@;
                blues.push(c);
                bas.push((c, cnt));
                proof {
                    assert(blues@.drop_last() =~= blues_pre);
                    assert(blues@.last() == c);
                    assert forall|i: int| 0 <= i < bas@.len() implies (#[trigger] bas@[i]).1
                        == parallel_count(m, selected_parent, blues@, blues@[i], fuel) by {
                        assert(reaches(m, c, c, fuel));
                        if i < bas@.len() - 1 {
                            assert(parallel_count(m, selected_parent, blues@, blues@[i], fuel)
                                == parallel_count(m, selected_parent, blues_pre, blues_pre[i], fuel)
                                + (if anticone_rel(m, c, blues_pre[i], fuel) {
                                1int
                            } else {
                                0
                            }));
                            assert(bas_pre[i].1 == parallel_count(
                                m,
                                selected_parent,
                                blues_pre,
                                blues_pre[i],
                                fuel,
                            ));
                        } else {
                            assert(blues@[i] == c);
                            assert(parallel_count(m, selected_parent, blues@, c, fuel)
                                == parallel_count(m, selected_parent, blues_pre, c, fuel));
                        }
                    }
                    assert forall|i: int| 0 <= i < reds@.len() implies parallel_count(
                        m,
                        selected_parent,
                        blues@,
                        #[trigger] reds@[i],
                        fuel,
                    ) > k64 || (exists|j: int|
                        0 <= j < blues@.len() && anticone_rel(
                            m,
                            #[trigger] blues@[j],
                            reds@[i],
                            fuel,
                        ) && bas@[j].1 >= k64) by {
                        if parallel_count(m, selected_parent, blues_pre, reds@[i], fuel) > k64 {
                            assert(parallel_count(m, selected_parent, blues@, reds@[i], fuel)
                                >= parallel_count(m, selected_parent, blues_pre, reds@[i], fuel));
                        } else {
                            let j = choose|j: int|
                                0 <= j < blues_pre.len() && anticone_rel(
                                    m,
                                    #[trigger] blues_pre[j],
                                    reds@[i],
                                    fuel,
                                ) && bas_pre[j].1 >= k64;
                            assert(blues@[j] == blues_pre[j]);
                            assert(bas@[j].1 >= bas_pre[j].1);
                        }
                    }
                    assert forall|i: int| 0 <= i < blues@.len() implies in_prefix(
                        ms@,
                        #[trigger] blues@[i],
                        ci + 1int,
                    ) by {
                        if i < blues@.len() - 1 {
                            assert(in_prefix(ms@, blues@[i], ci as int));
                            let w = choose|w: int| 0 <= w < ci && ms@[w] == blues@[i];
                            assert(ms@[w] == blues@[i]);
                        } else {
                            assert(ms@[ci as int] == c);
                        }
                    }
                    assert forall|i: int| 0 <= i < reds@.len() implies in_prefix(
                        ms@,
                        #[trigger] reds@[i],
                        ci + 1int,
                    ) by {
                        assert(in_prefix(ms@, reds@[i], ci as int));
                    }
                    assert forall|q: int| 0 <= q < ci + 1 implies blues@.contains(
                        #[trigger] ms@[q],
                    ) || reds@.contains(ms@[q]) by {
                        if q == ci {
                            assert(blues@[blues@.len() - 1] == c);
                        } else {
                            if blues_pre.contains(ms@[q]) {
                                let w = choose|w: int|
                                    0 <= w < blues_pre.len() && blues_pre[w] == ms@[q];
                                assert(blues@[w] == ms@[q]);
                            }
                        }
                    }
                    assert forall|a: int, b: int| 0 <= a < b < blues@.len() implies candidate_le(
                        m,
                        #[trigger] blues@[a],
                        #[trigger] blues@[b],
                    ) by {
                        if b == blues@.len() - 1 {
                            assert(blues@[a] == blues_pre[a]);
                            assert(in_prefix(ms@, blues_pre[a], ci as int));
                            let q = choose|q: int| 0 <= q < ci && ms@[q] == blues_pre[a];
                            assert(candidate_le(m, ms@[q], ms@[ci as int]));
                        } else {
                            assert(blues@[a] == blues_pre[a] && blues@[b] == blues_pre[b]);
                        }
                    }
                }
            } else {
                let ghost reds_pre = reds@;
                reds.push(c);
                proof {
                    assert(reds@.last() == c);
                    assert forall|i: int| 0 <= i < reds@.len() implies parallel_count(
                        m,
                        selected_parent,
                        blues@,
                        #[trigger] reds@[i],
                        fuel,
                    ) > k64 || (exists|j: int|
                        0 <= j < blues@.len() && anticone_rel(
                            m,
                            #[trigger] blues@[j],
                            reds@[i],
                            fuel,
                        ) && bas@[j].1 >= k64) by {
                        if i < reds@.len() - 1 {
                            assert(reds@[i] == reds_pre[i]);
                        } else {
                            assert(reds@[i] == c);
                        }
                    }
                    assert forall|i: int| 0 <= i < reds@.len() implies in_prefix(
                        ms@,
                        #[trigger] reds@[i],
                        ci + 1int,
                    ) by {
                        if i < reds@.len() - 1 {
                            assert(in_prefix(ms@, reds@[i], ci as int));
                        } else {
                            assert(ms@[ci as int] == c);
                        }
                    }
                    assert forall|i: int| 0 <= i < blues@.len() implies in_prefix(
                        ms@,
                        #[trigger] blues@[i],
                        ci + 1int,
                    ) by {
                        assert(in_prefix(ms@, blues@[i], ci as int));
                    }
                    assert forall|q: int| 0 <= q < ci + 1 implies blues@.contains(
                        #[trigger] ms@[q],
                    ) || reds@.contains(ms@[q]) by {
                        if q == ci {
                            assert(reds@[reds@.len() - 1] == c);
                        } else {
                            if reds_pre.contains(ms@[q]) {
                                let w = choose|w: int|
                                    0 <= w < reds_pre.len() && reds_pre[w] == ms@[q];
                                assert(reds@[w] == ms@[q]);
                            }
                        }
                    }
                    assert forall|a: int, b: int| 0 <= a < b < reds@.len() implies candidate_le(
                        m,
                        #[trigger] reds@[a],
                        #[trigger] reds@[b],
                    ) by {
                        if b == reds@.len() - 1 {
                            assert(reds@[a] == reds_pre[a]);
                            assert(in_prefix(ms@, reds_pre[a], ci as int));
                            let q = choose|q: int| 0 <= q < ci && ms@[q] == reds_pre[a];
                            assert(candidate_le(m, ms@[q], ms@[ci as int]));
                        } else {
                            assert(reds@[a] == reds_pre[a] && reds@[b] == reds_pre[b]);
                        }
                    }
                }
            }
            ci += 1;
        }
        // The classification partitions exactly the merge set.
        proof {
            lemma_partition_glue(
                m,
                levels,
                selected_parent,
                fuel,
                ms@,
                ms_before,
                blues@,
                reds@,
            );
        }
        // Blue score: the selected parent's score, the blues and the block.
        let sp_rel = match self.store.relations.get(&selected_parent) {
            Some(rel) => rel,
            None => {
                proof {
                    assert(false);
                }
                return Err(ConsensusError::NoValidParent);
            },
        };
        let sp_score = sp_rel.blue_score;
        let sp_work = sp_rel.blue_work;
        let blues_len: u64 = blues.len() as u64;
        if sp_score > u64::MAX - 1 || sp_score + 1 > u64::MAX - blues_len {
            proof {
                broadcast use vstd::seq_lib::seq_to_set_is_finite;

                lemma_dom_size(&self.store);
                blues@.unique_seq_to_set();
                assert(blues@.to_set().subset_of(m.dom())) by {
                    assert forall|x: crate::hashes::Hash| blues@.to_set().contains(x)
                        implies m.dom().contains(x) by {
                        let i = choose|i: int| 0 <= i < blues@.len() && blues@[i] == x;
                    }
                }
                vstd::set_lib::lemma_len_subset(blues@.to_set(), m.dom());
                assert(blues@.len() <= self.spec_len());
                assert(m.dom().contains(selected_parent) && m[selected_parent].blue_score
                    + self.spec_len() + 1 > u64::MAX);
            }
            return Err(
                ConsensusError::Generic { msg: "blue score exceeds the counter range".to_owned() },
            );
        }
        let blue_score = sp_score + blues_len + 1;
        // Blue work: the selected parent's work, each blue's own work and
        // the block's own work, clamped into 192 bits.
        let own_work = work_from_bits(block.header.bits);
        let mut blue_work = sp_work;
        let mut wi: usize = 0;
        while wi < blues.len()
            invariant
                self == old(self),
                m == self.rels(),
                dag_wf(&self.store),
                0 <= wi <= blues@.len(),
                forall|i: int| 0 <= i < blues@.len() ==> m.dom().contains(#[trigger] blues@[i]),
                blue_work.value() == work_fold(m, m[selected_parent].blue_work.value(), blues@.take(wi as int)),
                sp_work == m[selected_parent].blue_work,
            decreases blues@.len() - wi,
        {
            let b = blues[wi];
            match self.store.relations.get(&b) {
                Some(rel) => {
                    blue_work = blue_work.saturating_add(&rel.own_work);
                },
                None => {
                    proof {
                        assert(false);
                    }
                },
            }
            proof {
                assert(blues@.take(wi + 1int).drop_last() =~= blues@.take(wi as int));
                assert(blues@.take(wi + 1int).last() == blues@[wi as int]);
                lemma_work_fold_snoc(m, m[selected_parent].blue_work.value(), blues@.take(wi + 1int));
            }
            wi += 1;
        }
        proof {
            assert(blues@.take(blues@.len() as int) =~= blues@);
        }
        let blue_work = blue_work.saturating_add(&own_work);
        let data = GhostDagData {
            blue_score,
            blue_work,
            selected_parent,
            merge_set_blues: copy_hashes(&blues),
            merge_set_reds: copy_hashes(&reds),
            blues_anticone_sizes: bas,
        };
        let rel = BlockRelations {
            parents: copy_hashes(&all_parents),
            children: Vec::new(),
            is_blue: true,
            blue_score,
            blue_work,
            own_work,
            selected_parent: Some(selected_parent),
            merge_set_blues: blues,
            merge_set_reds: reds,
        };
        self.commit(bh, rel, &all_parents);
        proof {
            assert(add_block_post(
                m,
                scores0,
                k0,
                fuel0,
                block.header,
                data,
                self.rels(),
                self.scores(),
            )) by {
                reveal(add_block_post);
                assert forall|p: crate::hashes::Hash| #[trigger] self.rels()[
                    bh].parents@.contains(p) <==> from_levels(levels, p) by {
                    assert(self.rels()[bh].parents@ == all_parents@);
                    if all_parents@.contains(p) {
                        let q = choose|q: int|
                            0 <= q < all_parents@.len() && all_parents@[q] == p;
                        assert(from_levels(levels, all_parents@[q]));
                    }
                    if from_levels(levels, p) {
                        let (i, j) = choose|i: int, j: int|
                            0 <= i < levels.len() && 0 <= j < levels[i]@.len() && (
                            #[trigger] levels[i]@[j]) == p;
                        assert(all_parents@.contains(levels[i]@[j]));
                    }
                }
            }
        }
        Ok(data)
    }
}

/// Equal 192-bit values are the same limbs.
pub proof fn lemma_u192_value_eq(a: Uint192, b: Uint192)
    ensures
        a.value() == b.value() <==> a == b,
{
    if a.value() == b.value() && a != b {
        crate::hashes::lemma_value_order(
            crate::hashes::Hash { w0: a.l0, w1: a.l1, w2: a.l2, w3: 0 },
            crate::hashes::Hash { w0: b.l0, w1: b.l1, w2: b.l2, w3: 0 },
        );
    }
}


/// The count includes the selected-parent indicator and each listed
/// blue's indicator.
proof fn lemma_parallel_count_element(
    m: Map<crate::hashes::Hash, BlockRelations>,
    sp: crate::hashes::Hash,
    blues: Seq<crate::hashes::Hash>,
    j: int,
    c: crate::hashes::Hash,
    fuel: nat,
)
    requires
        0 <= j < blues.len() || j == -1,
    ensures
        j >= 0 ==> parallel_count(m, sp, blues, c, fuel) >= (if anticone_rel(
            m,
            blues[j],
            c,
            fuel,
        ) {
            1int
        } else {
            0
        }),
        j == -1 ==> parallel_count(m, sp, blues, c, fuel) >= (if anticone_rel(m, sp, c, fuel) {
            1int
        } else {
            0
        }),
    decreases blues.len(),
{
    if blues.len() == 0 {
    } else {
        lemma_parallel_count_mono(m, sp, blues.drop_last(), 0, c, fuel);
        if j == blues.len() - 1 {
        } else {
            lemma_parallel_count_element(m, sp, blues.drop_last(), j, c, fuel);
        }
    }
}

/// With `k = 0` only a linear chain is blue: under a zero bound every
/// blue's counted anticone is empty, so no blue stands parallel to the
/// selected parent or to any other blue — every block parallel to the
/// chain was classified red.
pub proof fn lemma_zero_k_linear(
    m: Map<crate::hashes::Hash, BlockRelations>,
    sp: crate::hashes::Hash,
    blues: Seq<crate::hashes::Hash>,
    bas: Seq<(crate::hashes::Hash, u64)>,
    k: KType,
    fuel: nat,
)
    requires
        k == 0,
        bas.len() == blues.len(),
        forall|i: int| 0 <= i < bas.len() ==> (#[trigger] bas[i]).1 <= k,
        forall|i: int|
            0 <= i < bas.len() ==> (#[trigger] bas[i]).1 == parallel_count(
                m,
                sp,
                blues,
                blues[i],
                fuel,
            ),
    ensures
        forall|i: int| 0 <= i < blues.len() ==> !anticone_rel(m, sp, #[trigger] blues[i], fuel),
        forall|i: int, j: int|
            0 <= i < blues.len() && 0 <= j < blues.len() && i != j ==> !anticone_rel(
                m,
                #[trigger] blues[j],
                #[trigger] blues[i],
                fuel,
            ),
{
    assert forall|i: int| 0 <= i < blues.len() implies !anticone_rel(
        m,
        sp,
        #[trigger] blues[i],
        fuel,
    ) by {
        lemma_parallel_count_element(m, sp, blues, -1, blues[i], fuel);
        assert(bas[i].1 == parallel_count(m, sp, blues, blues[i], fuel));
    }
    assert forall|i: int, j: int|
        0 <= i < blues.len() && 0 <= j < blues.len() && i != j implies !anticone_rel(
        m,
        #[trigger] blues[j],
        #[trigger] blues[i],
        fuel,
    ) by {
        lemma_parallel_count_element(m, sp, blues, j, blues[i], fuel);
        assert(bas[i].1 == parallel_count(m, sp, blues, blues[i], fuel));
    }
}


/// The target is the block itself or one of its ancestors through parent
/// edges, within the given number of steps. In a well-formed store a fuel
/// of the block count reads the full ancestry.
pub open spec fn reaches(
    m: Map<crate::hashes::Hash, BlockRelations>,
    from: crate::hashes::Hash,
    target: crate::hashes::Hash,
    fuel: nat,
) -> bool
    decreases fuel,
{
    from == target || (fuel > 0 && m.dom().contains(from) && exists|i: int|
        0 <= i < m[from].parents@.len() && reaches(
            m,
            #[trigger] m[from].parents@[i],
            target,
            (fuel - 1) as nat,
        ))
}

/// More fuel reaches no less.
proof fn lemma_reaches_mono(
    m: Map<crate::hashes::Hash, BlockRelations>,
    from: crate::hashes::Hash,
    target: crate::hashes::Hash,
    f1: nat,
    f2: nat,
)
    requires
        reaches(m, from, target, f1),
        f1 <= f2,
    ensures
        reaches(m, from, target, f2),
    decreases f1,
{
    if from != target {
        let i = choose|i: int|
            0 <= i < m[from].parents@.len() && reaches(
                m,
                #[trigger] m[from].parents@[i],
                target,
                (f1 - 1) as nat,
            );
        lemma_reaches_mono(m, m[from].parents@[i], target, (f1 - 1) as nat, (f2 - 1) as nat);
        assert(reaches(m, m[from].parents@[i], target, (f2 - 1) as nat));
    }
}

/// In a well-formed store, every parent of a stored block is stored
/// strictly earlier in the order.
proof fn lemma_any_parent_index(d: &DagStore, h: crate::hashes::Hash, q: int)
    requires
        dag_wf(d),
        d.relations@.dom().contains(h),
        0 <= q < d.relations@[h].parents@.len(),
    ensures
        d.relations@.dom().contains(d.relations@[h].parents@[q]),
        0 <= order_index(d.order@, d.relations@[h].parents@[q]) < order_index(d.order@, h)
            < d.order@.len(),
{
    let p = d.relations@[h].parents@[q];
    let i = order_index(d.order@, h);
    assert(in_prefix(d.order@, h, d.order@.len() as int));
    let wi = choose|j: int| 0 <= j < d.order@.len() && d.order@[j] == h;
    assert(d.order@[i] == h && 0 <= i < d.order@.len());
    assert(rel_wf(d, i));
    assert(in_prefix(d.order@, p, i));
    let pj = choose|j: int| 0 <= j < i && d.order@[j] == p;
    assert(in_prefix(d.order@, p, d.order@.len() as int));
    assert(d.relations@.dom().contains(p));
    let ip = order_index(d.order@, p);
    assert(d.order@[ip] == p && 0 <= ip < d.order@.len());
    if ip >= i {
        assert(d.order@[pj] == d.order@[ip]);
        if pj != ip {
            assert(false);
        }
        assert(false);
    }
}

/// In a well-formed store, any reachability holds already at fuel one
/// past the start block's place in the order, hence at the block count.
proof fn lemma_reaches_bound(
    d: &DagStore,
    from: crate::hashes::Hash,
    target: crate::hashes::Hash,
    f: nat,
)
    requires
        dag_wf(d),
        reaches(d.relations@, from, target, f),
    ensures
        reaches(d.relations@, from, target, d.order@.len() as nat),
    decreases f,
{
    let m = d.relations@;
    if from != target {
        lemma_reaches_tight(d, from, target, f);
        let idx = order_index(d.order@, from);
        assert(in_prefix(d.order@, from, d.order@.len() as int));
        let wi = choose|j: int| 0 <= j < d.order@.len() && d.order@[j] == from;
        assert(d.order@[idx] == from && 0 <= idx < d.order@.len());
        lemma_reaches_mono(m, from, target, (idx + 1) as nat, d.order@.len() as nat);
    }
}

/// In a well-formed store, reachability from a stored block needs no more
/// fuel than one past its place in the order.
proof fn lemma_reaches_tight(
    d: &DagStore,
    from: crate::hashes::Hash,
    target: crate::hashes::Hash,
    f: nat,
)
    requires
        dag_wf(d),
        reaches(d.relations@, from, target, f),
    ensures
        from == target || (d.relations@.dom().contains(from) && reaches(
            d.relations@,
            from,
            target,
            (order_index(d.order@, from) + 1) as nat,
        )),
    decreases f,
{
    let m = d.relations@;
    if from != target {
        let i = choose|i: int|
            0 <= i < m[from].parents@.len() && reaches(
                m,
                #[trigger] m[from].parents@[i],
                target,
                (f - 1) as nat,
            );
        let p = m[from].parents@[i];
        lemma_any_parent_index(d, from, i);
        lemma_reaches_tight(d, p, target, (f - 1) as nat);
        let idx = order_index(d.order@, from);
        if p == target {
            assert(reaches(m, p, target, idx as nat));
        } else {
            lemma_reaches_mono(
                m,
                p,
                target,
                (order_index(d.order@, p) + 1) as nat,
                idx as nat,
            );
        }
        assert(reaches(m, from, target, (idx + 1) as nat));
    }
}

/// Reachability extends along one more parent edge.
proof fn lemma_reaches_edge(
    m: Map<crate::hashes::Hash, BlockRelations>,
    a: crate::hashes::Hash,
    b: crate::hashes::Hash,
    q: int,
    f: nat,
)
    requires
        reaches(m, a, b, f),
        m.dom().contains(b),
        0 <= q < m[b].parents@.len(),
    ensures
        reaches(m, a, m[b].parents@[q], (f + 1) as nat),
    decreases f,
{
    let p = m[b].parents@[q];
    if a == b {
        assert(reaches(m, p, p, f));
        assert(reaches(m, a, p, (f + 1) as nat));
    } else {
        let i = choose|i: int|
            0 <= i < m[a].parents@.len() && reaches(
                m,
                #[trigger] m[a].parents@[i],
                b,
                (f - 1) as nat,
            );
        lemma_reaches_edge(m, m[a].parents@[i], b, q, (f - 1) as nat);
        assert(reaches(m, m[a].parents@[i], p, f));
        assert(reaches(m, a, p, (f + 1) as nat));
    }
}

/// A block reachable through parent edges lies in any set that holds the
/// start and is closed under the parent edges of its stored members.
proof fn lemma_reaches_closed(
    m: Map<crate::hashes::Hash, BlockRelations>,
    s: Set<crate::hashes::Hash>,
    from: crate::hashes::Hash,
    target: crate::hashes::Hash,
    f: nat,
)
    requires
        reaches(m, from, target, f),
        s.contains(from),
        forall|v: crate::hashes::Hash, q: int|
            #[trigger] s.contains(v) && m.dom().contains(v) && 0 <= q < m[v].parents@.len()
                ==> s.contains(#[trigger] m[v].parents@[q]),
    ensures
        s.contains(target),
    decreases f,
{
    if from != target {
        let i = choose|i: int|
            0 <= i < m[from].parents@.len() && reaches(
                m,
                #[trigger] m[from].parents@[i],
                target,
                (f - 1) as nat,
            );
        assert(s.contains(m[from].parents@[i]));
        lemma_reaches_closed(m, s, m[from].parents@[i], target, (f - 1) as nat);
    }
}


/// Some block of the parent list reaches the block.
pub open spec fn from_parent_list(
    m: Map<crate::hashes::Hash, BlockRelations>,
    parents: Seq<crate::hashes::Hash>,
    h: crate::hashes::Hash,
    fuel: nat,
) -> bool {
    exists|j: int| 0 <= j < parents.len() && reaches(m, #[trigger] parents[j], h, fuel)
}

/// The block belongs to the merge set: it is the incoming block's
/// ancestor through some parent named in the levels, and not in the
/// selected parent's reflexive past.
pub open spec fn in_merge_set(
    m: Map<crate::hashes::Hash, BlockRelations>,
    levels: Seq<Vec<crate::hashes::Hash>>,
    sp: crate::hashes::Hash,
    h: crate::hashes::Hash,
    fuel: nat,
) -> bool {
    (exists|p: crate::hashes::Hash|
        #![auto]
        from_levels(levels, p) && reaches(m, p, h, fuel)) && !reaches(m, sp, h, fuel)
}

/// Two blocks are in each other's anticone: neither reaches the other
/// through parent edges.
pub open spec fn anticone_rel(
    m: Map<crate::hashes::Hash, BlockRelations>,
    a: crate::hashes::Hash,
    b: crate::hashes::Hash,
    fuel: nat,
) -> bool {
    !reaches(m, a, b, fuel) && !reaches(m, b, a, fuel)
}

/// The number of listed blues in the candidate's anticone, counting the
/// selected parent as well.
pub open spec fn parallel_count(
    m: Map<crate::hashes::Hash, BlockRelations>,
    sp: crate::hashes::Hash,
    blues: Seq<crate::hashes::Hash>,
    c: crate::hashes::Hash,
    fuel: nat,
) -> int
    decreases blues.len(),
{
    if blues.len() == 0 {
        if anticone_rel(m, sp, c, fuel) {
            1
        } else {
            0
        }
    } else {
        parallel_count(m, sp, blues.drop_last(), c, fuel) + (if anticone_rel(
            m,
            blues.last(),
            c,
            fuel,
        ) {
            1int
        } else {
            0
        })
    }
}

/// The count over a prefix never exceeds the count over the whole list,
/// and counts start at the selected-parent indicator.
proof fn lemma_parallel_count_mono(
    m: Map<crate::hashes::Hash, BlockRelations>,
    sp: crate::hashes::Hash,
    blues: Seq<crate::hashes::Hash>,
    t: int,
    c: crate::hashes::Hash,
    fuel: nat,
)
    requires
        0 <= t <= blues.len(),
    ensures
        parallel_count(m, sp, blues.take(t), c, fuel) <= parallel_count(m, sp, blues, c, fuel),
        parallel_count(m, sp, blues, c, fuel) >= 0,
    decreases blues.len(),
{
    if blues.len() == 0 {
        assert(blues.take(t) =~= blues);
    } else {
        if t == blues.len() {
            assert(blues.take(t) =~= blues);
            lemma_parallel_count_mono(m, sp, blues.drop_last(), blues.len() - 1, c, fuel);
        } else {
            assert(blues.take(t) =~= blues.drop_last().take(t));
            lemma_parallel_count_mono(m, sp, blues.drop_last(), t, c, fuel);
        }
    }
}


/// The classification's blues and reds together are exactly the merge set:
/// they partition the gathered candidates, which the search characterized.
proof fn lemma_partition_glue(
    m: Map<crate::hashes::Hash, BlockRelations>,
    levels: Seq<Vec<crate::hashes::Hash>>,
    sp: crate::hashes::Hash,
    fuel: nat,
    ms: Seq<crate::hashes::Hash>,
    ms_before: Seq<crate::hashes::Hash>,
    blues: Seq<crate::hashes::Hash>,
    reds: Seq<crate::hashes::Hash>,
)
    requires
        forall|x: crate::hashes::Hash| #[trigger] ms.contains(x) <==> ms_before.contains(x),
        forall|h: crate::hashes::Hash|
            #[trigger] ms_before.contains(h) <==> in_merge_set(m, levels, sp, h, fuel),
        forall|i: int| 0 <= i < blues.len() ==> in_prefix(ms, #[trigger] blues[i], ms.len() as int),
        forall|i: int| 0 <= i < reds.len() ==> in_prefix(ms, #[trigger] reds[i], ms.len() as int),
        forall|q: int| 0 <= q < ms.len() ==> blues.contains(#[trigger] ms[q]) || reds.contains(ms[q]),
    ensures
        forall|h: crate::hashes::Hash|
            #![trigger blues.contains(h)]
            #![trigger reds.contains(h)]
            #![trigger in_merge_set(m, levels, sp, h, fuel)]
            (blues.contains(h) || reds.contains(h)) <==> in_merge_set(m, levels, sp, h, fuel),
{
    assert forall|h: crate::hashes::Hash|
        #![trigger blues.contains(h)]
        #![trigger reds.contains(h)]
        #![trigger in_merge_set(m, levels, sp, h, fuel)]
        (blues.contains(h) || reds.contains(h)) <==> in_merge_set(m, levels, sp, h, fuel) by {
        if blues.contains(h) {
            let w = choose|w: int| 0 <= w < blues.len() && blues[w] == h;
            assert(in_prefix(ms, blues[w], ms.len() as int));
            let q = choose|q: int| 0 <= q < ms.len() && ms[q] == h;
            assert(ms.contains(h));
        }
        if reds.contains(h) {
            let w = choose|w: int| 0 <= w < reds.len() && reds[w] == h;
            assert(in_prefix(ms, reds[w], ms.len() as int));
            let q = choose|q: int| 0 <= q < ms.len() && ms[q] == h;
            assert(ms.contains(h));
        }
        if in_merge_set(m, levels, sp, h, fuel) {
            assert(ms_before.contains(h));
            assert(ms.contains(h));
            let q = choose|q: int| 0 <= q < ms.len() && ms[q] == h;
            assert(blues.contains(ms[q]) || reds.contains(ms[q]));
        }
    }
}

} // verus!
