//! The binary merkle commitment over the transaction-hash sequence, and
//! merkle proof verification.
//!
//! The tree over a non-empty range bisects it at `start + (end - start) / 2`;
//! a leaf is the transaction hash itself, an internal node is the double
//! SHA-256 of the two child hashes concatenated, and the empty sequence
//! commits to the all-zero hash.

use vstd::prelude::*;
use crate::hashing::sha256_of;
use crate::errors::ConsensusResult;

verus! {

/// The root hash bytes of the tree over `hashes[start ..= end]`.
pub open spec fn merkle_range_bytes(hashes: Seq<crate::hashes::Hash>, start: int, end: int) -> Seq<
    u8,
>
    decreases end - start,
{
    if start >= end {
        hashes[start].bytes()
    } else {
        let mid = start + (end - start) / 2;
        sha256_of(
            sha256_of(merkle_range_bytes(hashes, start, mid) + merkle_range_bytes(hashes, mid + 1, end)),
        )
    }
}

/// The root hash bytes of the merkle commitment over a hash sequence; the
/// empty sequence commits to the all-zero hash.
pub open spec fn merkle_root_bytes(hashes: Seq<crate::hashes::Hash>) -> Seq<u8> {
    if hashes.len() == 0 {
        crate::hashes::Hash::zero().bytes()
    } else {
        merkle_range_bytes(hashes, 0, hashes.len() - 1)
    }
}

/// A node of the merkle tree, carrying its hash.
pub enum MerkleNode {
    Leaf(crate::hashes::Hash),
    Internal(crate::hashes::Hash, Box<MerkleNode>, Box<MerkleNode>),
}

impl MerkleNode {
    /// The hash this node carries.
    pub open spec fn spec_hash(&self) -> crate::hashes::Hash {
        match self {
            MerkleNode::Leaf(h) => *h,
            MerkleNode::Internal(h, _, _) => *h,
        }
    }

    /// The hash this node carries.
    pub fn node_hash(&self) -> (r: crate::hashes::Hash)
        ensures
            r == self.spec_hash(),
    {
        match self {
            MerkleNode::Leaf(h) => *h,
            MerkleNode::Internal(h, _, _) => *h,
        }
    }
}

/// The merkle tree over a transaction-hash sequence.
pub struct MerkleTree {
    root: MerkleNode,
}

impl MerkleTree {
    /// The root node's hash.
    pub closed spec fn spec_root(&self) -> crate::hashes::Hash {
        self.root.spec_hash()
    }

    /// Builds the merkle tree over the transaction hashes.
    pub fn from_tx_hashes(tx_hashes: &Vec<crate::hashes::Hash>) -> (r: ConsensusResult<MerkleTree>)
        ensures
            r is Ok,
            r->Ok_0.spec_root().bytes() == merkle_root_bytes(tx_hashes@),
    {
        if tx_hashes.len() == 0 {
            let root = MerkleNode::Leaf(crate::hashes::Hash::default());
            return Ok(MerkleTree { root });
        }
        let root = build_tree(tx_hashes, 0, tx_hashes.len() - 1);
        Ok(MerkleTree { root })
    }

    /// The root hash of the commitment.
    pub fn root(&self) -> (r: crate::hashes::Hash)
        ensures
            r == self.spec_root(),
    {
        self.root.node_hash()
    }

    /// Verifies a merkle proof: the ordered sibling hashes, each flagged
    /// true when the sibling stands on the left, must fold the leaf hash
    /// into the claimed root.
    pub fn verify_proof(
        tx_hash: crate::hashes::Hash,
        root: crate::hashes::Hash,
        steps: &Vec<(crate::hashes::Hash, bool)>,
    ) -> (r: bool)
        ensures
            r == (fold_proof_bytes(tx_hash, steps@) == root.bytes()),
    {
        let mut cur = tx_hash;
        let mut i: usize = 0;
        while i < steps.len()
            invariant
                0 <= i <= steps@.len(),
                cur.bytes() == fold_proof_bytes(tx_hash, steps@.take(i as int)),
            decreases steps@.len() - i,
        {
            let (sibling, sibling_on_left) = steps[i];
            let mut combined: Vec<u8> = Vec::new();
            if sibling_on_left {
                let mut sb = sibling.as_bytes();
                combined.append(&mut sb);
                let mut cb = cur.as_bytes();
                combined.append(&mut cb);
            } else {
                let mut cb = cur.as_bytes();
                combined.append(&mut cb);
                let mut sb = sibling.as_bytes();
                combined.append(&mut sb);
            }
            proof {
                assert(steps@.take(i + 1int).drop_last() =~= steps@.take(i as int));
                assert(steps@.take(i + 1int).last() == steps@[i as int]);
            }
            cur = crate::hashing::double_sha256(combined.as_slice());
            i += 1;
        }
        proof {
            assert(steps@.take(steps@.len() as int) =~= steps@);
            crate::hashes::lemma_value_order(cur, root);
        }
        if cur == root {
            true
        } else {
            proof {
                if fold_proof_bytes(tx_hash, steps@) == root.bytes() {
                    crate::hashes::lemma_hash_bytes_injective(cur, root);
                }
            }
            false
        }
    }
}

/// The hash bytes a proof folds a leaf into: combine with each sibling in
/// order, on the flagged side.
pub open spec fn fold_proof_bytes(
    leaf: crate::hashes::Hash,
    steps: Seq<(crate::hashes::Hash, bool)>,
) -> Seq<u8>
    decreases steps.len(),
{
    if steps.len() == 0 {
        leaf.bytes()
    } else {
        let prev = fold_proof_bytes(leaf, steps.drop_last());
        let sibling = steps.last().0;
        if steps.last().1 {
            sha256_of(sha256_of(sibling.bytes() + prev))
        } else {
            sha256_of(sha256_of(prev + sibling.bytes()))
        }
    }
}

/// Builds the tree over `tx_hashes[start ..= end]`.
fn build_tree(tx_hashes: &Vec<crate::hashes::Hash>, start: usize, end: usize) -> (r: MerkleNode)
    requires
        0 <= start <= end < tx_hashes@.len(),
    ensures
        r.spec_hash().bytes() == merkle_range_bytes(tx_hashes@, start as int, end as int),
    decreases end - start,
{
    if start == end {
        return MerkleNode::Leaf(tx_hashes[start]);
    }
    let mid = start + (end - start) / 2;
    let left = build_tree(tx_hashes, start, mid);
    let right = build_tree(tx_hashes, mid + 1, end);
    let left_hash = left.node_hash();
    let right_hash = right.node_hash();
    let mut combined = left_hash.as_bytes();
    let mut rb = right_hash.as_bytes();
    combined.append(&mut rb);
    let node_hash = crate::hashing::double_sha256(combined.as_slice());
    MerkleNode::Internal(node_hash, Box::new(left), Box::new(right))
}

/// The merkle root of a transaction-hash sequence.
pub fn calculate_merkle_root(tx_hashes: &Vec<crate::hashes::Hash>) -> (r: crate::hashes::Hash)
    ensures
        r.bytes() == merkle_root_bytes(tx_hashes@),
{
    if tx_hashes.len() == 0 {
        return crate::hashes::Hash::default();
    }
    let tree = match MerkleTree::from_tx_hashes(tx_hashes) {
        Ok(tree) => tree,
        Err(_) => MerkleTree { root: MerkleNode::Leaf(crate::hashes::Hash::default()) },
    };
    tree.root()
}

} // verus!
