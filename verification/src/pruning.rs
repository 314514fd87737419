//! The pruning index: the pruning point and the set of pruned blocks.
//! The index only advertises what is safe to evict; eviction itself is
//! the storage layer's business.

use vstd::prelude::*;
use crate::maps::BlockHashSet;

verus! {

/// The pruning point and the pruned-hash set.
#[derive(Debug)]
pub struct PruningManager {
    pub pruning_point: crate::hashes::Hash,
    pub pruned_blocks: BlockHashSet,
}

impl PruningManager {
    /// Creates an index with the all-zero pruning point and nothing
    /// pruned.
    pub fn new() -> (r: PruningManager)
        ensures
            r.pruning_point == crate::hashes::Hash::zero(),
            r.pruned_blocks@ == Set::<crate::hashes::Hash>::empty(),
    {
        PruningManager {
            pruning_point: crate::hashes::Hash::default(),
            pruned_blocks: BlockHashSet::new(),
        }
    }

    /// Moves the pruning point.
    pub fn set_pruning_point(&mut self, point: crate::hashes::Hash)
        ensures
            final(self).pruning_point == point,
            final(self).pruned_blocks@ == old(self).pruned_blocks@,
    {
        self.pruning_point = point;
    }

    /// Records a block as pruned.
    pub fn prune_block(&mut self, block_hash: crate::hashes::Hash)
        ensures
            final(self).pruned_blocks@ == old(self).pruned_blocks@.insert(block_hash),
            final(self).pruning_point == old(self).pruning_point,
    {
        let _ = self.pruned_blocks.insert(block_hash);
    }

    /// True when the block is recorded as pruned.
    pub fn is_pruned(&self, block_hash: &crate::hashes::Hash) -> (r: bool)
        ensures
            r == self.pruned_blocks@.contains(*block_hash),
    {
        self.pruned_blocks.contains(block_hash)
    }
}

impl Default for PruningManager {
    /// The default index has pruned nothing.
    fn default() -> (r: PruningManager)
        ensures
            r.pruning_point == crate::hashes::Hash::zero(),
            r.pruned_blocks@ == Set::<crate::hashes::Hash>::empty(),
    {
        PruningManager::new()
    }
}

/// A proof that a pruning point is legitimate.
#[derive(Debug, Clone)]
pub struct PruningPointProof {
    pub data: Vec<u8>,
}

impl Default for PruningPointProof {
    /// The default proof is empty.
    fn default() -> (r: PruningPointProof)
        ensures
            r.data@.len() == 0,
    {
        PruningPointProof { data: Vec::new() }
    }
}

/// Trusted data accompanying a pruning point.
#[derive(Debug, Clone)]
pub struct PruningPointTrustedData {
    pub data: Vec<u8>,
}

impl Default for PruningPointTrustedData {
    /// The default record is empty.
    fn default() -> (r: PruningPointTrustedData)
        ensures
            r.data@.len() == 0,
    {
        PruningPointTrustedData { data: Vec::new() }
    }
}

/// A list of pruning points.
#[derive(Debug, Clone)]
pub struct PruningPointsList {
    pub points: Vec<crate::hashes::Hash>,
}

impl Default for PruningPointsList {
    /// The default list is empty.
    fn default() -> (r: PruningPointsList)
        ensures
            r.points@.len() == 0,
    {
        PruningPointsList { points: Vec::new() }
    }
}

/// Metadata attached to a pruning proof.
#[derive(Debug, Clone)]
pub struct PruningProofMetadata {
    pub data: Vec<u8>,
}

impl Default for PruningProofMetadata {
    /// The default record is empty.
    fn default() -> (r: PruningProofMetadata)
        ensures
            r.data@.len() == 0,
    {
        PruningProofMetadata { data: Vec::new() }
    }
}

} // verus!
