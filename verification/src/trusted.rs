//! Trusted nodes and the data imported from them.

use vstd::prelude::*;

verus! {

/// A node and whether it is trusted.
#[derive(Debug, Clone)]
pub struct TrustedNode {
    pub id: crate::hashes::Hash,
    pub is_trusted: bool,
}

impl TrustedNode {
    /// Creates a node record.
    pub fn new(id: crate::hashes::Hash, is_trusted: bool) -> (r: TrustedNode)
        ensures
            r.id == id,
            r.is_trusted == is_trusted,
    {
        TrustedNode { id, is_trusted }
    }

    /// Whether the node is trusted.
    pub fn is_trusted(&self) -> (r: bool)
        ensures
            r == self.is_trusted,
    {
        self.is_trusted
    }
}

/// The set of known nodes.
#[derive(Debug)]
pub struct TrustedData {
    pub nodes: Vec<TrustedNode>,
}

impl TrustedData {
    /// Creates an empty set.
    pub fn new() -> (r: TrustedData)
        ensures
            r.nodes@.len() == 0,
    {
        TrustedData { nodes: Vec::new() }
    }

    /// Records a node.
    pub fn add_node(&mut self, node: TrustedNode)
        ensures
            final(self).nodes@ == old(self).nodes@.push(node),
    {
        self.nodes.push(node);
    }

    /// The trusted nodes among those recorded.
    pub fn trusted_nodes(&self) -> (r: Vec<&TrustedNode>)
        ensures
            forall|i: int| 0 <= i < r@.len() ==> (#[trigger] r@[i]).is_trusted,
            r@.len() <= self.nodes@.len(),
    {
        let mut r: Vec<&TrustedNode> = Vec::new();
        let mut i: usize = 0;
        while i < self.nodes.len()
            invariant
                0 <= i <= self.nodes@.len(),
                r@.len() <= i,
                forall|j: int| 0 <= j < r@.len() ==> (#[trigger] r@[j]).is_trusted,
            decreases self.nodes@.len() - i,
        {
            if self.nodes[i].is_trusted {
                r.push(&self.nodes[i]);
            }
            i += 1;
        }
        r
    }
}

impl Default for TrustedData {
    /// The default set is empty.
    fn default() -> (r: TrustedData)
        ensures
            r.nodes@.len() == 0,
    {
        TrustedData::new()
    }
}

/// GHOSTDAG data carried in from outside the engine.
#[derive(Debug, Clone)]
pub struct ExternalGhostdagData {
    pub data: Vec<u8>,
}

impl Default for ExternalGhostdagData {
    /// The default record is empty.
    fn default() -> (r: ExternalGhostdagData)
        ensures
            r.data@.len() == 0,
    {
        ExternalGhostdagData { data: Vec::new() }
    }
}

/// A block imported from a trusted source.
#[derive(Debug, Clone)]
pub struct TrustedBlock {
    pub hash: crate::hashes::Hash,
    pub data: Vec<u8>,
}

impl Default for TrustedBlock {
    /// The default record is empty.
    fn default() -> (r: TrustedBlock)
        ensures
            r.hash == crate::hashes::Hash::zero(),
            r.data@.len() == 0,
    {
        TrustedBlock { hash: crate::hashes::Hash::default(), data: Vec::new() }
    }
}

} // verus!
