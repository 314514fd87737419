//! Blocks: the header plus the transaction-hash list, validation of the
//! merkle commitment, and the genesis predicate.

use vstd::prelude::*;
use crate::errors::{ConsensusError, ConsensusResult};
use crate::header::{Header, header_bytes_with_nonce};
use crate::hashing::sha256_of;
use crate::merkle::merkle_root_bytes;

verus! {

/// A block: its header, the hashes of its transactions in block order, and
/// the GHOSTDAG verdict once the engine has attached one.
#[derive(Debug, Clone, PartialEq, Eq)]
pub struct Block {
    pub header: Header,
    pub transactions: Vec<crate::hashes::Hash>,
    pub ghostdag_data: Option<crate::ghostdag::GhostDagData>,
}

impl Block {
    /// Creates a block with no GHOSTDAG data attached.
    pub fn new(header: Header, transactions: Vec<crate::hashes::Hash>) -> (r: Block)
        ensures
            r.header == header,
            r.transactions == transactions,
            r.ghostdag_data is None,
    {
        Block { header, transactions, ghostdag_data: None }
    }

    /// Validates the merkle commitment: succeeds exactly when the header's
    /// merkle root is the root of the block's transaction list.
    pub fn validate(&self) -> (r: ConsensusResult<()>)
        ensures
            r.is_ok() <==> self.header.merkle_root.bytes() == merkle_root_bytes(
                self.transactions@,
            ),
            !r.is_ok() ==> r->Err_0 is MerkleRootMismatch,
    {
        let computed = crate::merkle::calculate_merkle_root(&self.transactions);
        if self.header.merkle_root == computed {
            Ok(())
        } else {
            proof {
                if self.header.merkle_root.bytes() == merkle_root_bytes(self.transactions@) {
                    crate::hashes::lemma_hash_bytes_injective(self.header.merkle_root, computed);
                }
            }
            Err(ConsensusError::MerkleRootMismatch)
        }
    }

    /// The block hash is the header hash.
    pub fn hash(&self) -> (r: crate::hashes::Hash)
        requires
            self.header.counts_fit(),
        ensures
            r.bytes() == sha256_of(header_bytes_with_nonce(self.header, self.header.nonce)),
    {
        self.header.hash()
    }

    /// The genesis predicate: every parent level of the header is empty.
    pub fn is_genesis(&self) -> (r: bool)
        ensures
            r == self.header.spec_is_genesis(),
    {
        let mut i: usize = 0;
        while i < self.header.parents_by_level.len()
            invariant
                0 <= i <= self.header.parents_by_level@.len(),
                forall|j: int| 0 <= j < i ==> self.header.parents_by_level@[j]@.len() == 0,
            decreases self.header.parents_by_level@.len() - i,
        {
            if self.header.parents_by_level[i].len() != 0 {
                return false;
            }
            i += 1;
        }
        true
    }
}

/// A block template for mining.
#[derive(Debug, Clone)]
pub struct BlockTemplate {
    pub header: Header,
    pub transactions: Vec<crate::hashes::Hash>,
}

impl Default for BlockTemplate {
    /// The default template has the default header and no transactions.
    fn default() -> (r: BlockTemplate)
        ensures
            r.header.spec_is_genesis(),
            r.transactions@.len() == 0,
    {
        BlockTemplate { header: Header::new(), transactions: Vec::new() }
    }
}

/// How a block template is built.
#[derive(Debug, Clone, Copy, PartialEq, Eq, Structural)]
pub enum TemplateBuildMode {
    Standard,
}

/// A source of transactions for block templates, implemented by the host.
pub trait TemplateTransactionSelector {
    /// Picks the transaction hashes for the next template.
    fn select_transactions(&self) -> Vec<crate::hashes::Hash>;
}

/// An approximation identifier for a virtual state.
#[derive(Debug, Clone, Copy, PartialEq, Eq, Structural)]
pub struct VirtualStateApproxId(pub u64);

impl Default for VirtualStateApproxId {
    /// The default identifier is zero.
    fn default() -> (r: VirtualStateApproxId)
        ensures
            r.0 == 0,
    {
        VirtualStateApproxId(0)
    }
}

} // verus!
