//! Block status in the consensus lifecycle.

use vstd::prelude::*;

verus! {

/// The status of a block: `Invalid` is terminal, the others are ordered
/// promotion stages.
#[derive(Debug, Clone, Copy, PartialEq, Eq, Structural)]
pub enum BlockStatus {
    /// The block is invalid.
    Invalid,
    /// The block passed validation but is not accepted.
    Valid,
    /// The block is accepted into the DAG.
    Accepted,
    /// The block is part of the selected chain.
    MainChain,
}

impl BlockStatus {
    /// Every status but `Invalid` counts as valid.
    pub fn is_valid(&self) -> (r: bool)
        ensures
            r == !(*self is Invalid),
    {
        match self {
            BlockStatus::Invalid => false,
            _ => true,
        }
    }

    /// Only `Accepted` and `MainChain` count as accepted.
    pub fn is_accepted(&self) -> (r: bool)
        ensures
            r == (*self is Accepted || *self is MainChain),
    {
        match self {
            BlockStatus::Accepted | BlockStatus::MainChain => true,
            _ => false,
        }
    }
}

} // verus!
