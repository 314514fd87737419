//! Acceptance data recorded when blocks enter the selected chain.

use vstd::prelude::*;
use vstd::string::StringExecFns;
use crate::errors::{ConsensusError, ConsensusResult};

verus! {

/// The transactions and blocks a chain step accepted.
#[derive(Debug, Clone, PartialEq, Eq)]
pub struct AcceptanceData {
    pub accepted_tx_ids: Vec<crate::hashes::Hash>,
    pub accepted_block_hashes: Vec<crate::hashes::Hash>,
}

impl AcceptanceData {
    /// Creates an acceptance record.
    pub fn new(
        accepted_tx_ids: Vec<crate::hashes::Hash>,
        accepted_block_hashes: Vec<crate::hashes::Hash>,
    ) -> (r: AcceptanceData)
        ensures
            r.accepted_tx_ids == accepted_tx_ids,
            r.accepted_block_hashes == accepted_block_hashes,
    {
        AcceptanceData { accepted_tx_ids, accepted_block_hashes }
    }

    /// A record must accept at least one transaction.
    pub fn validate(&self) -> (r: ConsensusResult<()>)
        ensures
            r.is_ok() <==> self.accepted_tx_ids@.len() > 0,
            !r.is_ok() ==> r->Err_0 is Generic,
    {
        if self.accepted_tx_ids.len() == 0 {
            return Err(ConsensusError::Generic { msg: "no accepted transactions".to_owned() });
        }
        Ok(())
    }
}

} // verus!
