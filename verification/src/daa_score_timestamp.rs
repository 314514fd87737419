//! Difficulty-adjustment score and timestamp pairs.

use vstd::prelude::*;
use vstd::string::StringExecFns;
use crate::errors::{ConsensusError, ConsensusResult};

verus! {

/// A difficulty-adjustment score together with its timestamp.
#[derive(Debug, Clone, PartialEq, Eq, Structural)]
pub struct DaaScoreTimestamp {
    pub daa_score: u64,
    pub timestamp: u64,
}

impl DaaScoreTimestamp {
    /// Creates a pair.
    pub fn new(daa_score: u64, timestamp: u64) -> (r: DaaScoreTimestamp)
        ensures
            r.daa_score == daa_score,
            r.timestamp == timestamp,
    {
        DaaScoreTimestamp { daa_score, timestamp }
    }

    /// A pair is valid exactly when its timestamp is nonzero.
    pub fn validate(&self) -> (r: ConsensusResult<()>)
        ensures
            r.is_ok() <==> self.timestamp != 0,
            !r.is_ok() ==> r->Err_0 is Generic,
    {
        if self.timestamp == 0 {
            return Err(ConsensusError::Generic { msg: "timestamp cannot be zero".to_owned() });
        }
        Ok(())
    }
}

} // verus!
