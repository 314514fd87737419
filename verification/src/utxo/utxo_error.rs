//! Errors of the UTXO engine.

use vstd::prelude::*;
use vstd::string::StringExecFns;
use crate::tx::TransactionOutpoint;

verus! {

/// Errors raised by UTXO operations.
#[derive(Debug, Clone, PartialEq, Eq)]
pub enum UtxoError {
    /// The outpoint is not in the set.
    NotFound(TransactionOutpoint),
    /// The outpoint is already in the set.
    AlreadySpent(TransactionOutpoint),
    /// The output is malformed.
    InvalidOutput(String),
    /// A diff could not be applied.
    DiffApplicationFailed(String),
}

impl UtxoError {
    /// A short rendering of the error kind: each kind yields its fixed
    /// text, and the kinds that carry a message append it.
    pub fn describe(&self) -> (r: String)
        ensures
            self is NotFound ==> r@ == "utxo not found"@,
            self is AlreadySpent ==> r@ == "utxo already spent"@,
            self matches UtxoError::InvalidOutput(msg) ==> r@ == "invalid output: "@ + msg@,
            self matches UtxoError::DiffApplicationFailed(msg) ==> r@
                == "diff application failed: "@ + msg@,
    {
        match self {
            UtxoError::NotFound(_) => "utxo not found".to_owned(),
            UtxoError::AlreadySpent(_) => "utxo already spent".to_owned(),
            UtxoError::InvalidOutput(msg) => String::from_str("invalid output: ").concat(
                msg.as_str(),
            ),
            UtxoError::DiffApplicationFailed(msg) => String::from_str(
                "diff application failed: ",
            ).concat(msg.as_str()),
        }
    }

    /// Maps the error into the consensus error taxonomy: a `Generic`
    /// consensus error carrying this error's rendering.
    pub fn into_consensus(self) -> (r: crate::errors::ConsensusError)
        ensures
            r is Generic,
            self is NotFound ==> (r matches crate::errors::ConsensusError::Generic { msg } && msg@
                == "utxo not found"@),
            self is AlreadySpent ==> (r matches crate::errors::ConsensusError::Generic { msg }
                && msg@ == "utxo already spent"@),
            self matches UtxoError::InvalidOutput(m) ==> (r
                matches crate::errors::ConsensusError::Generic { msg } && msg@
                == "invalid output: "@ + m@),
            self matches UtxoError::DiffApplicationFailed(m) ==> (r
                matches crate::errors::ConsensusError::Generic { msg } && msg@
                == "diff application failed: "@ + m@),
    {
        crate::errors::ConsensusError::Generic { msg: self.describe() }
    }
}

} // verus!
