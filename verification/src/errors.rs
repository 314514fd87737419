//! The flat error taxonomy surfaced by the consensus core.

use vstd::prelude::*;
use vstd::string::StringExecFns;

verus! {

/// Consensus core errors.
#[derive(Debug, Clone, PartialEq, Eq)]
pub enum ConsensusError {
    BlockHashMismatch { expected: crate::hashes::Hash, actual: crate::hashes::Hash },
    InvalidBlockHeader { msg: String },
    TransactionValidation { msg: String },
    UtxoNotFound { output: crate::hashes::Hash },
    InsufficientFunds,
    InvalidSignature,
    ScriptValidation { msg: String },
    MerkleRootMismatch,
    MiningRuleViolation { msg: String },
    DaaScoreCalculationFailed,
    InvalidKParameter { k: crate::KType },
    Pruning { msg: String },
    NetworkProtocol { msg: String },
    MissingGhostDagData,
    InvalidSelectedParent,
    NoValidParent,
    NoTips,
    NoCommonAncestor,
    InvalidAnticone,
    Generic { msg: String },
}

impl ConsensusError {
    /// A short rendering of the error kind, with the carried message where
    /// one exists: each kind yields its fixed text, and the kinds that
    /// carry a message append it.
    pub fn describe(&self) -> (r: String)
        ensures
            self is BlockHashMismatch ==> r@ == "block hash mismatch"@,
            self matches ConsensusError::InvalidBlockHeader { msg } ==> r@
                == "invalid block header: "@ + msg@,
            self matches ConsensusError::TransactionValidation { msg } ==> r@
                == "transaction validation failed: "@ + msg@,
            self is UtxoNotFound ==> r@ == "utxo not found"@,
            self is InsufficientFunds ==> r@ == "insufficient funds in transaction"@,
            self is InvalidSignature ==> r@ == "invalid signature"@,
            self matches ConsensusError::ScriptValidation { msg } ==> r@
                == "script validation failed: "@ + msg@,
            self is MerkleRootMismatch ==> r@ == "merkle root mismatch"@,
            self matches ConsensusError::MiningRuleViolation { msg } ==> r@
                == "mining rule violation: "@ + msg@,
            self is DaaScoreCalculationFailed ==> r@ == "daa score calculation failed"@,
            self is InvalidKParameter ==> r@ == "ghostdag k parameter out of bounds"@,
            self matches ConsensusError::Pruning { msg } ==> r@ == "pruning error: "@ + msg@,
            self matches ConsensusError::NetworkProtocol { msg } ==> r@
                == "network protocol error: "@ + msg@,
            self is MissingGhostDagData ==> r@ == "missing ghostdag data for block"@,
            self is InvalidSelectedParent ==> r@ == "invalid selected parent in ghostdag data"@,
            self is NoValidParent ==> r@ == "no valid parent found for block"@,
            self is NoTips ==> r@ == "no tips found in the dag"@,
            self is NoCommonAncestor ==> r@ == "no common ancestor found for reorganization"@,
            self is InvalidAnticone ==> r@ == "invalid anticone calculation"@,
            self matches ConsensusError::Generic { msg } ==> r@ == "consensus error: "@ + msg@,
    {
        match self {
            ConsensusError::BlockHashMismatch { .. } => "block hash mismatch".to_owned(),
            ConsensusError::InvalidBlockHeader { msg } => String::from_str("invalid block header: ").concat(
                msg.as_str(),
            ),
            ConsensusError::TransactionValidation { msg } => String::from_str("transaction validation failed: ").concat(msg.as_str()),
            ConsensusError::UtxoNotFound { .. } => "utxo not found".to_owned(),
            ConsensusError::InsufficientFunds => "insufficient funds in transaction".to_owned(),
            ConsensusError::InvalidSignature => "invalid signature".to_owned(),
            ConsensusError::ScriptValidation { msg } => String::from_str("script validation failed: ").concat(
                msg.as_str(),
            ),
            ConsensusError::MerkleRootMismatch => "merkle root mismatch".to_owned(),
            ConsensusError::MiningRuleViolation { msg } => String::from_str("mining rule violation: ").concat(
                msg.as_str(),
            ),
            ConsensusError::DaaScoreCalculationFailed => "daa score calculation failed".to_owned(),
            ConsensusError::InvalidKParameter { .. } => "ghostdag k parameter out of bounds"
                .to_owned(),
            ConsensusError::Pruning { msg } => String::from_str("pruning error: ").concat(msg.as_str()),
            ConsensusError::NetworkProtocol { msg } => String::from_str("network protocol error: ").concat(
                msg.as_str(),
            ),
            ConsensusError::MissingGhostDagData => "missing ghostdag data for block".to_owned(),
            ConsensusError::InvalidSelectedParent => "invalid selected parent in ghostdag data"
                .to_owned(),
            ConsensusError::NoValidParent => "no valid parent found for block".to_owned(),
            ConsensusError::NoTips => "no tips found in the dag".to_owned(),
            ConsensusError::NoCommonAncestor => "no common ancestor found for reorganization"
                .to_owned(),
            ConsensusError::InvalidAnticone => "invalid anticone calculation".to_owned(),
            ConsensusError::Generic { msg } => String::from_str("consensus error: ").concat(msg.as_str()),
        }
    }
}

/// Result type alias for consensus operations.
pub type ConsensusResult<T> = Result<T, ConsensusError>;

} // verus!
