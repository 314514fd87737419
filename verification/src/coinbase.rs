//! Coinbase transactions: creation and validation.

use vstd::prelude::*;
use vstd::string::StringExecFns;
use crate::tx::{Transaction, TxInput, TxOutput};
use crate::errors::{ConsensusError, ConsensusResult};

verus! {

/// Extra data a miner attaches to its coinbase.
#[derive(Debug, Clone)]
pub struct MinerData {
    pub extra_data: Vec<u8>,
}

impl Default for MinerData {
    /// The default miner data is empty.
    fn default() -> (r: MinerData)
        ensures
            r.extra_data@.len() == 0,
    {
        MinerData { extra_data: Vec::new() }
    }
}

/// Builds the coinbase transaction for a mining reward: one input with
/// the all-zero previous hash, one output carrying the reward.
pub fn create_coinbase_transaction(reward: u64, script_pubkey: Vec<u8>) -> (r: Transaction)
    ensures
        r.version == 1,
        r.inputs@.len() == 1,
        r.inputs@[0].prev_tx_hash == crate::hashes::Hash::zero(),
        r.inputs@[0].index == 0,
        r.inputs@[0].script_sig@.len() == 0,
        r.inputs@[0].sequence == 0,
        r.outputs@.len() == 1,
        r.outputs@[0].value == reward,
        r.outputs@[0].script_pubkey == script_pubkey,
        r.lock_time == 0,
{
    let input = TxInput {
        prev_tx_hash: crate::hashes::Hash::default(),
        index: 0,
        script_sig: Vec::new(),
        sequence: 0,
    };
    let output = TxOutput { value: reward, script_pubkey };
    let mut inputs = Vec::new();
    inputs.push(input);
    let mut outputs = Vec::new();
    outputs.push(output);
    Transaction::new(1, inputs, outputs, 0)
}

/// Validates a coinbase transaction: it must satisfy the coinbase
/// predicate and carry exactly one output.
pub fn validate_coinbase(tx: &Transaction) -> (r: ConsensusResult<()>)
    ensures
        r.is_ok() <==> (tx.inputs@.len() == 1 && tx.inputs@[0].prev_tx_hash
            == crate::hashes::Hash::zero() && tx.outputs@.len() == 1),
        !r.is_ok() ==> r->Err_0 is TransactionValidation,
{
    if !tx.is_coinbase() {
        return Err(
            ConsensusError::TransactionValidation {
                msg: "not a coinbase transaction".to_owned(),
            },
        );
    }
    if tx.outputs.len() != 1 {
        return Err(
            ConsensusError::TransactionValidation {
                msg: "coinbase must have exactly one output".to_owned(),
            },
        );
    }
    Ok(())
}

} // verus!
