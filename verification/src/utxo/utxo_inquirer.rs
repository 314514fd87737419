//! Read-only UTXO inquiry.

use vstd::prelude::*;
use super::utxo_collection::{OutPoint, UtxoCollection};
use super::utxo_error::UtxoError;
use crate::tx::TxOutput;

verus! {

/// Read-only queries over a UTXO holder.
pub trait UtxoInquirer {
    /// The output an outpoint holds, if any.
    fn get_utxo(&self, outpoint: &OutPoint) -> Option<TxOutput>;

    /// True when the outpoint is unspent.
    fn contains_utxo(&self, outpoint: &OutPoint) -> bool;

    /// The total value locked by a script, clamped at the largest 64-bit
    /// value.
    fn get_balance(&self, script_pubkey: &[u8]) -> u64;
}

/// True when the two byte strings are equal.
fn bytes_eq(a: &Vec<u8>, b: &[u8]) -> (r: bool)
    ensures
        r == (a@ =~= b@),
{
    if a.len() != b.len() {
        return false;
    }
    let mut i: usize = 0;
    while i < a.len()
        invariant
            0 <= i <= a@.len(),
            a@.len() == b@.len(),
            forall|j: int| 0 <= j < i ==> a@[j] == b@[j],
        decreases a@.len() - i,
    {
        if a[i] != b[i] {
            return false;
        }
        i += 1;
    }
    true
}

impl UtxoInquirer for UtxoCollection {
    fn get_utxo(&self, outpoint: &OutPoint) -> Option<TxOutput> {
        self.get(outpoint)
    }

    fn contains_utxo(&self, outpoint: &OutPoint) -> bool {
        self.get(outpoint).is_some()
    }

    fn get_balance(&self, script_pubkey: &[u8]) -> u64 {
        let entries = self.entries();
        let mut total: u64 = 0;
        let mut i: usize = 0;
        while i < entries.len()
            invariant
                0 <= i <= entries@.len(),
            decreases entries@.len() - i,
        {
            let output = &entries[i].1;
            if bytes_eq(&output.script_pubkey, script_pubkey) {
                if u64::MAX - total < output.value {
                    total = u64::MAX;
                } else {
                    total = total + output.value;
                }
            }
            i += 1;
        }
        total
    }
}

/// Error type raised by inquiries.
pub type UtxoInquirerError = UtxoError;

} // verus!
