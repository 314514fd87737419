//! Counters over consensus operations.

use vstd::prelude::*;
use std::collections::HashMap;

verus! {

/// Counters for consensus operations; each saturates at its maximum.
#[derive(Debug, Clone, Copy, PartialEq, Eq, Structural)]
pub struct Counters {
    /// Number of blocks processed.
    pub blocks_processed: u64,
    /// Number of transactions validated.
    pub transactions_validated: u64,
    /// Number of validation errors.
    pub validation_errors: u64,
    /// Number of blocks rejected.
    pub blocks_rejected: u64,
    /// Number of pruning operations.
    pub pruning_operations: u64,
}

impl Default for Counters {
    /// All counters start at zero.
    fn default() -> (r: Counters)
        ensures
            r.blocks_processed == 0,
            r.transactions_validated == 0,
            r.validation_errors == 0,
            r.blocks_rejected == 0,
            r.pruning_operations == 0,
    {
        Counters {
            blocks_processed: 0,
            transactions_validated: 0,
            validation_errors: 0,
            blocks_rejected: 0,
            pruning_operations: 0,
        }
    }
}

/// Saturating increment.
fn bump(v: u64, by: u64) -> (r: u64)
    ensures
        r == if v + by <= u64::MAX {
            v + by
        } else {
            u64::MAX as int
        },
{
    if v > u64::MAX - by {
        u64::MAX
    } else {
        v + by
    }
}

impl Counters {
    /// Counts one processed block.
    pub fn increment_blocks_processed(&mut self)
        ensures
            final(self).blocks_processed == if old(self).blocks_processed < u64::MAX {
                old(self).blocks_processed + 1
            } else {
                u64::MAX as int
            },
            final(self).transactions_validated == old(self).transactions_validated,
            final(self).validation_errors == old(self).validation_errors,
            final(self).blocks_rejected == old(self).blocks_rejected,
            final(self).pruning_operations == old(self).pruning_operations,
    {
        self.blocks_processed = bump(self.blocks_processed, 1);
    }

    /// Counts validated transactions.
    pub fn increment_transactions_validated(&mut self, count: u64)
        ensures
            final(self).transactions_validated == if old(self).transactions_validated + count
                <= u64::MAX {
                old(self).transactions_validated + count
            } else {
                u64::MAX as int
            },
            final(self).blocks_processed == old(self).blocks_processed,
            final(self).validation_errors == old(self).validation_errors,
            final(self).blocks_rejected == old(self).blocks_rejected,
            final(self).pruning_operations == old(self).pruning_operations,
    {
        self.transactions_validated = bump(self.transactions_validated, count);
    }

    /// Counts one validation error.
    pub fn increment_validation_errors(&mut self)
        ensures
            final(self).validation_errors == if old(self).validation_errors < u64::MAX {
                old(self).validation_errors + 1
            } else {
                u64::MAX as int
            },
            final(self).blocks_processed == old(self).blocks_processed,
            final(self).transactions_validated == old(self).transactions_validated,
            final(self).blocks_rejected == old(self).blocks_rejected,
            final(self).pruning_operations == old(self).pruning_operations,
    {
        self.validation_errors = bump(self.validation_errors, 1);
    }

    /// Counts one rejected block.
    pub fn increment_blocks_rejected(&mut self)
        ensures
            final(self).blocks_rejected == if old(self).blocks_rejected < u64::MAX {
                old(self).blocks_rejected + 1
            } else {
                u64::MAX as int
            },
            final(self).blocks_processed == old(self).blocks_processed,
            final(self).transactions_validated == old(self).transactions_validated,
            final(self).validation_errors == old(self).validation_errors,
            final(self).pruning_operations == old(self).pruning_operations,
    {
        self.blocks_rejected = bump(self.blocks_rejected, 1);
    }

    /// Counts one pruning operation.
    pub fn increment_pruning_operations(&mut self)
        ensures
            final(self).pruning_operations == if old(self).pruning_operations < u64::MAX {
                old(self).pruning_operations + 1
            } else {
                u64::MAX as int
            },
            final(self).blocks_processed == old(self).blocks_processed,
            final(self).transactions_validated == old(self).transactions_validated,
            final(self).validation_errors == old(self).validation_errors,
            final(self).blocks_rejected == old(self).blocks_rejected,
    {
        self.pruning_operations = bump(self.pruning_operations, 1);
    }

    /// A snapshot of the counter values, by name.
    pub fn get_snapshot(&self) -> HashMap<&'static str, u64> {
        let mut snapshot: HashMap<&'static str, u64> = HashMap::new();
        snapshot.insert("blocks_processed", self.blocks_processed);
        snapshot.insert("transactions_validated", self.transactions_validated);
        snapshot.insert("validation_errors", self.validation_errors);
        snapshot.insert("blocks_rejected", self.blocks_rejected);
        snapshot.insert("pruning_operations", self.pruning_operations);
        snapshot
    }

    /// Resets every counter to zero.
    pub fn reset(&mut self)
        ensures
            final(self).blocks_processed == 0,
            final(self).transactions_validated == 0,
            final(self).validation_errors == 0,
            final(self).blocks_rejected == 0,
            final(self).pruning_operations == 0,
    {
        self.blocks_processed = 0;
        self.transactions_validated = 0;
        self.validation_errors = 0;
        self.blocks_rejected = 0;
        self.pruning_operations = 0;
    }
}

} // verus!
