//! Flags steering transaction validation.

use vstd::prelude::*;

verus! {

/// Flags for validating a single transaction.
#[derive(Debug, Clone, Copy, PartialEq, Eq, Structural)]
pub struct TransactionValidationArgs {
    /// Accept transactions that are not yet final.
    pub allow_non_final: bool,
    /// Accept transactions whose inputs are not yet known.
    pub allow_orphans: bool,
}

impl Default for TransactionValidationArgs {
    /// By default nothing unusual is accepted.
    fn default() -> (r: TransactionValidationArgs)
        ensures
            r.allow_non_final == false,
            r.allow_orphans == false,
    {
        TransactionValidationArgs { allow_non_final: false, allow_orphans: false }
    }
}

/// Flags for validating a batch of transactions.
#[derive(Debug, Clone, Copy, PartialEq, Eq, Structural)]
pub struct TransactionValidationBatchArgs {
    /// Accept transactions that are not yet final.
    pub allow_non_final: bool,
    /// Accept transactions whose inputs are not yet known.
    pub allow_orphans: bool,
}

impl Default for TransactionValidationBatchArgs {
    /// By default nothing unusual is accepted.
    fn default() -> (r: TransactionValidationBatchArgs)
        ensures
            r.allow_non_final == false,
            r.allow_orphans == false,
    {
        TransactionValidationBatchArgs { allow_non_final: false, allow_orphans: false }
    }
}

} // verus!
