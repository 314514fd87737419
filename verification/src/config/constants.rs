//! Performance parameters for tuning consensus behavior.

use vstd::prelude::*;
use crate::config::params::Params;

verus! {

/// The number of processors available. Relies on num_cpus::get, which
/// reports at least one; the value depends on the machine.
#[verifier::external_body]
fn available_parallelism() -> (n: usize)
    ensures
        n >= 1,
{
    num_cpus::get()
}

/// Performance parameters for consensus processing.
#[derive(Debug, Clone, PartialEq, Eq)]
pub struct PerfParams {
    /// Maximum mass per transaction.
    pub max_mass_per_tx: u64,
    /// Maximum mass per block.
    pub max_mass_per_block: u64,
    /// Maximum number of transactions per second.
    pub max_tps: u64,
    /// Block processing timeout in milliseconds.
    pub block_processing_timeout_ms: u64,
    /// Memory limit for the UTXO cache.
    pub utxo_cache_memory_limit: usize,
    /// Number of parallel validation threads.
    pub validation_threads: usize,
}

impl PerfParams {
    /// Adjusts the parameters to the consensus parameters; the current
    /// tuning leaves them unchanged.
    pub fn adjust_to_consensus_params(&mut self, params: &Params)
        ensures
            *final(self) == *old(self),
    {
        let _ = params;
    }
}

impl Default for PerfParams {
    /// The default tuning, with one validation thread per processor.
    fn default() -> (r: PerfParams)
        ensures
            r.max_mass_per_tx == 100_000,
            r.max_mass_per_block == 500_000,
            r.max_tps == 1000,
            r.block_processing_timeout_ms == 5000,
            r.utxo_cache_memory_limit == 1_000_000_000,
            r.validation_threads >= 1,
    {
        PerfParams {
            max_mass_per_tx: 100_000,
            max_mass_per_block: 500_000,
            max_tps: 1000,
            block_processing_timeout_ms: 5000,
            utxo_cache_memory_limit: 1_000_000_000,
            validation_threads: available_parallelism(),
        }
    }
}

} // verus!
