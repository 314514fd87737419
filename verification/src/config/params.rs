//! Consensus parameters defining the network rules.

use vstd::prelude::*;
use crate::network::NetworkId;
use crate::uint::Uint192;

verus! {

/// The consensus parameters of a network.
#[derive(Debug, Clone)]
pub struct Params {
    /// The network identifier.
    pub network_id: NetworkId,
    /// Target time per block in milliseconds.
    pub target_time_per_block: u64,
    /// Maximum block mass.
    pub max_block_mass: u64,
    /// Maximum transaction mass.
    pub max_tx_mass: u64,
    /// Halving interval for block rewards.
    pub halving_interval: u64,
    /// Maximum number of parents a block may name.
    pub max_block_parents: u8,
    /// Timestamp deviation tolerance.
    pub timestamp_deviation_tolerance: u64,
    /// Genesis timestamp.
    pub genesis_timestamp: u64,
    /// Maximum number of transactions per block.
    pub max_txs_per_block: usize,
    /// Difficulty adjustment window.
    pub difficulty_adjustment_window: usize,
    /// Minimum difficulty.
    pub min_difficulty: Uint192,
    /// Skip proof of work, for testing setups.
    pub skip_proof_of_work: bool,
}

impl Params {
    /// Parameters are consistent when the block time and the mass bound
    /// are positive.
    pub fn validate(&self) -> (r: Result<(), &'static str>)
        ensures
            r.is_ok() <==> (self.target_time_per_block > 0 && self.max_block_mass > 0),
    {
        if self.target_time_per_block == 0 {
            return Err("target time per block must be positive");
        }
        if self.max_block_mass == 0 {
            return Err("max block mass must be positive");
        }
        Ok(())
    }
}

impl Default for Params {
    /// The mainnet defaults. Note that these configuration values stand
    /// apart from the compile-time consensus constants: the halving
    /// interval, difficulty window and per-block transaction cap here
    /// differ from the constants module's values, and nothing derives one
    /// from the other.
    fn default() -> (r: Params)
        ensures
            r.network_id == NetworkId::Mainnet,
            r.target_time_per_block == 1000,
            r.max_block_mass == 500_000,
            r.max_tx_mass == 100_000,
            r.halving_interval == 2_100_000,
            r.max_block_parents == 10,
            r.timestamp_deviation_tolerance == 132,
            r.genesis_timestamp == 1_600_000_000,
            r.max_txs_per_block == 1000,
            r.difficulty_adjustment_window == 2646,
            r.min_difficulty.value() == 1,
            r.skip_proof_of_work == false,
    {
        Params {
            network_id: NetworkId::Mainnet,
            target_time_per_block: 1000,
            max_block_mass: 500_000,
            max_tx_mass: 100_000,
            halving_interval: 2_100_000,
            max_block_parents: 10,
            timestamp_deviation_tolerance: 132,
            genesis_timestamp: 1_600_000_000,
            max_txs_per_block: 1000,
            difficulty_adjustment_window: 2646,
            min_difficulty: Uint192::from_u64(1),
            skip_proof_of_work: false,
        }
    }
}

} // verus!
