//! Genesis configuration per network.

use vstd::prelude::*;

verus! {

/// The genesis block and initial network state.
#[derive(Debug, Clone)]
pub struct GenesisParams {
    /// Hash of the genesis block.
    pub genesis_hash: crate::hashes::Hash,
    /// Timestamp of the genesis block.
    pub genesis_timestamp: u64,
    /// Initial difficulty.
    pub initial_difficulty: u64,
    /// Whether the genesis block is processed at startup.
    pub process_genesis: bool,
}

impl GenesisParams {
    /// The mainnet genesis parameters.
    pub fn mainnet() -> (r: GenesisParams)
        ensures
            r.genesis_hash == crate::hashes::Hash::zero(),
            r.genesis_timestamp == 1_600_000_000,
            r.initial_difficulty == 1,
            r.process_genesis == true,
    {
        GenesisParams {
            genesis_hash: crate::hashes::Hash::from_le_u64([0, 0, 0, 0]),
            genesis_timestamp: 1_600_000_000,
            initial_difficulty: 1,
            process_genesis: true,
        }
    }

    /// The testnet genesis parameters.
    pub fn testnet() -> (r: GenesisParams)
        ensures
            r.genesis_hash == (crate::hashes::Hash { w0: 1, w1: 1, w2: 1, w3: 1 }),
            r.genesis_timestamp == 1_600_000_000,
            r.initial_difficulty == 1,
            r.process_genesis == true,
    {
        GenesisParams {
            genesis_hash: crate::hashes::Hash::from_le_u64([1, 1, 1, 1]),
            genesis_timestamp: 1_600_000_000,
            initial_difficulty: 1,
            process_genesis: true,
        }
    }
}

impl Default for GenesisParams {
    /// The default genesis parameters are the mainnet's.
    fn default() -> (r: GenesisParams)
        ensures
            r.genesis_timestamp == 1_600_000_000,
            r.initial_difficulty == 1,
            r.process_genesis == true,
    {
        GenesisParams::mainnet()
    }
}

} // verus!
