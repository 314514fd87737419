//! Consensus core of a BlockDAG node: hash and big-integer primitives,
//! domain hashing, merkle commitments, the transaction and UTXO model,
//! the GHOSTDAG engine, chain selection, and the validation rules that
//! bind them together.

use vstd::prelude::*;

pub mod hashes;
pub mod uint;
pub mod hashing;
pub mod errors;
pub mod tx;
pub mod maps;
pub mod header;
pub mod merkle;
pub mod ghostdag;
pub mod block;
pub mod muhash;
pub mod utxo;
pub mod chain_selection;
pub mod blockstatus;
pub mod blockhash;
pub mod coinbase;
pub mod mass;
pub mod constants;
pub mod sign;
pub mod subnets;
pub mod trusted;
pub mod acceptance_data;
pub mod daa_score_timestamp;
pub mod pruning;
pub mod network;
pub mod mining_rules;
pub mod api;
pub mod config;
pub mod pow;

pub use acceptance_data::AcceptanceData;
pub use block::Block;
pub use blockhash::{block_hash, is_valid_block_hash};
pub use blockstatus::BlockStatus;
pub use coinbase::{create_coinbase_transaction, validate_coinbase};
pub use daa_score_timestamp::DaaScoreTimestamp;
pub use errors::{ConsensusError, ConsensusResult};
pub use hashing::{hash_data, hash_block_header};
pub use header::Header;
pub use mass::{calculate_block_mass, validate_block_mass, BlockMass};
pub use maps::{BlockHashMap, BlockHashSet, BlockHasher, HashMapCustomHasher};
pub use merkle::{MerkleTree, calculate_merkle_root};
pub use mining_rules::{validate_mining_rules, check_proof_of_work};
pub use muhash::MuHash;
pub use network::{NetworkId, NetworkMessage};
pub use pruning::PruningManager;
pub use sign::{sign_data, verify_signature};
pub use subnets::{Subnet, SubnetId};
pub use trusted::{TrustedNode, TrustedData};
pub use tx::{Transaction, TxInput, TxOutput};
pub use uint::{Uint192, Uint256};
pub use utxo::{UtxoCollection, OutPoint};

verus! {

/// The type used to represent the GHOSTDAG K parameter.
pub type KType = u16;

/// Level of a block in the multi-level parent structure.
pub type BlockLevel = u8;

/// The blocks a reorganization adds and removes.
#[derive(Debug)]
pub struct ChainPath {
    pub added: Vec<crate::hashes::Hash>,
    pub removed: Vec<crate::hashes::Hash>,
}

impl Default for ChainPath {
    /// The default path is empty.
    fn default() -> (r: ChainPath)
        ensures
            r.added@.len() == 0,
            r.removed@.len() == 0,
    {
        ChainPath { added: Vec::new(), removed: Vec::new() }
    }
}

} // verus!
