use consensus_core::api::counters::Counters;
use consensus_core::api::stats::Stats;
use consensus_core::network::NetworkId;
use consensus_core::pruning::PruningManager;
use consensus_core::sign::{sign_data, verify_signature};
use consensus_core::subnets::Subnet;
use consensus_core::trusted::{TrustedNode, TrustedData};
use consensus_core::muhash::MuHash;
use consensus_core::mass::{calculate_block_mass, validate_block_mass};
use consensus_core::tx::Transaction;
use consensus_core::config::params::Params;
use consensus_core::config::genesis::GenesisParams;
use consensus_core::config::constants::PerfParams;
use consensus_core::constants::MAX_BLOCK_MASS;

fn h(a: u64, b: u64, c: u64, d: u64) -> consensus_core::hashes::Hash {
    consensus_core::hashes::Hash::from_le_u64([a, b, c, d])
}

#[test]
fn test_counters_increment() {
    let mut counters = Counters::default();
    counters.increment_blocks_processed();
    counters.increment_transactions_validated(5);
    counters.increment_validation_errors();
    let snapshot = counters.get_snapshot();
    assert_eq!(snapshot["blocks_processed"], 1);
    assert_eq!(snapshot["transactions_validated"], 5);
    assert_eq!(snapshot["validation_errors"], 1);
}

#[test]
fn test_counters_reset() {
    let mut counters = Counters::default();
    counters.increment_blocks_processed();
    counters.reset();
    let snapshot = counters.get_snapshot();
    assert_eq!(snapshot["blocks_processed"], 0);
}

#[test]
fn test_counters_all_fields() {
    let mut counters = Counters::default();
    counters.increment_blocks_processed();
    counters.increment_transactions_validated(1);
    counters.increment_validation_errors();
    counters.increment_blocks_rejected();
    counters.increment_pruning_operations();
    let snapshot = counters.get_snapshot();
    assert_eq!(snapshot.len(), 5);
    assert_eq!(snapshot["blocks_processed"], 1);
    assert_eq!(snapshot["transactions_validated"], 1);
    assert_eq!(snapshot["validation_errors"], 1);
    assert_eq!(snapshot["blocks_rejected"], 1);
    assert_eq!(snapshot["pruning_operations"], 1);
}

#[test]
fn test_stats_record_transaction() {
    let mut stats = Stats::new(10);
    stats.record_transaction(1000);
    assert_eq!(stats.transactions_in_window(1000), 1);
}

#[test]
fn test_stats_average_block_time() {
    let mut stats = Stats::default();
    stats.record_block_processing_time(100);
    stats.record_block_processing_time(200);
    assert_eq!(stats.average_block_processing_time(), 150);
}

#[test]
fn test_stats_empty_average() {
    let stats = Stats::default();
    assert_eq!(stats.average_block_processing_time(), 0);
}

#[test]
fn test_stats_window_drops_old_entries() {
    let mut stats = Stats::new(1);
    stats.record_transaction(0);
    stats.record_transaction(5_000);
    assert_eq!(stats.transactions_in_window(5_000), 1);
}

#[test]
fn test_network_magic() {
    assert_eq!(NetworkId::Mainnet.magic(), [0xAB, 0xCD, 0xEF, 0x12]);
    assert_eq!(NetworkId::Testnet.magic(), [0xBA, 0xDC, 0xFE, 0x21]);
    assert_eq!(NetworkId::Devnet.magic(), [0xCA, 0xED, 0xFA, 0x31]);
    assert_eq!(NetworkId::Simnet.magic(), [0xDA, 0xEC, 0xFB, 0x41]);
}

#[test]
fn test_pruning_manager() {
    let mut manager = PruningManager::new();
    let hash = h(1, 0, 0, 0);
    manager.prune_block(hash);
    assert!(manager.is_pruned(&hash));
}

#[test]
fn test_pruning_manager_no_duplicates() {
    let mut manager = PruningManager::new();
    let hash = h(1, 0, 0, 0);
    manager.prune_block(hash);
    manager.prune_block(hash);
    assert_eq!(manager.pruned_blocks.len(), 1);
}

#[test]
fn test_sign_data() {
    let sig = sign_data(b"test", &[0; 32]);
    assert_eq!(sig.len(), 64);
}

#[test]
fn test_verify_signature_valid() {
    let sig = sign_data(b"test", &[0; 32]);
    assert!(verify_signature(b"test", &sig, &[0; 33]).is_ok());
}

#[test]
fn test_verify_signature_invalid() {
    assert!(verify_signature(b"test", &[0; 32], &[0; 33]).is_err());
}

#[test]
fn test_subnet() {
    let mut subnet = Subnet::new(1);
    let member = h(1, 0, 0, 0);
    subnet.add_member(member);
    assert!(subnet.has_member(&member));
}

#[test]
fn test_trusted_node() {
    let node = TrustedNode::new(consensus_core::hashes::Hash::default(), true);
    assert!(node.is_trusted());
}

#[test]
fn test_trusted_data() {
    let mut data = TrustedData::new();
    let node = TrustedNode::new(consensus_core::hashes::Hash::default(), true);
    data.add_node(node);
    assert_eq!(data.trusted_nodes().len(), 1);
}

#[test]
fn test_muhash_add_remove() {
    let mut muhash = MuHash::new();
    let hash1 = h(1, 0, 0, 0);
    let hash2 = h(2, 0, 0, 0);
    muhash.add(&hash1);
    let h1 = muhash.finalize();
    muhash.add(&hash2);
    let h2 = muhash.finalize();
    muhash.remove(&hash2);
    let h3 = muhash.finalize();
    assert_eq!(h1, h3);
    assert_ne!(h1, h2);
}

#[test]
fn test_muhash_balanced_sequence() {
    let initial = MuHash::new().finalize();
    let mut muhash = MuHash::new();
    let items = [h(1, 2, 3, 4), h(5, 6, 7, 8), h(9, 10, 11, 12)];
    for item in &items {
        muhash.add(item);
    }
    for item in &items {
        muhash.remove(item);
    }
    assert_eq!(muhash.finalize(), initial);
}

#[test]
fn test_muhash_order_independent() {
    let mut a = MuHash::new();
    a.add(&h(1, 0, 0, 0));
    a.add(&h(2, 0, 0, 0));
    let mut b = MuHash::new();
    b.add(&h(2, 0, 0, 0));
    b.add(&h(1, 0, 0, 0));
    assert_eq!(a.finalize(), b.finalize());
}

#[test]
fn test_calculate_block_mass() {
    let tx = Transaction::new(1, vec![], vec![], 0);
    let mass = calculate_block_mass(&vec![tx]);
    assert_eq!(mass, 100);
}

#[test]
fn test_validate_block_mass_valid() {
    assert!(validate_block_mass(MAX_BLOCK_MASS).is_ok());
}

#[test]
fn test_validate_block_mass_invalid() {
    assert!(validate_block_mass(MAX_BLOCK_MASS + 1).is_err());
}

#[test]
fn test_params_default() {
    let params = Params::default();
    assert_eq!(params.network_id, NetworkId::Mainnet);
    assert!(params.validate().is_ok());
}

#[test]
fn test_params_validation() {
    let mut params = Params::default();
    params.target_time_per_block = 0;
    assert!(params.validate().is_err());
}

#[test]
fn test_genesis_params_default() {
    let params = GenesisParams::default();
    assert_eq!(params.genesis_timestamp, 1_600_000_000);
    assert!(params.process_genesis);
}

#[test]
fn test_genesis_params_mainnet() {
    let params = GenesisParams::mainnet();
    assert_eq!(params.initial_difficulty, 1);
}

#[test]
fn test_perf_params_default() {
    let params = PerfParams::default();
    assert_eq!(params.max_mass_per_tx, 100_000);
    assert!(params.validation_threads >= 1);
}

#[test]
fn test_perf_params_adjust() {
    let mut params = PerfParams::default();
    let consensus_params = Params::default();
    let before = params.clone();
    params.adjust_to_consensus_params(&consensus_params);
    assert_eq!(params, before);
}

#[test]
fn test_error_describe_is_nonempty() {
    let err = consensus_core::errors::ConsensusError::NoTips;
    assert!(!err.describe().is_empty());
    let utxo_err = consensus_core::utxo::UtxoError::NotFound(
        consensus_core::tx::TransactionOutpoint {
            transaction_id: consensus_core::hashes::Hash::default(),
            index: 0,
        },
    );
    assert!(!utxo_err.describe().is_empty());
}

#[test]
fn test_error_describe_renders_each_kind() {
    assert_eq!(
        consensus_core::errors::ConsensusError::NoTips.describe(),
        "no tips found in the dag"
    );
    assert_eq!(
        consensus_core::errors::ConsensusError::MerkleRootMismatch.describe(),
        "merkle root mismatch"
    );
    assert_eq!(
        consensus_core::errors::ConsensusError::TransactionValidation {
            msg: "too few inputs".to_string(),
        }
        .describe(),
        "transaction validation failed: too few inputs"
    );
    assert_eq!(
        consensus_core::errors::ConsensusError::MiningRuleViolation {
            msg: "over the mass bound".to_string(),
        }
        .describe(),
        "mining rule violation: over the mass bound"
    );
    let spent = consensus_core::utxo::UtxoError::AlreadySpent(
        consensus_core::tx::TransactionOutpoint {
            transaction_id: consensus_core::hashes::Hash::default(),
            index: 0,
        },
    );
    assert_eq!(spent.describe(), "utxo already spent");
    assert_eq!(
        consensus_core::utxo::UtxoError::InvalidOutput("bad script".to_string()).describe(),
        "invalid output: bad script"
    );
    match consensus_core::utxo::UtxoError::InvalidOutput("bad script".to_string())
        .into_consensus()
    {
        consensus_core::errors::ConsensusError::Generic { msg } => {
            assert_eq!(msg, "invalid output: bad script");
        }
        other => panic!("unexpected kind: {:?}", other),
    }
}

#[test]
fn test_transaction_validation_args_defaults() {
    let args = consensus_core::api::args::TransactionValidationArgs::default();
    assert!(!args.allow_non_final);
    assert!(!args.allow_orphans);
    let batch = consensus_core::api::args::TransactionValidationBatchArgs::default();
    assert!(!batch.allow_non_final);
    assert!(!batch.allow_orphans);
}
