use consensus_core::tx::{Transaction, TxInput, TxOutput};
use consensus_core::tx::script_public_key::{ScriptPublicKey, ScriptPublicKeyType};
use consensus_core::acceptance_data::AcceptanceData;
use consensus_core::daa_score_timestamp::DaaScoreTimestamp;
use consensus_core::blockstatus::BlockStatus;
use consensus_core::coinbase::{create_coinbase_transaction, validate_coinbase};
use consensus_core::header::Header;
use consensus_core::block::Block;

fn h(a: u64, b: u64, c: u64, d: u64) -> consensus_core::hashes::Hash {
    consensus_core::hashes::Hash::from_le_u64([a, b, c, d])
}

fn zero_hash() -> consensus_core::hashes::Hash {
    consensus_core::hashes::Hash::default()
}

#[test]
fn test_transaction_new() {
    let tx = Transaction::new(1, vec![], vec![], 0);
    assert_eq!(tx.version, 1);
}

#[test]
fn test_transaction_hash() {
    let tx = Transaction::new(1, vec![], vec![], 0);
    let hash = tx.hash();
    assert!(!hash.as_bytes().is_empty());
}

#[test]
fn test_transaction_validate_no_inputs() {
    let tx = Transaction::new(1, vec![], vec![TxOutput { value: 100, script_pubkey: vec![] }], 0);
    assert!(tx.validate().is_err());
}

#[test]
fn test_transaction_validate_no_outputs() {
    let input = TxInput { prev_tx_hash: zero_hash(), index: 0, script_sig: vec![], sequence: 0 };
    let tx = Transaction::new(1, vec![input], vec![], 0);
    assert!(tx.validate().is_err());
}

#[test]
fn test_transaction_is_coinbase() {
    let input = TxInput { prev_tx_hash: zero_hash(), index: 0, script_sig: vec![], sequence: 0 };
    let tx = Transaction::new(1, vec![input], vec![], 0);
    assert!(tx.is_coinbase());
}

#[test]
fn test_transaction_validate_duplicate_inputs() {
    let input = TxInput { prev_tx_hash: h(7, 0, 0, 0), index: 3, script_sig: vec![], sequence: 0 };
    let dup = TxInput { prev_tx_hash: h(7, 0, 0, 0), index: 3, script_sig: vec![1], sequence: 9 };
    let out = TxOutput { value: 5, script_pubkey: vec![] };
    let tx = Transaction::new(1, vec![input, dup], vec![out], 0);
    assert!(tx.validate().is_err());
}

#[test]
fn test_transaction_mass_formula() {
    let input = TxInput { prev_tx_hash: zero_hash(), index: 0, script_sig: vec![], sequence: 0 };
    let out = TxOutput { value: 5, script_pubkey: vec![] };
    let tx = Transaction::new(1, vec![input], vec![out.clone(), out], 0);
    assert_eq!(tx.mass(), 100 + 50 + 60);
}

#[test]
fn test_pay_to_pubkey_hash() {
    let hash = h(1, 0, 0, 0);
    let script = ScriptPublicKey::pay_to_pubkey_hash(&hash);
    assert!(script.is_pay_to_pubkey_hash());
    assert_eq!(script.pubkey_hash(), Some(hash));
}

#[test]
fn test_script_type() {
    let hash = h(1, 0, 0, 0);
    let script = ScriptPublicKey::pay_to_pubkey_hash(&hash);
    assert_eq!(script.script_type(), ScriptPublicKeyType::PayToPubkeyHash);
}

#[test]
fn test_validate_empty_script() {
    let script = ScriptPublicKey::new(vec![], 0);
    assert!(script.validate().is_err());
}

#[test]
fn test_acceptance_data_new() {
    let data = AcceptanceData::new(vec![zero_hash()], vec![zero_hash()]);
    assert_eq!(data.accepted_tx_ids.len(), 1);
}

#[test]
fn test_acceptance_data_validate() {
    let data = AcceptanceData::new(vec![zero_hash()], vec![zero_hash()]);
    assert!(data.validate().is_ok());
}

#[test]
fn test_acceptance_data_validate_invalid() {
    let data = AcceptanceData::new(vec![], vec![zero_hash()]);
    assert!(data.validate().is_err());
}

#[test]
fn test_daa_score_timestamp_new() {
    let daa = DaaScoreTimestamp::new(100, 1234567890);
    assert_eq!(daa.daa_score, 100);
    assert_eq!(daa.timestamp, 1234567890);
}

#[test]
fn test_daa_score_timestamp_validate() {
    let daa = DaaScoreTimestamp::new(100, 1234567890);
    assert!(daa.validate().is_ok());
}

#[test]
fn test_daa_score_timestamp_validate_invalid() {
    let daa = DaaScoreTimestamp::new(100, 0);
    assert!(daa.validate().is_err());
}

#[test]
fn test_block_status_is_valid() {
    assert!(!BlockStatus::Invalid.is_valid());
    assert!(BlockStatus::Valid.is_valid());
    assert!(BlockStatus::Accepted.is_valid());
    assert!(BlockStatus::MainChain.is_valid());
}

#[test]
fn test_block_status_is_accepted() {
    assert!(!BlockStatus::Invalid.is_accepted());
    assert!(!BlockStatus::Valid.is_accepted());
    assert!(BlockStatus::Accepted.is_accepted());
    assert!(BlockStatus::MainChain.is_accepted());
}

#[test]
fn test_create_coinbase() {
    let tx = create_coinbase_transaction(50, vec![0x01]);
    assert!(tx.is_coinbase());
    assert_eq!(tx.outputs.len(), 1);
    assert_eq!(tx.outputs[0].value, 50);
}

#[test]
fn test_validate_coinbase_valid() {
    let tx = create_coinbase_transaction(50, vec![0x01]);
    assert!(validate_coinbase(&tx).is_ok());
}

#[test]
fn test_validate_coinbase_invalid() {
    let input = TxInput {
        prev_tx_hash: consensus_core::hashes::Hash::from_slice(b"non_default"),
        index: 0,
        script_sig: vec![],
        sequence: 0,
    };
    let output = TxOutput { value: 50, script_pubkey: vec![] };
    let tx = Transaction::new(1, vec![input], vec![output], 0);
    assert!(validate_coinbase(&tx).is_err());
}

#[test]
fn test_header_new() {
    let header = Header::new();
    assert_eq!(header.version, 1);
    assert_eq!(header.timestamp, 0);
}

#[test]
fn test_header_hash() {
    let header = Header::new();
    let hash = header.hash();
    assert!(!hash.as_bytes().is_empty());
}

#[test]
fn test_header_hash_with_nonce_matches_stored_nonce() {
    let mut header = Header::new();
    header.timestamp = 77;
    let trial = header.hash_with_nonce(12345);
    header.nonce = 12345;
    assert_eq!(trial, header.hash());
}

#[test]
fn test_block_new() {
    let header = Header::new();
    let txs = vec![zero_hash()];
    let block = Block::new(header, txs);
    assert_eq!(block.transactions.len(), 1);
}

#[test]
fn test_block_validate_merkle_mismatch() {
    let mut header = Header::new();
    header.merkle_root = consensus_core::hashes::Hash::from_slice(b"wrong");
    let block = Block::new(header, vec![]);
    assert!(block.validate().is_err());
}

#[test]
fn block_test_block_hash() {
    let header = Header::new();
    let block = Block::new(header, vec![]);
    let hash = block.hash();
    assert!(!hash.as_bytes().is_empty());
}

#[test]
fn test_block_is_genesis() {
    let header = Header::new();
    let block = Block::new(header, vec![]);
    assert!(block.is_genesis());
}

#[test]
fn test_empty_transaction_list_validates_when_header_agrees() {
    let header = Header::new();
    let block = Block::new(header, vec![]);
    assert!(block.validate().is_ok());
}
