use consensus_core::hashing::{hash_data, double_sha256, BlockHash, PowHash, HasherExtensions};
use consensus_core::merkle::{MerkleTree, calculate_merkle_root};
use consensus_core::uint::{Uint192, Uint256};
use consensus_core::blockhash::{block_hash, is_valid_block_hash};
use consensus_core::maps::BlockHasher;
use consensus_core::header::Header;
use consensus_core::block::Block;

fn hex_bytes(s: &str) -> Vec<u8> {
    (0..s.len() / 2).map(|i| u8::from_str_radix(&s[2 * i..2 * i + 2], 16).unwrap()).collect()
}

#[test]
fn test_sha256_known_vector() {
    let digest = hash_data(b"abc");
    assert_eq!(
        digest.as_bytes(),
        hex_bytes("ba7816bf8f01cfea414140de5dae2223b00361a396177a9cb410ff61f20015ad")
    );
}

#[test]
fn test_sha3_256_known_vector() {
    let mut hasher = BlockHash::new();
    hasher.update(b"abc");
    let digest = hasher.finalize();
    assert_eq!(
        digest.as_bytes(),
        hex_bytes("3a985da74fe225b2045c172d6bd390bd855f086e3e9d525b46bfe24511431532")
    );
}

#[test]
fn test_hasher_extensions_feed_expected_bytes() {
    let mut a = BlockHash::new();
    a.write_u16(0x0201);
    a.write_u32(0x06050403);
    a.write_bool(true);
    a.write_var_bytes(&[0xAA, 0xBB]);
    let mut b = BlockHash::new();
    b.update(&[0x01, 0x02, 0x03, 0x04, 0x05, 0x06, 0x01]);
    b.update(&[0x02, 0, 0, 0, 0, 0, 0, 0]);
    b.update(&[0xAA, 0xBB]);
    assert_eq!(a.finalize(), b.finalize());
}

#[test]
fn test_pow_hash_seeding() {
    let pre = consensus_core::hashes::Hash::from_le_u64([9, 9, 9, 9]);
    let a = PowHash::new(pre, 5).finalize_with_nonce(7);
    let mut b = BlockHash::new();
    b.update(&pre.as_bytes());
    b.update(&5u64.to_le_bytes());
    b.update(&[0u8; 32]);
    b.update(&7u64.to_le_bytes());
    assert_eq!(a, b.finalize());
}

#[test]
fn test_merkle_tree_single_tx() {
    let tx_hash = consensus_core::hashes::Hash::from_slice(b"single_tx");
    let tree = MerkleTree::from_tx_hashes(&vec![tx_hash]).unwrap();
    assert_eq!(tree.root(), tx_hash);
}

#[test]
fn test_merkle_tree_two_txs() {
    let tx1 = consensus_core::hashes::Hash::from_slice(b"tx1");
    let tx2 = consensus_core::hashes::Hash::from_slice(b"tx2");
    let tree = MerkleTree::from_tx_hashes(&vec![tx1, tx2]).unwrap();
    let mut combined = tx1.as_bytes();
    combined.extend_from_slice(&tx2.as_bytes());
    let expected_root = double_sha256(&combined);
    assert_eq!(tree.root(), expected_root);
}

#[test]
fn test_merkle_tree_empty() {
    let tree = MerkleTree::from_tx_hashes(&vec![]).unwrap();
    assert_eq!(tree.root(), consensus_core::hashes::Hash::default());
}

#[test]
fn test_calculate_merkle_root() {
    let tx_hashes = vec![consensus_core::hashes::Hash::from_slice(b"tx1")];
    let root = calculate_merkle_root(&tx_hashes);
    assert_eq!(root, tx_hashes[0]);
}

#[test]
fn test_merkle_proof_roundtrip() {
    let tx1 = consensus_core::hashes::Hash::from_slice(b"tx1");
    let tx2 = consensus_core::hashes::Hash::from_slice(b"tx2");
    let tree = MerkleTree::from_tx_hashes(&vec![tx1, tx2]).unwrap();
    let root = tree.root();
    assert!(MerkleTree::verify_proof(tx1, root, &vec![(tx2, false)]));
    assert!(MerkleTree::verify_proof(tx2, root, &vec![(tx1, true)]));
    assert!(!MerkleTree::verify_proof(tx1, root, &vec![(tx2, true)]));
}

#[test]
fn test_compact_target_decoding() {
    let target = Uint256::from_compact_target_bits(0x1d00ffff);
    assert_eq!(target.d3, 0xFFFF_0000);
    assert_eq!(target.d2, 0);
    assert_eq!(target.d1, 0);
    assert_eq!(target.d0, 0);
    let small = Uint256::from_compact_target_bits(0x0300_1234);
    assert_eq!(small.d0, 0x1234);
    let tiny = Uint256::from_compact_target_bits(0x0100_1234);
    assert_eq!(tiny.d0, 0);
}

#[test]
fn test_work_from_compact_bits() {
    let work = consensus_core::ghostdag::work_from_bits(0x1d00ffff);
    assert_eq!(work.l0, 0x1_0000_0000);
    assert_eq!(work.l1, 0);
    assert_eq!(work.l2, 0);
}

#[test]
fn test_uint192_saturating_add() {
    let a = Uint192 { l0: u64::MAX, l1: u64::MAX, l2: 0 };
    let b = Uint192::from_u64(1);
    let sum = a.saturating_add(&b);
    assert_eq!(sum.l0, 0);
    assert_eq!(sum.l1, 0);
    assert_eq!(sum.l2, 1);
    let top = Uint192 { l0: u64::MAX, l1: u64::MAX, l2: u64::MAX };
    let clamped = top.saturating_add(&b);
    assert_eq!(clamped, top);
}

#[test]
fn blockhash_test_block_hash() {
    let block = Block::new(Header::new(), vec![]);
    let hash = block_hash(&block);
    assert!(!hash.as_bytes().is_empty());
}

#[test]
fn test_is_valid_block_hash() {
    let hash = consensus_core::hashes::Hash::from_slice(b"invalid_hash");
    assert!(!is_valid_block_hash(&hash));
    assert!(!is_valid_block_hash(&consensus_core::hashes::Hash::default()));
    assert!(is_valid_block_hash(&consensus_core::hashes::Hash::from_le_u64([5, 0, 0, 0])));
}

#[test]
fn test_block_hasher() {
    let hash = consensus_core::hashes::Hash::from_le_u64([1, 2, 3, 4]);
    let mut hasher = BlockHasher::default();
    for word in hash.as_le_u64() {
        hasher.write_u64(word);
    }
    assert_eq!(hasher.finish(), 4);
}

#[test]
fn test_block_hasher_write_bytes() {
    let mut hasher = BlockHasher::new();
    hasher.write(&[1, 0, 0, 0, 0, 0, 0, 0, 9, 0, 0, 0, 0, 0, 0, 0]);
    assert_eq!(hasher.finish(), 9);
}
