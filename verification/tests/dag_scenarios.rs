use std::sync::Arc;
use consensus_core::ghostdag::GhostDag;
use consensus_core::chain_selection::ChainSelector;
use consensus_core::header::Header;
use consensus_core::block::Block;
use consensus_core::mining_rules::{validate_mining_rules, check_proof_of_work, validate_ghostdag_data};

fn make_block(parents: Vec<consensus_core::hashes::Hash>, timestamp: u64) -> Block {
    let mut header = Header::new();
    header.parents_by_level = vec![parents];
    header.timestamp = timestamp;
    Block::new(header, vec![])
}

#[test]
fn test_genesis_only_dag() {
    let mut dag = GhostDag::new(18);
    let genesis = make_block(vec![], 1);
    let data = dag.add_block(&genesis).unwrap();
    assert_eq!(data.blue_score, 0);
    assert_eq!(data.selected_parent, consensus_core::hashes::Hash::default());
    assert!(data.merge_set_blues.is_empty());
    assert!(data.merge_set_reds.is_empty());
    let selector = ChainSelector::new(Arc::new(dag));
    assert_eq!(selector.select_tip().unwrap(), genesis.hash());
}

#[test]
fn test_linear_two_block_chain() {
    let mut dag = GhostDag::new(18);
    let genesis = make_block(vec![], 1);
    dag.add_block(&genesis).unwrap();
    let child = make_block(vec![genesis.hash()], 2);
    let data = dag.add_block(&child).unwrap();
    assert_eq!(data.blue_score, 1);
    assert_eq!(data.selected_parent, genesis.hash());
    assert!(data.merge_set_blues.is_empty());
    let selector = ChainSelector::new(Arc::new(dag));
    assert_eq!(selector.select_tip().unwrap(), child.hash());
}

#[test]
fn test_diamond_classifies_sibling_blue() {
    let mut dag = GhostDag::new(3);
    let genesis = make_block(vec![], 1);
    dag.add_block(&genesis).unwrap();
    let a = make_block(vec![genesis.hash()], 2);
    let b = make_block(vec![genesis.hash()], 3);
    dag.add_block(&a).unwrap();
    dag.add_block(&b).unwrap();
    let merge = make_block(vec![a.hash(), b.hash()], 4);
    let data = dag.add_block(&merge).unwrap();
    // The selected parent is one of the two siblings; the other forms the
    // merge set and is classified blue under k = 3.
    assert!(data.selected_parent == a.hash() || data.selected_parent == b.hash());
    assert_eq!(data.merge_set_blues.len(), 1);
    assert!(data.merge_set_reds.is_empty());
    assert_eq!(data.blue_score, 3);
    let expected_other = if data.selected_parent == a.hash() { b.hash() } else { a.hash() };
    assert_eq!(data.merge_set_blues[0], expected_other);
}

#[test]
fn test_selected_parent_tie_breaks_by_smaller_hash() {
    let mut dag = GhostDag::new(3);
    let genesis = make_block(vec![], 1);
    dag.add_block(&genesis).unwrap();
    let a = make_block(vec![genesis.hash()], 2);
    let b = make_block(vec![genesis.hash()], 3);
    dag.add_block(&a).unwrap();
    dag.add_block(&b).unwrap();
    let merge = make_block(vec![a.hash(), b.hash()], 4);
    let data = dag.add_block(&merge).unwrap();
    let a_hash = a.hash();
    let b_hash = b.hash();
    let smaller = if a_hash.less_than(&b_hash) { a_hash } else { b_hash };
    assert_eq!(data.selected_parent, smaller);
}

#[test]
fn test_anticone_exceeds_k() {
    let mut dag = GhostDag::new(1);
    let genesis = make_block(vec![], 1);
    dag.add_block(&genesis).unwrap();
    let p1 = make_block(vec![genesis.hash()], 2);
    let p2 = make_block(vec![genesis.hash()], 3);
    let p3 = make_block(vec![genesis.hash()], 4);
    dag.add_block(&p1).unwrap();
    dag.add_block(&p2).unwrap();
    dag.add_block(&p3).unwrap();
    let merge = make_block(vec![p1.hash(), p2.hash(), p3.hash()], 5);
    let data = dag.add_block(&merge).unwrap();
    assert!(data.merge_set_reds.len() >= 1);
    assert_eq!(
        data.blue_score as usize,
        1 + data.merge_set_blues.len() + 1
    );
}

#[test]
fn test_zero_k_keeps_only_the_chain_blue() {
    let mut dag = GhostDag::new(0);
    let genesis = make_block(vec![], 1);
    dag.add_block(&genesis).unwrap();
    let a = make_block(vec![genesis.hash()], 2);
    let b = make_block(vec![genesis.hash()], 3);
    dag.add_block(&a).unwrap();
    dag.add_block(&b).unwrap();
    let merge = make_block(vec![a.hash(), b.hash()], 4);
    let data = dag.add_block(&merge).unwrap();
    // With k = 0 the sibling off the selected chain must be red.
    assert!(data.merge_set_blues.is_empty());
    assert_eq!(data.merge_set_reds.len(), 1);
    assert_eq!(data.blue_score, 2);
}

#[test]
fn test_unknown_parent_is_rejected() {
    let mut dag = GhostDag::new(18);
    let phantom = consensus_core::hashes::Hash::from_le_u64([9, 9, 9, 9]);
    let block = make_block(vec![phantom], 1);
    let result = dag.add_block(&block);
    assert!(matches!(
        result,
        Err(consensus_core::errors::ConsensusError::NoValidParent)
    ));
}

#[test]
fn test_is_in_past_cone_follows_selected_chain() {
    let mut dag = GhostDag::new(18);
    let genesis = make_block(vec![], 1);
    dag.add_block(&genesis).unwrap();
    let a = make_block(vec![genesis.hash()], 2);
    dag.add_block(&a).unwrap();
    let b = make_block(vec![a.hash()], 3);
    dag.add_block(&b).unwrap();
    assert!(dag.is_in_past_cone(&b.hash(), &genesis.hash()));
    assert!(dag.is_in_past_cone(&b.hash(), &a.hash()));
    assert!(!dag.is_in_past_cone(&genesis.hash(), &b.hash()));
}

#[test]
fn test_reorg_between_two_chains() {
    let mut dag = GhostDag::new(18);
    let genesis = make_block(vec![], 1);
    dag.add_block(&genesis).unwrap();
    let a = make_block(vec![genesis.hash()], 2);
    dag.add_block(&a).unwrap();
    let t1 = make_block(vec![a.hash()], 3);
    dag.add_block(&t1).unwrap();
    let b = make_block(vec![genesis.hash()], 4);
    dag.add_block(&b).unwrap();
    let t2 = make_block(vec![b.hash()], 5);
    dag.add_block(&t2).unwrap();
    let mut selector = ChainSelector::new(Arc::new(dag));
    let path = selector.handle_reorg(t1.hash(), t2.hash()).unwrap();
    assert_eq!(path.removed, vec![t1.hash(), a.hash()]);
    assert_eq!(path.added, vec![b.hash(), t2.hash()]);
    assert_eq!(selector.get_virtual_state().selected_tip, t2.hash());
}

#[test]
fn test_chain_selector_new() {
    let ghostdag = Arc::new(GhostDag::new(10));
    let selector = ChainSelector::new(ghostdag);
    let state = selector.get_virtual_state();
    assert_eq!(state.blue_score, 0);
}

#[test]
fn test_select_tip_no_blocks() {
    let ghostdag = Arc::new(GhostDag::new(10));
    let selector = ChainSelector::new(ghostdag);
    let result = selector.select_tip();
    assert!(result.is_err());
}

#[test]
fn test_select_tip_tie_breaks_by_smaller_hash() {
    let mut dag = GhostDag::new(10);
    let g1 = make_block(vec![], 1);
    let g2 = make_block(vec![], 2);
    dag.add_block(&g1).unwrap();
    dag.add_block(&g2).unwrap();
    let h1 = g1.hash();
    let h2 = g2.hash();
    let expected = if h1.less_than(&h2) { h1 } else { h2 };
    let selector = ChainSelector::new(Arc::new(dag));
    assert_eq!(selector.select_tip().unwrap(), expected);
}

#[test]
fn test_update_virtual_state_adopts_higher_score() {
    let mut dag = GhostDag::new(10);
    let genesis = make_block(vec![], 1);
    dag.add_block(&genesis).unwrap();
    let mut child = make_block(vec![genesis.hash()], 2);
    child.header.blue_score = 1;
    let mut selector = ChainSelector::new(Arc::new(dag));
    selector.update_virtual_state(&child).unwrap();
    let state = selector.get_virtual_state();
    assert_eq!(state.selected_tip, child.hash());
    assert_eq!(state.blue_score, 1);
}

#[test]
fn test_ghostdag_add_block_genesis_score() {
    let mut ghostdag = GhostDag::new(10);
    let block = make_block(vec![], 0);
    let result = ghostdag.add_block(&block);
    assert!(result.is_ok());
    let data = result.unwrap();
    assert_eq!(data.blue_score, 0);
}

#[test]
fn test_blues_anticone_sizes_bounded_by_k() {
    let k: u16 = 2;
    let mut dag = GhostDag::new(k);
    let genesis = make_block(vec![], 1);
    dag.add_block(&genesis).unwrap();
    let mut parents = Vec::new();
    for t in 0..3u64 {
        let p = make_block(vec![genesis.hash()], 10 + t);
        dag.add_block(&p).unwrap();
        parents.push(p.hash());
    }
    let merge = make_block(parents, 99);
    let data = dag.add_block(&merge).unwrap();
    assert_eq!(data.blues_anticone_sizes.len(), data.merge_set_blues.len());
    for (_, size) in &data.blues_anticone_sizes {
        assert!(*size <= k as u64);
    }
}

#[test]
fn test_validate_mining_rules() {
    let mut block = Block::new(Header::new(), vec![]);
    block.header.bits = 0x7fffff;
    block.header.nonce = 1;
    assert!(validate_mining_rules(&block).is_ok());
}

#[test]
fn test_validate_mining_rules_invalid() {
    let block = Block::new(Header::new(), vec![]);
    assert!(validate_mining_rules(&block).is_err());
}

#[test]
fn test_check_proof_of_work() {
    let mut block = Block::new(Header::new(), vec![]);
    block.header.bits = 0x7fffff;
    block.header.nonce = 1;
    assert!(check_proof_of_work(&block));
}

#[test]
fn test_validate_ghostdag_data_missing() {
    let mut header = Header::new();
    header.parents_by_level = vec![vec![consensus_core::hashes::Hash::from_le_u64([1, 0, 0, 0])]];
    let block = Block::new(header, vec![]);
    assert!(matches!(
        validate_ghostdag_data(&block),
        Err(consensus_core::errors::ConsensusError::MissingGhostDagData)
    ));
}

#[test]
fn test_validate_ghostdag_data_selected_parent_must_be_level0() {
    let parent = consensus_core::hashes::Hash::from_le_u64([1, 0, 0, 0]);
    let stranger = consensus_core::hashes::Hash::from_le_u64([2, 0, 0, 0]);
    let mut header = Header::new();
    header.parents_by_level = vec![vec![parent]];
    let mut block = Block::new(header, vec![]);
    let mut data = consensus_core::ghostdag::GhostDagData::default();
    data.selected_parent = stranger;
    block.ghostdag_data = Some(data);
    assert!(matches!(
        validate_ghostdag_data(&block),
        Err(consensus_core::errors::ConsensusError::InvalidSelectedParent)
    ));
    let mut good = consensus_core::ghostdag::GhostDagData::default();
    good.selected_parent = parent;
    block.ghostdag_data = Some(good);
    assert!(validate_ghostdag_data(&block).is_ok());
}

#[test]
fn test_heavy_hash_mixes_with_matrix() {
    let pre = consensus_core::hashes::Hash::from_le_u64([3, 1, 4, 1]);
    let matrix = consensus_core::pow::matrix::Matrix::generate(pre);
    let input = consensus_core::hashes::Hash::from_le_u64([2, 7, 1, 8]);
    let mixed = matrix.heavy_hash(input);
    let pre_bytes = pre.as_bytes();
    let in_bytes = input.as_bytes();
    let out_bytes = mixed.as_bytes();
    for i in 0..32 {
        assert_eq!(out_bytes[i], in_bytes[i] ^ pre_bytes[i] ^ pre_bytes[i]);
    }
}

#[test]
fn test_xoshiro_is_deterministic() {
    let mut a = consensus_core::pow::xoshiro::Xoshiro256::new(42);
    let mut b = consensus_core::pow::xoshiro::Xoshiro256::new(42);
    assert_eq!(a.next(), b.next());
    assert_eq!(a.next(), b.next());
    let mut c = consensus_core::pow::xoshiro::Xoshiro256::new(43);
    let _ = c.next();
    assert!(a != c);
}

#[test]
fn test_no_common_ancestor() {
    let mut dag = GhostDag::new(18);
    let g1 = make_block(vec![], 1);
    let g2 = make_block(vec![], 2);
    dag.add_block(&g1).unwrap();
    dag.add_block(&g2).unwrap();
    let selector = ChainSelector::new(Arc::new(dag));
    assert!(matches!(
        selector.find_common_ancestor(g1.hash(), g2.hash()),
        Err(consensus_core::errors::ConsensusError::NoCommonAncestor)
    ));
}

#[test]
fn test_duplicate_block_is_rejected() {
    let mut dag = GhostDag::new(18);
    let genesis = make_block(vec![], 1);
    dag.add_block(&genesis).unwrap();
    assert!(matches!(
        dag.add_block(&genesis),
        Err(consensus_core::errors::ConsensusError::Generic { .. })
    ));
}

#[test]
fn test_blue_work_accumulates_over_the_chain() {
    let mut dag = GhostDag::new(18);
    let mut genesis = make_block(vec![], 1);
    genesis.header.bits = 0x1d00ffff;
    dag.add_block(&genesis).unwrap();
    let mut child = make_block(vec![genesis.hash()], 2);
    child.header.bits = 0x1d00ffff;
    let data = dag.add_block(&child).unwrap();
    let unit = consensus_core::ghostdag::work_from_bits(0x1d00ffff);
    let expected = unit.saturating_add(&unit);
    assert_eq!(data.blue_work, expected);
}

#[test]
fn test_mining_rules_propagate_ghostdag_errors() {
    // A non-genesis block with an easy target and no attached data: once a
    // nonce passes the proof of work, the ghostdag error must come through.
    let parent = consensus_core::hashes::Hash::from_le_u64([1, 0, 0, 0]);
    let mut header = Header::new();
    header.parents_by_level = vec![vec![parent]];
    header.bits = 0x1fffffff;
    let mut block = Block::new(header, vec![]);
    let mut mined = false;
    for nonce in 0..1_000_000u64 {
        block.header.nonce = nonce;
        if check_proof_of_work(&block) {
            mined = true;
            break;
        }
    }
    assert!(mined);
    assert!(matches!(
        validate_mining_rules(&block),
        Err(consensus_core::errors::ConsensusError::MissingGhostDagData)
    ));
    let mut data = consensus_core::ghostdag::GhostDagData::default();
    data.selected_parent = consensus_core::hashes::Hash::from_le_u64([9, 9, 9, 9]);
    block.ghostdag_data = Some(data);
    assert!(matches!(
        validate_mining_rules(&block),
        Err(consensus_core::errors::ConsensusError::InvalidSelectedParent)
    ));
}
