use consensus_core::utxo::{UtxoCollection, OutPoint, UtxoDiff, UtxoView, UtxoInquirer};
use consensus_core::tx::{Transaction, TxInput, TxOutput};

fn h(a: u64, b: u64, c: u64, d: u64) -> consensus_core::hashes::Hash {
    consensus_core::hashes::Hash::from_le_u64([a, b, c, d])
}

fn zero_hash() -> consensus_core::hashes::Hash {
    consensus_core::hashes::Hash::default()
}

#[test]
fn test_insert_remove() {
    let mut collection = UtxoCollection::new();
    let outpoint = OutPoint { tx_hash: zero_hash(), index: 0 };
    let output = TxOutput { value: 100, script_pubkey: vec![] };
    assert!(collection.insert(outpoint, output).is_ok());
    assert_eq!(collection.len(), 1);
    assert!(collection.remove(&outpoint).is_ok());
    assert_eq!(collection.len(), 0);
}

#[test]
fn test_get() {
    let mut collection = UtxoCollection::new();
    let outpoint = OutPoint { tx_hash: zero_hash(), index: 0 };
    let output = TxOutput { value: 100, script_pubkey: vec![] };
    collection.insert(outpoint, output.clone()).unwrap();
    assert_eq!(collection.get(&outpoint), Some(output));
}

#[test]
fn test_insert_twice_is_already_spent() {
    let mut collection = UtxoCollection::new();
    let outpoint = OutPoint { tx_hash: h(3, 0, 0, 0), index: 1 };
    let output = TxOutput { value: 100, script_pubkey: vec![] };
    assert!(collection.insert(outpoint, output.clone()).is_ok());
    assert!(collection.insert(outpoint, output).is_err());
    assert_eq!(collection.len(), 1);
}

#[test]
fn test_muhash_tracks_contents() {
    let mut collection = UtxoCollection::new();
    let empty_commitment = collection.muhash();
    let outpoint = OutPoint { tx_hash: h(3, 0, 0, 0), index: 1 };
    let output = TxOutput { value: 100, script_pubkey: vec![] };
    collection.insert(outpoint, output).unwrap();
    let with_one = collection.muhash();
    assert_ne!(empty_commitment, with_one);
    collection.remove(&outpoint).unwrap();
    assert_eq!(collection.muhash(), empty_commitment);
}

#[test]
fn test_from_transaction() {
    let input = TxInput { prev_tx_hash: zero_hash(), index: 0, script_sig: vec![], sequence: 0 };
    let output = TxOutput { value: 100, script_pubkey: vec![] };
    let tx = Transaction::new(1, vec![input], vec![output], 0);
    let diff = UtxoDiff::from_transaction(&tx);
    assert_eq!(diff.removed.len(), 1);
    assert_eq!(diff.added.len(), 1);
}

#[test]
fn test_apply_diff() {
    let mut collection = UtxoCollection::new();
    let outpoint = OutPoint { tx_hash: zero_hash(), index: 0 };
    let output = TxOutput { value: 100, script_pubkey: vec![] };
    let mut diff = UtxoDiff::new();
    diff.add(outpoint, output.clone());
    assert!(diff.apply_to(&mut collection).is_ok());
    assert_eq!(collection.get(&outpoint), Some(output));
}

#[test]
fn test_diff_atomicity_on_missing_removal() {
    let mut collection = UtxoCollection::new();
    let o1 = OutPoint { tx_hash: h(1, 0, 0, 0), index: 0 };
    let o2 = OutPoint { tx_hash: h(2, 0, 0, 0), index: 0 };
    let o3 = OutPoint { tx_hash: h(3, 0, 0, 0), index: 0 };
    collection.insert(o1, TxOutput { value: 100, script_pubkey: vec![] }).unwrap();
    let mut good = UtxoDiff::new();
    good.add(o2, TxOutput { value: 50, script_pubkey: vec![] });
    good.remove(o1);
    assert!(good.apply_to(&mut collection).is_ok());
    assert_eq!(collection.get(&o1), None);
    assert_eq!(collection.get(&o2), Some(TxOutput { value: 50, script_pubkey: vec![] }));
    let mut bad = UtxoDiff::new();
    bad.add(o3, TxOutput { value: 25, script_pubkey: vec![] });
    bad.remove(o1);
    assert!(bad.apply_to(&mut collection).is_err());
    assert_eq!(collection.get(&o3), None);
    assert_eq!(collection.get(&o2), Some(TxOutput { value: 50, script_pubkey: vec![] }));
}

#[test]
fn test_diff_from_outputs_spend_one() {
    let outputs = vec![
        TxOutput { value: 10, script_pubkey: vec![] },
        TxOutput { value: 20, script_pubkey: vec![] },
        TxOutput { value: 30, script_pubkey: vec![] },
    ];
    let tx = Transaction::new(1, vec![], outputs, 0);
    let diff = UtxoDiff::from_transaction(&tx);
    let mut collection = UtxoCollection::new();
    assert!(diff.apply_to(&mut collection).is_ok());
    assert_eq!(collection.len(), 3);
    let first = diff.added[0].0;
    collection.remove(&first).unwrap();
    assert_eq!(collection.len(), tx.outputs.len() - 1);
}

#[test]
fn test_diff_reverse_spends_added() {
    let mut diff = UtxoDiff::new();
    let o1 = OutPoint { tx_hash: h(1, 0, 0, 0), index: 0 };
    diff.add(o1, TxOutput { value: 5, script_pubkey: vec![] });
    let reversed = diff.reverse();
    assert_eq!(reversed.added.len(), 0);
    assert_eq!(reversed.removed, vec![o1]);
}

#[test]
fn test_get_utxo() {
    let mut collection = UtxoCollection::new();
    let outpoint = OutPoint { tx_hash: zero_hash(), index: 0 };
    let output = TxOutput { value: 100, script_pubkey: vec![1, 2, 3] };
    collection.insert(outpoint, output.clone()).unwrap();
    assert_eq!(collection.get_utxo(&outpoint), Some(output));
}

#[test]
fn test_get_balance() {
    let mut collection = UtxoCollection::new();
    let script = vec![1, 2, 3];
    let outpoint1 = OutPoint { tx_hash: zero_hash(), index: 0 };
    let outpoint2 = OutPoint { tx_hash: h(1, 0, 0, 0), index: 0 };
    let output1 = TxOutput { value: 100, script_pubkey: script.clone() };
    let output2 = TxOutput { value: 200, script_pubkey: script.clone() };
    collection.insert(outpoint1, output1).unwrap();
    collection.insert(outpoint2, output2).unwrap();
    assert_eq!(collection.get_balance(&script), 300);
}

#[test]
fn test_new_from_collection() {
    let mut collection = UtxoCollection::new();
    let outpoint = OutPoint { tx_hash: zero_hash(), index: 0 };
    let output = TxOutput { value: 100, script_pubkey: vec![] };
    collection.insert(outpoint, output).unwrap();
    let view = UtxoView::new_from_collection(&collection);
    assert!(view.contains(&outpoint));
}

#[test]
fn test_validate_tx() {
    let mut collection = UtxoCollection::new();
    let outpoint = OutPoint { tx_hash: zero_hash(), index: 0 };
    let output = TxOutput { value: 100, script_pubkey: vec![] };
    collection.insert(outpoint, output).unwrap();
    let view = UtxoView::new_from_collection(&collection);
    let input = TxInput { prev_tx_hash: zero_hash(), index: 0, script_sig: vec![], sequence: 0 };
    let tx = Transaction::new(1, vec![input], vec![], 0);
    assert!(view.validate_tx(&tx).is_ok());
}

#[test]
fn test_validate_invalid_tx() {
    let collection = UtxoCollection::new();
    let view = UtxoView::new_from_collection(&collection);
    let input = TxInput { prev_tx_hash: h(8, 8, 8, 8), index: 0, script_sig: vec![], sequence: 0 };
    let tx = Transaction::new(1, vec![input], vec![], 0);
    assert!(view.validate_tx(&tx).is_err());
}

#[test]
fn test_view_coinbase_bypasses_presence() {
    let collection = UtxoCollection::new();
    let view = UtxoView::new_from_collection(&collection);
    let input = TxInput { prev_tx_hash: zero_hash(), index: 0, script_sig: vec![], sequence: 0 };
    let tx = Transaction::new(1, vec![input], vec![], 0);
    assert!(view.validate_tx(&tx).is_ok());
}

#[test]
fn test_view_apply_diff() {
    let collection = UtxoCollection::new();
    let mut view = UtxoView::new_from_collection(&collection);
    let o1 = OutPoint { tx_hash: h(1, 0, 0, 0), index: 0 };
    let mut diff = UtxoDiff::new();
    diff.add(o1, TxOutput { value: 5, script_pubkey: vec![] });
    view.apply_diff(&diff);
    assert!(view.contains(&o1));
    let mut spend = UtxoDiff::new();
    spend.remove(o1);
    view.apply_diff(&spend);
    assert!(!view.contains(&o1));
}

#[test]
fn test_apply_diff_error_kinds() {
    let mut collection = UtxoCollection::new();
    let o1 = OutPoint { tx_hash: h(1, 0, 0, 0), index: 0 };
    let o2 = OutPoint { tx_hash: h(2, 0, 0, 0), index: 0 };
    collection.insert(o1, TxOutput { value: 100, script_pubkey: vec![] }).unwrap();
    let mut conflicting = UtxoDiff::new();
    conflicting.add(o1, TxOutput { value: 5, script_pubkey: vec![] });
    assert!(matches!(
        conflicting.apply_to(&mut collection),
        Err(consensus_core::utxo::UtxoError::AlreadySpent(_))
    ));
    let mut missing = UtxoDiff::new();
    missing.remove(o2);
    assert!(matches!(
        missing.apply_to(&mut collection),
        Err(consensus_core::utxo::UtxoError::NotFound(_))
    ));
}
