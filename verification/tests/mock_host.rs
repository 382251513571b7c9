use std::hash::{Hash, Hasher};
use malachite::content::{BlockMetadata, Transaction, TransactionBatch};
use malachite::hash::BlockHash;
use malachite::mock_host::{build_proposal_content, build_value, HostState, Validity};
use malachite::part_store::{BlockPart, PartContent};

fn txs(height: u64, round: i64, sequence: u64, bytes: &[&[u8]]) -> BlockPart {
    BlockPart {
        height,
        round,
        sequence,
        validator_address: vec![sequence as u8],
        content: PartContent::TxBatch(TransactionBatch::new(
            bytes.iter().map(|b| Transaction::new(b.to_vec())).collect(),
        )),
    }
}

fn meta(height: u64, round: i64, sequence: u64, hash_byte: u8) -> BlockPart {
    BlockPart {
        height,
        round,
        sequence,
        validator_address: vec![sequence as u8],
        content: PartContent::Metadata(BlockMetadata::new(vec![42], BlockHash::new([hash_byte; 32]))),
    }
}

fn tx_bytes(batch: &TransactionBatch) -> Vec<Vec<u8>> {
    batch.transactions().iter().map(|t| t.as_bytes().to_vec()).collect()
}

#[test]
fn content_gathers_transactions_in_order_and_last_metadata() {
    let a = txs(1, 0, 0, &[b"a", b"b"]);
    let m1 = meta(1, 0, 1, 1);
    let c = txs(1, 0, 2, &[b"c"]);
    let m2 = meta(1, 0, 3, 2);
    let (content, address) = build_proposal_content(&[&a, &m1, &c, &m2]).unwrap();
    assert_eq!(tx_bytes(&content.tx_batch), vec![b"a".to_vec(), b"b".to_vec(), b"c".to_vec()]);
    assert_eq!(content.block_hash(), BlockHash::new([2; 32]));
    assert_eq!(address, vec![3]);
}

#[test]
fn content_needs_parts_and_metadata() {
    assert!(build_proposal_content(&[]).is_none());
    let a = txs(1, 0, 0, &[b"a"]);
    assert!(build_proposal_content(&[&a]).is_none());
}

#[test]
fn value_carries_height_round_and_validity() {
    let m = meta(4, 2, 0, 9);
    let v = build_value(&[&m], 4, 2).unwrap();
    assert_eq!(v.height, 4);
    assert_eq!(v.round, 2);
    assert_eq!(v.valid, Validity::Valid);
    assert_eq!(v.value.tx_count(), 0);
    assert_eq!(v.validator_address, vec![0]);
}

#[test]
fn received_part_completes_value_when_highest_part_has_metadata() {
    let mut state = HostState::new();
    // The part of highest sequence decides whether the block is complete.
    assert!(state.receive_block_part(txs(5, 0, 0, &[b"x"])).is_none());
    let v = state.receive_block_part(meta(5, 0, 1, 7)).unwrap();
    assert_eq!(v.height, 5);
    assert_eq!(tx_bytes(&v.value.tx_batch), vec![b"x".to_vec()]);
    assert_eq!(v.value.block_hash(), BlockHash::new([7; 32]));
    // The address is that of the part listed last: the one of lowest sequence.
    assert_eq!(v.validator_address, vec![0]);
    // Metadata at a lower sequence than a batch does not complete the block.
    let mut other = HostState::new();
    assert!(other.receive_block_part(meta(6, 0, 0, 7)).is_some());
    assert!(other.receive_block_part(txs(6, 0, 1, &[b"y"])).is_none());
}

#[test]
fn received_part_prunes_heights_below_the_previous() {
    let mut state = HostState::new();
    state.store_part(meta(1, 0, 0, 1));
    state.store_part(meta(2, 0, 0, 2));
    assert!(state.receive_block_part(txs(3, 0, 1, &[b"y"])).is_none());
    assert!(state.received_value(1, 0).is_none());
    assert!(state.received_value(2, 0).is_some());
}

#[test]
fn local_value_and_decision() {
    let mut state = HostState::new();
    state.store_part(txs(8, 1, 1, &[b"t"]));
    state.store_part(meta(8, 1, 2, 3));
    let content = state.local_value(8, 1).unwrap();
    assert_eq!(content.tx_count(), 1);
    assert!(state.on_decided(10, 0).is_empty());
    assert!(state.local_value(8, 1).is_none());
    assert!(state.local_value(9, 0).is_none());
}

fn default_hash(bytes: &[u8]) -> u64 {
    let mut h = std::hash::DefaultHasher::new();
    bytes.to_vec().hash(&mut h);
    h.finish()
}

#[test]
fn decided_value_hashes_its_transactions() {
    let mut state = HostState::new();
    state.store_part(txs(4, 0, 0, &[b"a", b"b"]));
    state.store_part(txs(4, 0, 1, &[b"c"]));
    state.store_part(meta(4, 0, 2, 1));
    state.store_part(txs(2, 0, 0, &[b"old"]));
    let hashes = state.on_decided(4, 0);
    // Parts from the highest sequence down, transactions in order within a part.
    assert_eq!(hashes, vec![default_hash(b"c"), default_hash(b"a"), default_hash(b"b")]);
    assert!(state.local_value(2, 0).is_none());
    assert!(state.local_value(4, 0).is_some());
}
