use malachite::content::{Transaction, TransactionBatch};
use malachite::part_store::{BlockPart, PartContent, PartStore};

fn part(height: u64, round: i64, sequence: u64, tag: u8) -> BlockPart {
    BlockPart {
        height,
        round,
        sequence,
        validator_address: vec![7],
        content: PartContent::TxBatch(TransactionBatch::new(vec![Transaction::new(vec![tag])])),
    }
}

fn batch_of(tag: u8) -> PartContent {
    PartContent::TxBatch(TransactionBatch::new(vec![Transaction::new(vec![tag])]))
}

#[test]
fn store_keeps_first_part_per_key() {
    let mut s = PartStore::new();
    s.store(part(1, 0, 0, 1));
    s.store(part(1, 0, 0, 2));
    let p = s.get(1, 0, 0).unwrap();
    assert_eq!(p.content, batch_of(1));
    assert!(s.get(1, 0, 1).is_none());
}

#[test]
fn all_parts_sorted_by_descending_sequence() {
    let mut s = PartStore::new();
    s.store(part(1, 0, 1, 1));
    s.store(part(1, 0, 3, 3));
    s.store(part(1, 1, 2, 9));
    s.store(part(1, 0, 2, 2));
    s.store(part(2, 0, 5, 5));
    let parts = s.all_parts(1, 0);
    let seqs: Vec<u64> = parts.iter().map(|p| p.sequence).collect();
    assert_eq!(seqs, vec![3, 2, 1]);
    assert!(s.all_parts(3, 0).is_empty());
}

#[test]
fn prune_drops_lower_heights() {
    let mut s = PartStore::new();
    s.store(part(1, 0, 0, 1));
    s.store(part(2, 0, 0, 2));
    s.store(part(3, 0, 0, 3));
    s.prune(2);
    assert!(s.get(1, 0, 0).is_none());
    assert!(s.get(2, 0, 0).is_some());
    assert!(s.get(3, 0, 0).is_some());
}
