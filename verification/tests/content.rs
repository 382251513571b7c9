use malachite::content::{BlockMetadata, Content, ProposalPart, Transaction, TransactionBatch};
use malachite::hash::BlockHash;
use malachite::mempool::generate_transactions;

fn content() -> Content {
    let batch = TransactionBatch::new(vec![
        Transaction::new(vec![1, 2, 3]),
        Transaction::new(vec![4]),
        Transaction::new(vec![]),
    ]);
    Content::new(batch, BlockMetadata::new(vec![9, 9], BlockHash::new([7; 32])))
}

#[test]
fn content_sizes_and_counts() {
    let c = content();
    assert_eq!(c.tx_count(), 3);
    assert_eq!(c.tx_batch.size_bytes(), 4);
    assert_eq!(c.metadata.size_bytes(), 34);
    assert_eq!(c.size_bytes(), 38);
    assert_eq!(c.block_hash(), BlockHash::new([7; 32]));
}

#[test]
fn batch_operations() {
    let mut b = TransactionBatch::new(vec![]);
    assert!(b.is_empty());
    b.push(Transaction::new(vec![5, 6]));
    assert_eq!(b.len(), 1);
    assert_eq!(b.transactions()[0].as_bytes(), &[5, 6]);
    assert_eq!(b.transactions()[0].size_bytes(), 2);
    let part = ProposalPart::TxBatch(b.clone());
    assert_eq!(part, ProposalPart::TxBatch(b));
}

#[test]
fn generated_transactions_have_requested_shape() {
    let txs = generate_transactions(4, 16);
    assert_eq!(txs.len(), 4);
    assert!(txs.iter().all(|t| t.size_bytes() == 16));
    assert!(generate_transactions(0, 16).is_empty());
}

#[test]
fn contents_are_ordered_by_block_hash() {
    let mut low = [0u8; 32];
    low[31] = 1;
    let mut high = [0u8; 32];
    high[0] = 1;
    let a = Content::new(TransactionBatch::new(vec![Transaction::new(vec![9])]), BlockMetadata::new(vec![], BlockHash::new(high)));
    let b = Content::new(TransactionBatch::new(vec![]), BlockMetadata::new(vec![1], BlockHash::new(low)));
    assert!(b < a);
    assert_eq!(a.partial_cmp(&b), Some(std::cmp::Ordering::Greater));
    assert_eq!(a.block_hash().compare(&a.block_hash()), std::cmp::Ordering::Equal);
    assert_eq!(b.block_hash().compare(&a.block_hash()), std::cmp::Ordering::Less);
}
