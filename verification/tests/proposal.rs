use malachite::content::{ProposalPart, Transaction, TransactionBatch};
use malachite::proposal::{keeps_building, next_build_action, retain_height, step_parts, BuildAction, ProposalBuilder};
use sha2::Digest;

fn tx(n: usize, byte: u8) -> Transaction {
    Transaction::new(vec![byte; n])
}

#[test]
fn transactions_packed_until_one_does_not_fit() {
    let mut b = ProposalBuilder::new(10);
    let (batch, count) = b.add_reaped(vec![tx(4, 1), tx(4, 2), tx(4, 3), tx(1, 4)]);
    assert_eq!(count, 2);
    assert_eq!(batch.len(), 2);
    assert_eq!(b.block_size(), 8);
    // A later batch may still add smaller transactions.
    let (batch, count) = b.add_reaped(vec![tx(2, 5), tx(1, 6)]);
    assert_eq!(count, 1);
    assert_eq!(batch.transactions()[0].as_bytes(), &[5, 5]);
    assert_eq!(b.block_size(), 10);
    let (_, count) = b.add_reaped(vec![]);
    assert_eq!(count, 0);
}

#[test]
fn block_hash_is_sha256_of_packed_transactions() {
    let mut b = ProposalBuilder::new(100);
    b.add_reaped(vec![tx(2, 1), tx(3, 2)]);
    let expected: [u8; 32] = sha2::Sha256::digest([1u8, 1, 2, 2, 2]).into();
    assert_eq!(b.block_hash().as_bytes(), &expected);
    let empty: [u8; 32] = sha2::Sha256::digest(b"").into();
    assert_eq!(ProposalBuilder::new(0).block_hash().as_bytes(), &empty);
}

#[test]
fn retain_height_examples() {
    assert_eq!(retain_height(100, 10), Some(90));
    assert_eq!(retain_height(11, 10), None);
    assert_eq!(retain_height(12, 10), Some(2));
    assert_eq!(retain_height(5, 10), None);
}

#[test]
fn build_steps_follow_mempool_and_deadlines() {
    assert_eq!(next_build_action(true, true, true), BuildAction::Stop);
    assert_eq!(next_build_action(false, true, true), BuildAction::Abort);
    assert_eq!(next_build_action(false, false, true), BuildAction::Finish);
    assert_eq!(next_build_action(false, false, false), BuildAction::SendBatch);
    assert!(keeps_building(BuildAction::SendBatch));
    assert!(!keeps_building(BuildAction::Finish));
    assert!(!keeps_building(BuildAction::Abort));
    assert!(!keeps_building(BuildAction::Stop));
    let batch = TransactionBatch::new(vec![Transaction::new(vec![1])]);
    let parts = step_parts(BuildAction::Finish, batch.clone());
    assert_eq!(parts, vec![ProposalPart::TxBatch(batch.clone()), ProposalPart::Proof(vec![42])]);
    assert_eq!(step_parts(BuildAction::SendBatch, batch.clone()), vec![ProposalPart::TxBatch(batch.clone())]);
    assert!(step_parts(BuildAction::Abort, batch).is_empty());
}
