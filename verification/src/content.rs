//! Proposal content: batches of transactions and the metadata of the block
//! they form.

use vstd::prelude::*;
use crate::hash::{BlockHash, byte_order};
use core::cmp::Ordering;
use vstd::std_specs::cmp::PartialOrdSpecImpl;

verus! {

/// A transaction: opaque bytes.
#[derive(Clone, Debug, PartialEq, Eq)]
pub struct Transaction(pub Vec<u8>);

impl Transaction {
    /// A transaction holding `bytes`.
    pub fn new(bytes: Vec<u8>) -> (out: Transaction)
        ensures
            out.0@ == bytes@,
    {
        Transaction(bytes)
    }

    /// The bytes of the transaction.
    pub fn as_bytes(&self) -> (out: &[u8])
        ensures
            out@ == self.0@,
    {
        self.0.as_slice()
    }

    /// The size of the transaction in bytes.
    pub fn size_bytes(&self) -> (out: usize)
        ensures
            out == self.0@.len(),
    {
        self.0.len()
    }
}

/// The total size in bytes of a sequence of transactions.
pub open spec fn txs_size(txs: Seq<Transaction>) -> nat
    decreases txs.len(),
{
    if txs.len() == 0 { 0 } else { txs_size(txs.drop_last()) + txs.last().0@.len() }
}

/// A batch of transactions.
#[derive(Clone, Debug, PartialEq, Eq)]
pub struct TransactionBatch(pub Vec<Transaction>);

impl TransactionBatch {
    /// A batch holding `transactions`.
    pub fn new(transactions: Vec<Transaction>) -> (out: TransactionBatch)
        ensures
            out.0@ == transactions@,
    {
        TransactionBatch(transactions)
    }

    /// Adds a transaction at the end of the batch.
    pub fn push(&mut self, transaction: Transaction)
        ensures
            final(self).0@ == old(self).0@.push(transaction),
    {
        self.0.push(transaction);
    }

    /// The number of transactions in the batch.
    pub fn len(&self) -> (out: usize)
        ensures
            out == self.0@.len(),
    {
        self.0.len()
    }

    /// Whether the batch holds no transaction.
    pub fn is_empty(&self) -> (out: bool)
        ensures
            out == (self.0@.len() == 0),
    {
        self.0.len() == 0
    }

    /// The transactions of the batch.
    pub fn transactions(&self) -> (out: &[Transaction])
        ensures
            out@ == self.0@,
    {
        self.0.as_slice()
    }

    /// The total size of the transactions in bytes.
    pub fn size_bytes(&self) -> (out: usize)
        requires
            txs_size(self.0@) <= usize::MAX,
        ensures
            out == txs_size(self.0@),
    {
        let mut total: usize = 0;
        let mut i: usize = 0;
        while i < self.0.len()
            invariant
                0 <= i <= self.0@.len(),
                total == txs_size(self.0@.subrange(0, i as int)),
                txs_size(self.0@) <= usize::MAX,
            decreases self.0@.len() - i,
        {
            proof {
                assert(self.0@.subrange(0, i as int + 1).drop_last() =~= self.0@.subrange(0, i as int));
                lemma_txs_size_prefix(self.0@, i as int + 1);
            }
            total = total + self.0[i].size_bytes();
            i += 1;
        }
        assert(self.0@.subrange(0, i as int) =~= self.0@);
        total
    }
}

/// The size of a prefix of a sequence of transactions is at most that of the sequence.
pub proof fn lemma_txs_size_prefix(txs: Seq<Transaction>, n: int)
    requires
        0 <= n <= txs.len(),
    ensures
        txs_size(txs.subrange(0, n)) <= txs_size(txs),
    decreases txs.len() - n,
{
    if n < txs.len() {
        lemma_txs_size_prefix(txs, n + 1);
        assert(txs.subrange(0, n + 1).drop_last() =~= txs.subrange(0, n));
    } else {
        assert(txs.subrange(0, n) =~= txs);
    }
}

/// The metadata of a proposed block: its proof and its hash.
#[derive(Clone, Debug, PartialEq, Eq)]
pub struct BlockMetadata {
    pub proof: Vec<u8>,
    pub hash: BlockHash,
}

impl BlockMetadata {
    /// Metadata with `proof` and `hash`.
    pub fn new(proof: Vec<u8>, hash: BlockHash) -> (out: BlockMetadata)
        ensures
            out.proof@ == proof@,
            out.hash == hash,
    {
        BlockMetadata { proof, hash }
    }

    /// The size of the metadata in bytes: its proof and its 32-byte hash.
    pub fn size_bytes(&self) -> (out: usize)
        requires
            self.proof@.len() + 32 <= usize::MAX,
        ensures
            out == self.proof@.len() + 32,
    {
        self.proof.len() + 32
    }
}

/// The content of a proposal: a batch of transactions and the block metadata.
#[derive(Clone, Debug, PartialEq, Eq)]
pub struct Content {
    pub tx_batch: TransactionBatch,
    pub metadata: BlockMetadata,
}

impl Content {
    /// Content with `tx_batch` and `metadata`.
    pub fn new(tx_batch: TransactionBatch, metadata: BlockMetadata) -> (out: Content)
        ensures
            out.tx_batch == tx_batch,
            out.metadata == metadata,
    {
        Content { tx_batch, metadata }
    }

    /// The hash of the block, which identifies the content.
    pub fn block_hash(&self) -> (out: BlockHash)
        ensures
            out == self.metadata.hash,
    {
        self.metadata.hash
    }

    /// The size of the content in bytes: transactions and metadata.
    pub fn size_bytes(&self) -> (out: usize)
        requires
            txs_size(self.tx_batch.0@) + self.metadata.proof@.len() + 32 <= usize::MAX,
        ensures
            out == txs_size(self.tx_batch.0@) + self.metadata.proof@.len() + 32,
    {
        self.tx_batch.size_bytes() + self.metadata.size_bytes()
    }

    /// The number of transactions.
    pub fn tx_count(&self) -> (out: usize)
        ensures
            out == self.tx_batch.0@.len(),
    {
        self.tx_batch.transactions().len()
    }
}

/// Contents are ordered by their block hashes.
impl PartialOrd for Content {
    fn partial_cmp(&self, other: &Content) -> (out: Option<Ordering>) {
        Some(self.metadata.hash.compare(&other.metadata.hash))
    }
}

impl PartialOrdSpecImpl for Content {
    open spec fn obeys_partial_cmp_spec() -> bool {
        true
    }

    open spec fn partial_cmp_spec(&self, other: &Content) -> Option<Ordering> {
        Some(byte_order(self.metadata.hash.0@, other.metadata.hash.0@))
    }
}

/// A part of a proposal as it is streamed: a batch of transactions, or the proof.
#[derive(Clone, Debug, PartialEq, Eq)]
pub enum ProposalPart {
    TxBatch(TransactionBatch),
    Proof(Vec<u8>),
}

} // verus!
