//! Building a proposal: transactions reaped from the mempool are packed into
//! batches while the block stays within its size limit, and the block hash is
//! the SHA-256 digest of the packed transactions. Also, which decided blocks to
//! prune.

use vstd::prelude::*;
use crate::content::{ProposalPart, Transaction, TransactionBatch, txs_size};
use crate::hash::BlockHash;

verus! {

broadcast use vstd::seq_lib::group_seq_properties;

/// The SHA-256 digest of `data`.
pub uninterp spec fn sha256(data: Seq<u8>) -> Seq<u8>;

/// The SHA-256 digest of `data`, computed by `sha2::Sha256::digest`.
///
/// The contract names the digest `sha256(data)` and says nothing more of it.
#[verifier::external_body]
fn sha256_digest(data: &[u8]) -> (out: [u8; 32])
    ensures
        out@ == sha256(data@),
{
    <sha2::Sha256 as sha2::Digest>::digest(data).into()
}

/// The bytes of a sequence of transactions, one after the other.
pub open spec fn txs_bytes(txs: Seq<Transaction>) -> Seq<u8>
    decreases txs.len(),
{
    if txs.len() == 0 { Seq::empty() } else { txs_bytes(txs.drop_last()) + txs.last().0@ }
}

/// Whether `k` transactions of `txs` are packed into a block of `size` bytes with a
/// limit of `max` bytes: each of the first `k` fits after those before it, and the
/// next one, if any, does not.
pub open spec fn packs(size: int, max: int, txs: Seq<Transaction>, k: int) -> bool {
    &&& 0 <= k <= txs.len()
    &&& (k == 0 || size + txs_size(txs.subrange(0, k)) <= max)
    &&& (k == txs.len() || size + txs_size(txs.subrange(0, k + 1)) > max)
}

/// The state of a proposal being built: the size limit, the size so far and the
/// bytes of the transactions packed so far.
pub struct ProposalBuilder {
    max_block_size: u64,
    block_size: usize,
    block_bytes: Vec<u8>,
}

impl ProposalBuilder {
    /// The size limit of the block.
    pub closed spec fn max_size(&self) -> u64 {
        self.max_block_size
    }

    /// The size of the transactions packed so far.
    pub closed spec fn size(&self) -> usize {
        self.block_size
    }

    /// The bytes of the transactions packed so far.
    pub closed spec fn bytes(&self) -> Seq<u8> {
        self.block_bytes@
    }

    /// A builder for a block of at most `max_block_size` bytes.
    pub fn new(max_block_size: u64) -> (out: ProposalBuilder)
        ensures
            out.max_size() == max_block_size,
            out.size() == 0,
            out.bytes() == Seq::<u8>::empty(),
    {
        ProposalBuilder { max_block_size, block_size: 0, block_bytes: Vec::new() }
    }

    /// The size of the transactions packed so far.
    pub fn block_size(&self) -> (out: usize)
        ensures
            out == self.size(),
    {
        self.block_size
    }

    /// The number of bytes of the transactions packed so far.
    pub fn byte_len(&self) -> (out: usize)
        ensures
            out == self.bytes().len(),
    {
        self.block_bytes.len()
    }

    /// Packs the transactions of `txes`, in order, for as long as each fits within
    /// the size limit, and returns them as a batch with their number. The first one
    /// that does not fit ends the packing.
    pub fn add_reaped(&mut self, txes: Vec<Transaction>) -> (out: (TransactionBatch, usize))
        requires
            old(self).size() + txs_size(txes@) <= usize::MAX,
            old(self).bytes().len() + txs_bytes(txes@).len() <= usize::MAX,
        ensures
            packs(old(self).size() as int, old(self).max_size() as int, txes@, out.1 as int),
            out.0.0@ == txes@.subrange(0, out.1 as int),
            final(self).size() == old(self).size() + txs_size(out.0.0@),
            final(self).bytes() == old(self).bytes() + txs_bytes(out.0.0@),
            final(self).max_size() == old(self).max_size(),
            old(self).size() <= old(self).max_size() ==> final(self).size() <= final(self).max_size(),
    {
        let ghost t = txes@;
        let ghost size0 = self.block_size as int;
        let ghost bytes0 = self.block_bytes@;
        let mut batch: Vec<Transaction> = Vec::new();
        let n = txes.len();
        let mut rest = txes;
        let mut count: usize = 0;
        proof {
            assert(t.subrange(0, 0) =~= Seq::<Transaction>::empty());
            lemma_txs_prefix_bounds(t, 0);
        }
        while rest.len() > 0
            invariant
                count + rest@.len() == t.len(),
                rest@ == t.subrange(count as int, t.len() as int),
                batch@ == t.subrange(0, count as int),
                self.block_size == size0 + txs_size(batch@),
                self.block_bytes@ == bytes0 + txs_bytes(batch@),
                size0 + txs_size(t) <= usize::MAX,
                bytes0.len() + txs_bytes(t).len() <= usize::MAX,
                self.max_block_size == old(self).max_block_size,
                size0 == old(self).block_size,
                bytes0 == old(self).block_bytes@,
                t == txes@,
                t.len() == n,
                count == 0 || size0 + txs_size(t.subrange(0, count as int)) <= self.max_block_size,
            ensures
                packs(size0, self.max_block_size as int, t, count as int),
            decreases rest@.len(),
        {
            proof {
                assert(rest@[0] == t[count as int]);
                assert(t.subrange(0, count as int + 1) =~= t.subrange(0, count as int).push(t[count as int]));
                assert(t.subrange(0, count as int + 1).drop_last() =~= t.subrange(0, count as int));
                lemma_txs_prefix_bounds(t, count as int + 1);
            }
            let size = rest[0].size_bytes();
            if self.block_size as u128 + size as u128 > self.max_block_size as u128 {
                break;
            }
            let tx = rest.remove(0);
            self.block_size = self.block_size + size;
            let mut j: usize = 0;
            let ghost before = self.block_bytes@;
            let ghost size_now = self.block_size;
            let ghost max_now = self.max_block_size;
            while j < tx.0.len()
                invariant
                    0 <= j <= tx.0@.len(),
                    self.block_bytes@ == before + tx.0@.subrange(0, j as int),
                    self.block_size == size_now,
                    self.max_block_size == max_now,
                    before.len() + tx.0@.len() <= usize::MAX,
                decreases tx.0@.len() - j,
            {
                self.block_bytes.push(tx.0[j]);
                j += 1;
                assert(self.block_bytes@ =~= before + tx.0@.subrange(0, j as int));
            }
            assert(tx.0@.subrange(0, j as int) =~= tx.0@);
            batch.push(tx);
            count += 1;
            proof {
                assert(batch@ =~= t.subrange(0, count as int));
                assert(batch@.drop_last() =~= t.subrange(0, count as int - 1));
                assert(self.block_bytes@ =~= bytes0 + txs_bytes(batch@));
            }
            assert(rest@ =~= t.subrange(count as int, t.len() as int));
        }
        proof {
            if count as int == t.len() {
                assert(t.subrange(0, count as int) =~= t);
            }
        }
        (TransactionBatch(batch), count)
    }

    /// The hash of the block: the SHA-256 digest of the packed transactions.
    pub fn block_hash(&self) -> (out: BlockHash)
        ensures
            out.0.0@ == sha256(self.bytes()),
    {
        BlockHash(crate::hash::Hash(sha256_digest(self.block_bytes.as_slice())))
    }
}

/// The size and bytes of a prefix of `txs` are within those of `txs`.
pub proof fn lemma_txs_prefix_bounds(txs: Seq<Transaction>, n: int)
    requires
        0 <= n <= txs.len(),
    ensures
        txs_size(txs.subrange(0, n)) <= txs_size(txs),
        txs_bytes(txs.subrange(0, n)).len() <= txs_bytes(txs).len(),
    decreases txs.len() - n,
{
    if n < txs.len() {
        lemma_txs_prefix_bounds(txs, n + 1);
        assert(txs.subrange(0, n + 1).drop_last() =~= txs.subrange(0, n));
    } else {
        assert(txs.subrange(0, n) =~= txs);
    }
}

/// The height below which decided blocks are pruned once the highest stored block
/// is at `max_height` and `max_retain_blocks` blocks are kept: none when that
/// height is 1 or less.
pub fn retain_height(max_height: u64, max_retain_blocks: u64) -> (out: Option<u64>)
    ensures
        out == if max_height <= max_retain_blocks + 1 {
            None::<u64>
        } else {
            Some((max_height - max_retain_blocks) as u64)
        },
{
    let retain = max_height.saturating_sub(max_retain_blocks);
    if retain <= 1 {
        None
    } else {
        Some(retain)
    }
}

/// What the proposal builder does after reaping transactions from the mempool.
#[derive(Copy, Clone, Debug, PartialEq, Eq)]
pub enum BuildAction {
    /// The mempool had nothing left: building stops, with no proof and no hash.
    Stop,
    /// Building took longer than its allowance: it stops, with no proof and no hash.
    Abort,
    /// The batch is sent and building goes on.
    SendBatch,
    /// The deadline has passed: the batch is sent, then the proof, and the block
    /// hash is produced; building ends.
    Finish,
}

/// The next step of proposal building, once transactions were reaped (none when
/// `reaped_empty`) and executed, given whether the time allowed for building and
/// the proposal deadline have passed.
pub fn next_build_action(reaped_empty: bool, past_build_deadline: bool, past_deadline: bool) -> (out: BuildAction)
    ensures
        out == if reaped_empty {
            BuildAction::Stop
        } else if past_build_deadline {
            BuildAction::Abort
        } else if past_deadline {
            BuildAction::Finish
        } else {
            BuildAction::SendBatch
        },
{
    if reaped_empty {
        BuildAction::Stop
    } else if past_build_deadline {
        BuildAction::Abort
    } else if past_deadline {
        BuildAction::Finish
    } else {
        BuildAction::SendBatch
    }
}

/// Whether building goes on after `action`: only after a batch was sent.
pub fn keeps_building(action: BuildAction) -> (out: bool)
    ensures
        out == (action is SendBatch),
{
    matches!(action, BuildAction::SendBatch)
}

/// The proof that ends a proposal.
pub open spec fn proof_bytes() -> Seq<u8> {
    seq![42u8]
}

/// The parts sent at step `action` with the batch just packed: the batch when it
/// is sent, followed by the proof when building finishes; nothing when building
/// stops or aborts. The proof is only ever the last part of a finishing step.
pub fn step_parts(action: BuildAction, batch: TransactionBatch) -> (out: Vec<ProposalPart>)
    ensures
        (action is Stop || action is Abort) ==> out@.len() == 0,
        action is SendBatch ==> out@ == seq![ProposalPart::TxBatch(batch)],
        action is Finish ==> {
            &&& out@.len() == 2
            &&& out@[0] == ProposalPart::TxBatch(batch)
            &&& out@[1] matches ProposalPart::Proof(p) && p@ == proof_bytes()
        },
        forall|i: int| 0 <= i < out@.len() && (#[trigger] out@[i]) is Proof
            ==> action is Finish && i == out@.len() - 1,
{
    match action {
        BuildAction::Stop => Vec::new(),
        BuildAction::Abort => Vec::new(),
        BuildAction::SendBatch => {
            let mut out = Vec::new();
            out.push(ProposalPart::TxBatch(batch));
            out
        },
        BuildAction::Finish => {
            let mut out = Vec::new();
            out.push(ProposalPart::TxBatch(batch));
            let proof = vec![42u8];
            assert(proof@ =~= proof_bytes());
            out.push(ProposalPart::Proof(proof));
            out
        },
    }
}

} // verus!
