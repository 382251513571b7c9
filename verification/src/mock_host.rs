//! The mock host's handling of block parts: assembling the content of a proposal
//! from the parts received for a height and round.

use vstd::prelude::*;
use crate::content::{BlockMetadata, Content, Transaction, TransactionBatch};
use crate::part_store::{BlockPart, PartContent, PartKey, PartStore, key_of, parts_of};

verus! {

/// The bytes of each transaction of `txs`.
pub open spec fn tx_views(txs: Seq<Transaction>) -> Seq<Seq<u8>> {
    txs.map_values(|t: Transaction| t.0@)
}

/// The parts behind a sequence of references.
pub open spec fn derefs(parts: Seq<&BlockPart>) -> Seq<BlockPart> {
    parts.map_values(|p: &BlockPart| *p)
}

/// The bytes of the transactions that part `p` carries.
pub open spec fn part_tx_views(p: BlockPart) -> Seq<Seq<u8>> {
    match p.content {
        PartContent::TxBatch(b) => tx_views(b.0@),
        PartContent::Metadata(_) => Seq::empty(),
    }
}

/// The bytes of the transactions of `parts`, part after part.
pub open spec fn parts_tx_views(parts: Seq<BlockPart>) -> Seq<Seq<u8>>
    decreases parts.len(),
{
    if parts.len() == 0 {
        Seq::empty()
    } else {
        parts_tx_views(parts.drop_last()) + part_tx_views(parts.last())
    }
}

/// The metadata of the last part of `parts` that carries metadata.
pub open spec fn last_metadata(parts: Seq<BlockPart>) -> Option<BlockMetadata>
    decreases parts.len(),
{
    if parts.len() == 0 {
        None
    } else {
        match parts.last().content {
            PartContent::Metadata(m) => Some(m),
            PartContent::TxBatch(_) => last_metadata(parts.drop_last()),
        }
    }
}

/// Whether `content`, proposed by `address`, is what `parts` make up: the
/// transactions of all parts in order, the metadata of the last part that carries
/// some, and the address of the validator of the last part.
pub open spec fn content_from(parts: Seq<BlockPart>, content: Content, address: Seq<u8>) -> bool {
    &&& tx_views(content.tx_batch.0@) == parts_tx_views(parts)
    &&& last_metadata(parts) matches Some(m)
    &&& content.metadata.proof@ == m.proof@
    &&& content.metadata.hash == m.hash
    &&& address == parts.last().validator_address@
}

/// Some part of `parts` carries metadata: the last one that does is found.
proof fn lemma_metadata_found(parts: Seq<BlockPart>, i: int)
    requires
        0 <= i < parts.len(),
        parts[i].content is Metadata,
    ensures
        last_metadata(parts) is Some,
    decreases parts.len(),
{
    if i < parts.len() - 1 && parts.last().content is TxBatch {
        assert(parts.drop_last()[i] == parts[i]);
        lemma_metadata_found(parts.drop_last(), i);
    }
}

/// A copy of `tx`.
fn copy_transaction(tx: &Transaction) -> (out: Transaction)
    ensures
        out.0@ == tx.0@,
{
    let bytes = tx.0.clone();
    assert(bytes@ =~= tx.0@);
    Transaction(bytes)
}

/// A copy of `bytes`.
fn copy_bytes(bytes: &Vec<u8>) -> (out: Vec<u8>)
    ensures
        out@ == bytes@,
{
    let out = bytes.clone();
    assert(out@ =~= bytes@);
    out
}

/// The content of the proposal that `block_parts` make up, with the address of the
/// validator of the last of them: the transactions of all parts in order, and the
/// metadata of the last part that carries some. `None` when there is no part or no
/// part carries metadata.
pub fn build_proposal_content(block_parts: &[&BlockPart]) -> (out: Option<(Content, Vec<u8>)>)
    ensures
        out is None <==> (block_parts@.len() == 0 || last_metadata(derefs(block_parts@)) is None),
        out matches Some((content, address)) ==> content_from(derefs(block_parts@), content, address@),
{
    if block_parts.len() == 0 {
        return None;
    }
    let ghost parts = derefs(block_parts@);
    let mut metadata: Option<&BlockMetadata> = None;
    let mut txs: Vec<Transaction> = Vec::new();
    let mut i: usize = 0;
    while i < block_parts.len()
        invariant
            0 <= i <= block_parts@.len(),
            parts == derefs(block_parts@),
            tx_views(txs@) == parts_tx_views(parts.subrange(0, i as int)),
            match metadata {
                None => last_metadata(parts.subrange(0, i as int)) is None,
                Some(m) => last_metadata(parts.subrange(0, i as int)) == Some(*m),
            },
        decreases block_parts@.len() - i,
    {
        let p = block_parts[i];
        assert(parts.subrange(0, i as int + 1).drop_last() =~= parts.subrange(0, i as int));
        assert(parts.subrange(0, i as int + 1).last() == *p);
        match &p.content {
            PartContent::TxBatch(b) => {
                let ghost before = tx_views(txs@);
                let mut j: usize = 0;
                while j < b.0.len()
                    invariant
                        0 <= j <= b.0@.len(),
                        tx_views(txs@) == before + tx_views(b.0@.subrange(0, j as int)),
                    decreases b.0@.len() - j,
                {
                    let ghost pre = txs@;
                    let t = copy_transaction(&b.0[j]);
                    txs.push(t);
                    proof {
                        assert(tx_views(txs@) =~= tx_views(pre).push(t.0@));
                        assert(tx_views(b.0@.subrange(0, j as int + 1))
                            =~= tx_views(b.0@.subrange(0, j as int)).push(b.0@[j as int].0@));
                    }
                    j += 1;
                }
                assert(b.0@.subrange(0, j as int) =~= b.0@);
            },
            PartContent::Metadata(m) => {
                metadata = Some(m);
            },
        }
        i += 1;
    }
    assert(parts.subrange(0, i as int) =~= parts);
    match metadata {
        None => None,
        Some(m) => {
            let proof = copy_bytes(&m.proof);
            let content = Content {
                tx_batch: TransactionBatch(txs),
                metadata: BlockMetadata { proof, hash: m.hash },
            };
            let address = copy_bytes(&block_parts[block_parts.len() - 1].validator_address);
            Some((content, address))
        },
    }
}

/// Whether a proposed value is valid.
#[derive(Copy, Clone, Debug, PartialEq, Eq)]
pub enum Validity {
    Valid,
    Invalid,
}

/// A value proposed by another validator, assembled from its block parts.
#[derive(Debug)]
pub struct ReceivedProposedValue {
    pub validator_address: Vec<u8>,
    pub height: u64,
    pub round: i64,
    pub value: Content,
    pub valid: Validity,
}

/// The value of height `height` and round `round` that `block_parts` make up,
/// proposed by the validator of the last of them and taken as valid. `None` when
/// there is no part or no part carries metadata.
pub fn build_value(block_parts: &[&BlockPart], height: u64, round: i64) -> (out: Option<ReceivedProposedValue>)
    ensures
        out is None <==> (block_parts@.len() == 0 || last_metadata(derefs(block_parts@)) is None),
        out matches Some(v) ==> {
            &&& v.height == height
            &&& v.round == round
            &&& v.valid == Validity::Valid
            &&& content_from(derefs(block_parts@), v.value, v.validator_address@)
        },
{
    match build_proposal_content(block_parts) {
        Some((value, validator_address)) => Some(ReceivedProposedValue {
            validator_address,
            height,
            round,
            value,
            valid: Validity::Valid,
        }),
        None => None,
    }
}

/// Whether `ps` lists the parts of height `h` and round `r` of `view`, from the
/// last to the first in sequence order.
pub open spec fn is_listing(view: Map<PartKey, BlockPart>, h: u64, r: i64, ps: Seq<BlockPart>) -> bool {
    &&& forall|i: int, j: int| 0 <= i < j < ps.len() ==> (#[trigger] ps[i]).sequence > (#[trigger] ps[j]).sequence
    &&& forall|p: BlockPart| #[trigger] parts_of(view, h, r).contains(p) <==> ps.contains(p)
}

/// The lowest height whose parts are kept once a part of height `h` arrives: the
/// height before `h`, or `h` itself when it is zero.
pub open spec fn kept_from(h: u64) -> u64 {
    if h > 0 { (h - 1) as u64 } else { h }
}

/// The state of the mock host: the block parts it has seen.
pub struct HostState {
    pub part_store: PartStore,
}

impl HostState {
    /// A state with no part.
    pub fn new() -> (out: HostState)
        ensures
            out.part_store.wf(),
            out.part_store.view_map() == Map::<PartKey, BlockPart>::empty(),
    {
        HostState { part_store: PartStore::new() }
    }

    /// Handles a block part received from the proposer. The parts of heights below
    /// the one before the part's are dropped and the part is stored. Once the part
    /// of highest sequence stored for its height and round, the last of the block,
    /// carries the metadata, the value those parts make up is returned.
    pub fn receive_block_part(&mut self, block_part: BlockPart) -> (out: Option<ReceivedProposedValue>)
        requires
            old(self).part_store.wf(),
        ensures
            final(self).part_store.wf(),
            ({
                let pruned = old(self).part_store.view_map().restrict(
                    Set::new(|k: PartKey| k.0 >= kept_from(block_part.height)));
                final(self).part_store.view_map() == if pruned.contains_key(key_of(block_part)) {
                    pruned
                } else {
                    pruned.insert(key_of(block_part), block_part)
                }
            }),
            exists|ps: Seq<BlockPart>| {
                &&& is_listing(final(self).part_store.view_map(), block_part.height, block_part.round, ps)
                &&& ps.len() > 0
                &&& (out is None <==> ps[0].content is TxBatch)
                &&& out matches Some(v) ==> {
                    &&& v.height == block_part.height
                    &&& v.round == block_part.round
                    &&& v.valid == Validity::Valid
                    &&& content_from(ps, v.value, v.validator_address@)
                }
            },
    {
        let height = block_part.height;
        let round = block_part.round;
        let ghost key = key_of(block_part);
        let min_height = if height > 0 { height - 1 } else { height };
        self.part_store.prune(min_height);
        self.part_store.store(block_part);
        let parts = self.listed_parts(height, round);
        let ghost ps = derefs(parts@);
        proof {
            let view = self.part_store.view_map();
            assert(view.contains_key(key));
            self.part_store.lemma_keys(key);
            assert(parts_of(view, height, round).contains(view[key]));
        }
        let highest = parts[0];
        let out = match highest.metadata() {
            None => None,
            Some(_) => build_value(parts.as_slice(), height, round),
        };
        proof {
            assert(ps[0] == *highest);
            if highest.content is Metadata {
                lemma_metadata_found(ps, 0);
            }
        }
        out
    }

    /// The parts of height `height` and round `round`, from the last to the first
    /// in sequence order.
    fn listed_parts(&self, height: u64, round: i64) -> (out: Vec<&BlockPart>)
        requires
            self.part_store.wf(),
        ensures
            is_listing(self.part_store.view_map(), height, round, derefs(out@)),
    {
        let parts = self.part_store.all_parts(height, round);
        let ghost ps = derefs(parts@);
        proof {
            let view = self.part_store.view_map();
            assert forall|p: BlockPart| #[trigger] parts_of(view, height, round).contains(p) <==> ps.contains(p) by {
                if parts@.contains(&p) {
                    let i = choose|i: int| 0 <= i < parts@.len() && parts@[i] == &p;
                    assert(ps[i] == p);
                }
                if ps.contains(p) {
                    let i = choose|i: int| 0 <= i < ps.len() && ps[i] == p;
                    assert(parts@[i] == &p);
                }
            }
            assert forall|i: int, j: int| 0 <= i < j < ps.len() implies (#[trigger] ps[i]).sequence > (#[trigger] ps[j]).sequence by {
                assert(ps[i] == *parts@[i] && ps[j] == *parts@[j]);
            }
        }
        parts
    }

    /// Stores a part of a value this node proposes, unless a part is already stored
    /// under its key.
    pub fn store_part(&mut self, block_part: BlockPart)
        requires
            old(self).part_store.wf(),
        ensures
            final(self).part_store.wf(),
            final(self).part_store.view_map() == if old(self).part_store.view_map().contains_key(key_of(block_part)) {
                old(self).part_store.view_map()
            } else {
                old(self).part_store.view_map().insert(key_of(block_part), block_part)
            },
    {
        self.part_store.store(block_part);
    }

    /// The content of the value of height `height` and round `round` that the stored
    /// parts make up, if they carry its metadata.
    pub fn local_value(&self, height: u64, round: i64) -> (out: Option<Content>)
        requires
            self.part_store.wf(),
        ensures
            exists|ps: Seq<BlockPart>| {
                &&& is_listing(self.part_store.view_map(), height, round, ps)
                &&& (out is None <==> (ps.len() == 0 || last_metadata(ps) is None))
                &&& out matches Some(c) ==> content_from(ps, c, ps.last().validator_address@)
            },
    {
        let parts = self.listed_parts(height, round);
        match build_proposal_content(parts.as_slice()) {
            Some((content, _)) => Some(content),
            None => None,
        }
    }

    /// The value of height `height` and round `round` that the stored parts make up,
    /// if they carry its metadata.
    pub fn received_value(&self, height: u64, round: i64) -> (out: Option<ReceivedProposedValue>)
        requires
            self.part_store.wf(),
        ensures
            exists|ps: Seq<BlockPart>| {
                &&& is_listing(self.part_store.view_map(), height, round, ps)
                &&& (out is None <==> (ps.len() == 0 || last_metadata(ps) is None))
                &&& out matches Some(v) ==> {
                    &&& v.height == height
                    &&& v.round == round
                    &&& v.valid == Validity::Valid
                    &&& content_from(ps, v.value, v.validator_address@)
                }
            },
    {
        let parts = self.listed_parts(height, round);
        build_value(parts.as_slice(), height, round)
    }

    /// Once the value of height `height` and round `round` is decided: the hashes
    /// of the transactions of its parts, part after part from the last to the first
    /// in sequence order, which the mempool is told to remove; then the parts of the
    /// heights below the one before `height` are dropped.
    pub fn on_decided(&mut self, height: u64, round: i64) -> (out: Vec<u64>)
        requires
            old(self).part_store.wf(),
        ensures
            final(self).part_store.wf(),
            final(self).part_store.view_map() == old(self).part_store.view_map().restrict(
                Set::new(|k: PartKey| k.0 >= kept_from(height))),
            exists|ps: Seq<BlockPart>| {
                &&& is_listing(old(self).part_store.view_map(), height, round, ps)
                &&& out@ == tx_hashes(parts_tx_views(ps))
            },
    {
        let parts = self.listed_parts(height, round);
        let hashes = decided_tx_hashes(parts.as_slice());
        let min_height = if height > 0 { height - 1 } else { height };
        self.part_store.prune(min_height);
        hashes
    }
}

/// What `std::hash::DefaultHasher` gives for a transaction of bytes `bytes`.
pub uninterp spec fn default_hash(bytes: Seq<u8>) -> u64;

/// The hashes of the transactions whose bytes are `txs`.
pub open spec fn tx_hashes(txs: Seq<Seq<u8>>) -> Seq<u64> {
    txs.map_values(|t: Seq<u8>| default_hash(t))
}

/// Hashes the bytes of `tx` (as a `Vec<u8>`, length first) into a fresh
/// `std::hash::DefaultHasher` and returns its `finish`. A fresh `DefaultHasher` is
/// unseeded, so within one build the hash depends on the bytes alone; std leaves
/// the algorithm open across releases, and the contract only names the result.
#[verifier::external_body]
fn tx_hash(tx: &Transaction) -> (out: u64)
    ensures
        out == default_hash(tx.0@),
{
    let mut hasher = std::hash::DefaultHasher::new();
    std::hash::Hash::hash(&tx.0, &mut hasher);
    std::hash::Hasher::finish(&hasher)
}

/// The hashes of the transactions of `parts`, part after part.
fn decided_tx_hashes(parts: &[&BlockPart]) -> (out: Vec<u64>)
    ensures
        out@ == tx_hashes(parts_tx_views(derefs(parts@))),
{
    let ghost all = derefs(parts@);
    let mut out: Vec<u64> = Vec::new();
    let mut i: usize = 0;
    while i < parts.len()
        invariant
            0 <= i <= parts@.len(),
            all == derefs(parts@),
            out@ == tx_hashes(parts_tx_views(all.subrange(0, i as int))),
        decreases parts@.len() - i,
    {
        let p = parts[i];
        assert(all.subrange(0, i as int + 1).drop_last() =~= all.subrange(0, i as int));
        assert(all.subrange(0, i as int + 1).last() == *p);
        let ghost before = out@;
        match &p.content {
            PartContent::TxBatch(b) => {
                let mut j: usize = 0;
                while j < b.0.len()
                    invariant
                        0 <= j <= b.0@.len(),
                        out@ == before + tx_hashes(tx_views(b.0@.subrange(0, j as int))),
                    decreases b.0@.len() - j,
                {
                    let h = tx_hash(&b.0[j]);
                    out.push(h);
                    assert(tx_hashes(tx_views(b.0@.subrange(0, j as int + 1)))
                        =~= tx_hashes(tx_views(b.0@.subrange(0, j as int))).push(default_hash(b.0@[j as int].0@)));
                    j += 1;
                }
                assert(b.0@.subrange(0, j as int) =~= b.0@);
                assert(tx_hashes(parts_tx_views(all.subrange(0, i as int + 1)))
                    =~= before + tx_hashes(tx_views(b.0@)));
            },
            PartContent::Metadata(_) => {
                assert(tx_hashes(parts_tx_views(all.subrange(0, i as int + 1))) =~= before);
            },
        }
        i += 1;
    }
    assert(all.subrange(0, i as int) =~= all);
    out
}

} // verus!
