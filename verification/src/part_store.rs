//! A store of block parts, keyed by height, round and sequence number.

use vstd::prelude::*;
use crate::assoc::{keys_unique, has_key, assoc_view, lemma_assoc_index, lemma_assoc_push};
use crate::content::{BlockMetadata, TransactionBatch, txs_size};

verus! {

/// What a block part carries: a batch of transactions, or the metadata of the
/// block, which completes it.
#[derive(Clone, Debug, PartialEq, Eq)]
pub enum PartContent {
    TxBatch(TransactionBatch),
    Metadata(BlockMetadata),
}

/// A part of a proposed block.
#[derive(Debug)]
pub struct BlockPart {
    pub height: u64,
    /// The round of the proposal; `-1` stands for no round.
    pub round: i64,
    /// The position of the part in the proposal.
    pub sequence: u64,
    /// The address of the validator that proposed the block.
    pub validator_address: Vec<u8>,
    pub content: PartContent,
}

/// The size in bytes of what part `p` carries.
pub open spec fn part_size(p: BlockPart) -> nat {
    match p.content {
        PartContent::TxBatch(b) => txs_size(b.0@),
        PartContent::Metadata(m) => m.proof@.len() + 32,
    }
}

impl BlockPart {
    /// The number of transactions the part carries; none for metadata.
    pub fn tx_count(&self) -> (out: Option<usize>)
        ensures
            out == match self.content {
                PartContent::TxBatch(b) => Some(b.0@.len() as usize),
                PartContent::Metadata(_) => None::<usize>,
            },
    {
        match &self.content {
            PartContent::TxBatch(b) => Some(b.len()),
            PartContent::Metadata(_) => None,
        }
    }

    /// The block metadata, if the part carries it.
    pub fn metadata(&self) -> (out: Option<&BlockMetadata>)
        ensures
            out == match self.content {
                PartContent::TxBatch(_) => None::<&BlockMetadata>,
                PartContent::Metadata(m) => Some(&m),
            },
    {
        match &self.content {
            PartContent::TxBatch(_) => None,
            PartContent::Metadata(m) => Some(m),
        }
    }

    /// The size in bytes of what the part carries.
    pub fn size_bytes(&self) -> (out: usize)
        requires
            part_size(*self) <= usize::MAX,
        ensures
            out == part_size(*self),
            self.content matches PartContent::TxBatch(b) ==> out == txs_size(b.0@),
            self.content matches PartContent::Metadata(m) ==> out == m.proof@.len() + 32,
    {
        match &self.content {
            PartContent::TxBatch(b) => b.size_bytes(),
            PartContent::Metadata(m) => m.size_bytes(),
        }
    }
}

/// The key under which a part is stored.
pub type PartKey = (u64, i64, u64);

/// The key of part `p`.
pub open spec fn key_of(p: BlockPart) -> PartKey {
    (p.height, p.round, p.sequence)
}

/// The parts of a store, each under its own key.
pub struct PartStore {
    entries: Vec<(PartKey, BlockPart)>,
}

/// The parts of `view` of height `h` and round `r`.
pub open spec fn parts_of(view: Map<PartKey, BlockPart>, h: u64, r: i64) -> Set<BlockPart> {
    Set::new(|p: BlockPart| view.contains_key(key_of(p)) && view[key_of(p)] == p && p.height == h && p.round == r)
}

impl PartStore {
    /// The stored parts, by key.
    pub closed spec fn view_map(&self) -> Map<PartKey, BlockPart> {
        assoc_view(self.entries@)
    }

    /// The state invariant: one part per key, each stored under its own key.
    pub closed spec fn wf(&self) -> bool {
        &&& keys_unique(self.entries@)
        &&& forall|i: int| 0 <= i < self.entries@.len()
            ==> (#[trigger] self.entries@[i]).0 == key_of(self.entries@[i].1)
    }

    /// An empty store.
    pub fn new() -> (out: PartStore)
        ensures
            out.wf(),
            out.view_map() == Map::<PartKey, BlockPart>::empty(),
    {
        let out = PartStore { entries: Vec::new() };
        assert(out.view_map() =~= Map::<PartKey, BlockPart>::empty());
        out
    }

    /// Every part is stored under its own key.
    pub proof fn lemma_keys(&self, k: PartKey)
        requires
            self.wf(),
            self.view_map().contains_key(k),
        ensures
            key_of(self.view_map()[k]) == k,
    {
        let i = choose|i: int| 0 <= i < self.entries@.len() && (#[trigger] self.entries@[i]).0 == k;
        lemma_assoc_index(self.entries@, i);
    }

    /// The index of the entry with key `k`.
    fn find(&self, k: PartKey) -> (out: Option<usize>)
        requires
            self.wf(),
        ensures
            match out {
                Some(i) => i < self.entries@.len() && self.entries@[i as int].0 == k,
                None => !has_key(self.entries@, k),
            },
    {
        let mut i: usize = 0;
        while i < self.entries.len()
            invariant
                0 <= i <= self.entries@.len(),
                forall|j: int| 0 <= j < i ==> (#[trigger] self.entries@[j]).0 != k,
            decreases self.entries@.len() - i,
        {
            let e = &self.entries[i].0;
            if e.0 == k.0 && e.1 == k.1 && e.2 == k.2 {
                return Some(i);
            }
            i += 1;
        }
        None
    }

    /// The part of height `height` and round `round` at position `sequence`.
    pub fn get(&self, height: u64, round: i64, sequence: u64) -> (out: Option<&BlockPart>)
        requires
            self.wf(),
        ensures
            match out {
                Some(p) => self.view_map().contains_key((height, round, sequence))
                    && *p == self.view_map()[(height, round, sequence)],
                None => !self.view_map().contains_key((height, round, sequence)),
            },
    {
        match self.find((height, round, sequence)) {
            Some(i) => {
                proof { lemma_assoc_index(self.entries@, i as int); }
                Some(&self.entries[i].1)
            },
            None => None,
        }
    }

    /// Stores `part` under its key, unless a part is already stored there.
    pub fn store(&mut self, part: BlockPart)
        requires
            old(self).wf(),
        ensures
            final(self).wf(),
            final(self).view_map() == if old(self).view_map().contains_key(key_of(part)) {
                old(self).view_map()
            } else {
                old(self).view_map().insert(key_of(part), part)
            },
    {
        let key = (part.height, part.round, part.sequence);
        match self.find(key) {
            Some(i) => {
                proof { lemma_assoc_index(self.entries@, i as int); }
            },
            None => {
                proof { lemma_assoc_push(self.entries@, key, part); }
                let ghost pre = self.entries@;
                self.entries.push((key, part));
                assert forall|i: int| 0 <= i < self.entries@.len()
                    implies (#[trigger] self.entries@[i]).0 == key_of(self.entries@[i].1) by {
                    if i < pre.len() {
                        assert(self.entries@[i] == pre[i]);
                    }
                }
            },
        }
    }

    /// Drops the parts below height `min_height`.
    pub fn prune(&mut self, min_height: u64)
        requires
            old(self).wf(),
        ensures
            final(self).wf(),
            final(self).view_map() == old(self).view_map().restrict(
                Set::new(|k: PartKey| k.0 >= min_height)),
    {
        let ghost keep = Set::new(|k: PartKey| k.0 >= min_height);
        let ghost old_e = self.entries@;
        let mut kept: Vec<(PartKey, BlockPart)> = Vec::new();
        let mut entries = Vec::new();
        std::mem::swap(&mut entries, &mut self.entries);
        assert(entries@ == old_e);
        assert(assoc_view(kept@) =~= assoc_view(old_e.subrange(0, 0)).restrict(keep));
        let mut i: usize = 0;
        let n = entries.len();
        while entries.len() > 0
            invariant
                i + entries@.len() == old_e.len(),
                old_e.len() == n,
                entries@ == old_e.subrange(i as int, old_e.len() as int),
                keys_unique(old_e),
                forall|j: int| 0 <= j < old_e.len() ==> (#[trigger] old_e[j]).0 == key_of(old_e[j].1),
                keys_unique(kept@),
                forall|j: int| 0 <= j < kept@.len() ==> (#[trigger] kept@[j]).0 == key_of(kept@[j].1),
                assoc_view(kept@) == assoc_view(old_e.subrange(0, i as int)).restrict(keep),
                forall|j: int| 0 <= j < kept@.len() ==> has_key(old_e.subrange(0, i as int), (#[trigger] kept@[j]).0),
                keep == Set::new(|k: PartKey| k.0 >= min_height),
            decreases entries@.len(),
        {
            let e = entries.remove(0);
            let ghost pre = old_e.subrange(0, i as int);
            let ghost post = old_e.subrange(0, i as int + 1);
            proof {
                assert(e == old_e[i as int]);
                assert(post =~= pre.push(e));
                assert(keys_unique(pre)) by {
                    assert forall|a: int, b: int| 0 <= a < b < pre.len() implies (#[trigger] pre[a]).0 != (#[trigger] pre[b]).0 by {
                        assert(pre[a] == old_e[a] && pre[b] == old_e[b]);
                    }
                }
                assert(!has_key(pre, e.0)) by {
                    if has_key(pre, e.0) {
                        let a = choose|a: int| 0 <= a < pre.len() && (#[trigger] pre[a]).0 == e.0;
                        assert(pre[a] == old_e[a]);
                        assert(old_e[a].0 != old_e[i as int].0);
                    }
                }
                lemma_assoc_push(pre, e.0, e.1);
            }
            if e.0.0 >= min_height {
                proof {
                    assert(!has_key(kept@, e.0)) by {
                        if has_key(kept@, e.0) {
                            let a = choose|a: int| 0 <= a < kept@.len() && (#[trigger] kept@[a]).0 == e.0;
                            assert(has_key(pre, kept@[a].0));
                        }
                    }
                    lemma_assoc_push(kept@, e.0, e.1);
                }
                let ghost pk = kept@;
                kept.push(e);
                proof {
                    assert(assoc_view(kept@) =~= assoc_view(post).restrict(keep));
                    assert forall|j: int| 0 <= j < kept@.len() implies (#[trigger] kept@[j]).0 == key_of(kept@[j].1) by {
                        if j < pk.len() {
                            assert(kept@[j] == pk[j]);
                        }
                    }
                    assert forall|j: int| 0 <= j < kept@.len() implies has_key(post, (#[trigger] kept@[j]).0) by {
                        if j < pk.len() {
                            assert(kept@[j] == pk[j]);
                            let a = choose|a: int| 0 <= a < pre.len() && (#[trigger] pre[a]).0 == pk[j].0;
                            assert(post[a] == pre[a]);
                        } else {
                            assert(post[i as int] == e);
                        }
                    }
                }
            } else {
                proof {
                    assert(assoc_view(kept@) =~= assoc_view(post).restrict(keep));
                    assert forall|j: int| 0 <= j < kept@.len() implies has_key(post, (#[trigger] kept@[j]).0) by {
                        let a = choose|a: int| 0 <= a < pre.len() && (#[trigger] pre[a]).0 == kept@[j].0;
                        assert(post[a] == pre[a]);
                    }
                }
            }
            i += 1;
            proof {
                assert(entries@ =~= old_e.subrange(i as int, old_e.len() as int));
            }
        }
        assert(old_e.subrange(0, i as int) =~= old_e);
        self.entries = kept;
    }

    /// The parts of height `height` and round `round`, from the last to the first
    /// in sequence order.
    pub fn all_parts(&self, height: u64, round: i64) -> (out: Vec<&BlockPart>)
        requires
            self.wf(),
        ensures
            forall|i: int, j: int| 0 <= i < j < out@.len() ==> (#[trigger] out@[i]).sequence > (#[trigger] out@[j]).sequence,
            forall|p: BlockPart| #[trigger] parts_of(self.view_map(), height, round).contains(p)
                <==> out@.contains(&p),
    {
        // The parts of the height and round, in store order.
        let mut cands: Vec<&BlockPart> = Vec::new();
        let mut i: usize = 0;
        while i < self.entries.len()
            invariant
                0 <= i <= self.entries@.len(),
                self.wf(),
                forall|p: BlockPart| (exists|j: int| 0 <= j < i && #[trigger] self.entries@[j].1 == p
                    && p.height == height && p.round == round) <==> cands@.contains(&p),
                forall|a: int, b: int| 0 <= a < b < cands@.len() ==> (#[trigger] cands@[a]).sequence != (#[trigger] cands@[b]).sequence,
            decreases self.entries@.len() - i,
        {
            let p = &self.entries[i].1;
            let ghost pre = cands@;
            if p.height == height && p.round == round {
                cands.push(p);
                proof {
                    assert forall|a: int, b: int| 0 <= a < b < cands@.len()
                        implies (#[trigger] cands@[a]).sequence != (#[trigger] cands@[b]).sequence by {
                        if b == cands@.len() - 1 {
                            assert(pre.contains(cands@[a]));
                            let c = *cands@[a];
                            let j = choose|j: int| 0 <= j < i && #[trigger] self.entries@[j].1 == c
                                && c.height == height && c.round == round;
                            if c.sequence == p.sequence {
                                assert(self.entries@[j].0 == self.entries@[i as int].0);
                            }
                        } else {
                            assert(cands@[a] == pre[a] && cands@[b] == pre[b]);
                        }
                    }
                    assert forall|q: BlockPart| (exists|j: int| 0 <= j < i + 1 && #[trigger] self.entries@[j].1 == q
                        && q.height == height && q.round == round) <==> cands@.contains(&q) by {
                        if exists|j: int| 0 <= j < i + 1 && #[trigger] self.entries@[j].1 == q
                            && q.height == height && q.round == round {
                            let j = choose|j: int| 0 <= j < i + 1 && #[trigger] self.entries@[j].1 == q
                                && q.height == height && q.round == round;
                            if j < i {
                                assert(pre.contains(&q));
                                let k = choose|k: int| 0 <= k < pre.len() && pre[k] == &q;
                                assert(cands@[k] == pre[k]);
                            } else {
                                assert(cands@[cands@.len() - 1] == &q);
                            }
                        }
                        if cands@.contains(&q) {
                            let k = choose|k: int| 0 <= k < cands@.len() && cands@[k] == &q;
                            if k < pre.len() {
                                assert(pre[k] == cands@[k]);
                                assert(pre.contains(&q));
                            } else {
                                assert(self.entries@[i as int].1 == q);
                            }
                        }
                    }
                }
            } else {
                proof {
                    assert forall|q: BlockPart| (exists|j: int| 0 <= j < i + 1 && #[trigger] self.entries@[j].1 == q
                        && q.height == height && q.round == round) <==> cands@.contains(&q) by {
                        if exists|j: int| 0 <= j < i + 1 && #[trigger] self.entries@[j].1 == q
                            && q.height == height && q.round == round {
                            let j = choose|j: int| 0 <= j < i + 1 && #[trigger] self.entries@[j].1 == q
                                && q.height == height && q.round == round;
                            assert(j != i);
                        }
                    }
                }
            }
            i += 1;
        }
        proof {
            self.lemma_parts_of(height, round);
            assert forall|a: int| 0 <= a < cands@.len() implies #[trigger] parts_of(self.view_map(), height, round).contains(*cands@[a]) by {
                assert(cands@.contains(cands@[a]));
            }
        }
        // Repeatedly take the remaining part with the greatest sequence number.
        let ghost all = cands@;
        let mut out: Vec<&BlockPart> = Vec::new();
        while cands.len() > 0
            invariant
                self.wf(),
                forall|p: BlockPart| parts_of(self.view_map(), height, round).contains(p)
                    <==> (out@.contains(&p) || cands@.contains(&p)),
                forall|a: int, b: int| 0 <= a < b < out@.len() ==> (#[trigger] out@[a]).sequence > (#[trigger] out@[b]).sequence,
                forall|a: int, b: int| 0 <= a < out@.len() && 0 <= b < cands@.len()
                    ==> (#[trigger] out@[a]).sequence > (#[trigger] cands@[b]).sequence,
                forall|a: int| 0 <= a < cands@.len() ==> #[trigger] parts_of(self.view_map(), height, round).contains(*cands@[a]),
                forall|a: int, b: int| 0 <= a < b < cands@.len() ==> (#[trigger] cands@[a]).sequence != (#[trigger] cands@[b]).sequence,
            decreases cands@.len(),
        {
            let mut best: usize = 0;
            let mut k: usize = 1;
            while k < cands.len()
                invariant
                    1 <= k <= cands@.len(),
                    best < k,
                    forall|j: int| 0 <= j < k ==> (#[trigger] cands@[j]).sequence <= cands@[best as int].sequence,
                decreases cands@.len() - k,
            {
                if cands[k].sequence > cands[best].sequence {
                    best = k;
                }
                k += 1;
            }
            let ghost pre_c = cands@;
            let ghost pre_o = out@;
            let p = cands.remove(best);
            out.push(p);
            proof {
                assert forall|a: int| 0 <= a < cands@.len() implies #[trigger] cands@[a] == pre_c[if a < best { a } else { a + 1 }] by {}
                assert forall|q: BlockPart| parts_of(self.view_map(), height, round).contains(q)
                    <==> (out@.contains(&q) || cands@.contains(&q)) by {
                    if pre_c.contains(&q) {
                        let a = choose|a: int| 0 <= a < pre_c.len() && pre_c[a] == &q;
                        if a == best {
                            assert(out@.last() == &q);
                        } else {
                            let a2 = if a < best { a } else { a - 1 };
                            assert(cands@[a2] == pre_c[a]);
                        }
                    }
                    if pre_o.contains(&q) {
                        let a = choose|a: int| 0 <= a < pre_o.len() && pre_o[a] == &q;
                        assert(out@[a] == pre_o[a]);
                    }
                    if out@.contains(&q) {
                        let a = choose|a: int| 0 <= a < out@.len() && out@[a] == &q;
                        if a < pre_o.len() {
                            assert(out@[a] == pre_o[a]);
                        } else {
                            assert(pre_c.contains(&q));
                        }
                    }
                    if cands@.contains(&q) {
                        let a = choose|a: int| 0 <= a < cands@.len() && cands@[a] == &q;
                        assert(pre_c.contains(&q));
                    }
                }
                assert forall|a: int, b: int| 0 <= a < b < out@.len() implies (#[trigger] out@[a]).sequence > (#[trigger] out@[b]).sequence by {
                    if b < pre_o.len() {
                        assert(out@[a] == pre_o[a] && out@[b] == pre_o[b]);
                    } else {
                        assert(out@[a] == pre_o[a]);
                    }
                }
                assert forall|a: int, b: int| 0 <= a < out@.len() && 0 <= b < cands@.len()
                    implies (#[trigger] out@[a]).sequence > (#[trigger] cands@[b]).sequence by {
                    let b2 = if b < best { b } else { b + 1 };
                    assert(cands@[b] == pre_c[b2]);
                    if a < pre_o.len() {
                        assert(out@[a] == pre_o[a]);
                    } else {
                        assert(pre_c[b2].sequence <= pre_c[best as int].sequence);
                        assert(pre_c[b2].sequence != pre_c[best as int].sequence);
                    }
                }
                assert forall|a: int, b: int| 0 <= a < b < cands@.len()
                    implies (#[trigger] cands@[a]).sequence != (#[trigger] cands@[b]).sequence by {
                    let a2 = if a < best { a } else { a + 1 };
                    let b2 = if b < best { b } else { b + 1 };
                    assert(cands@[a] == pre_c[a2] && cands@[b] == pre_c[b2]);
                }
            }
        }
        out
    }

    /// The parts of a height and round that `all_parts` collects are those
    /// `parts_of` names, and they have distinct sequence numbers.
    proof fn lemma_parts_of(&self, height: u64, round: i64)
        requires
            self.wf(),
        ensures
            forall|p: BlockPart| (exists|j: int| 0 <= j < self.entries@.len() && #[trigger] self.entries@[j].1 == p
                && p.height == height && p.round == round) <==> parts_of(self.view_map(), height, round).contains(p),
            forall|p: BlockPart, q: BlockPart| #[trigger] parts_of(self.view_map(), height, round).contains(p)
                && #[trigger] parts_of(self.view_map(), height, round).contains(q) && p.sequence == q.sequence
                ==> p == q,
    {
        assert forall|p: BlockPart| (exists|j: int| 0 <= j < self.entries@.len() && #[trigger] self.entries@[j].1 == p
            && p.height == height && p.round == round) <==> parts_of(self.view_map(), height, round).contains(p) by {
            if exists|j: int| 0 <= j < self.entries@.len() && #[trigger] self.entries@[j].1 == p
                && p.height == height && p.round == round {
                let j = choose|j: int| 0 <= j < self.entries@.len() && #[trigger] self.entries@[j].1 == p
                    && p.height == height && p.round == round;
                lemma_assoc_index(self.entries@, j);
            }
            if parts_of(self.view_map(), height, round).contains(p) {
                let j = choose|j: int| 0 <= j < self.entries@.len() && (#[trigger] self.entries@[j]).0 == key_of(p);
                lemma_assoc_index(self.entries@, j);
            }
        }
    }
}

} // verus!
