//! Reassembly of streamed proposal parts: messages of a stream may arrive in any
//! order, and are released in sequence order as soon as the sequence has no gap.

use vstd::prelude::*;
use vstd::multiset::Multiset;
use crate::peer::PeerId;

verus! {

broadcast use {vstd::seq_lib::group_to_multiset_ensures, vstd::multiset::group_multiset_axioms,
    vstd::seq_lib::group_seq_properties};

/// The content of a stream message: a piece of data, or the end of the stream.
#[derive(Debug)]
pub enum StreamContent<T> {
    Data(T),
    /// Marks the end of the stream when `true`.
    Fin(bool),
}

/// A message of a stream: its place in the stream and its content.
#[derive(Debug)]
pub struct StreamMessage<T> {
    pub stream_id: u64,
    pub sequence: u64,
    pub content: StreamContent<T>,
}

impl<T> StreamMessage<T> {
    /// A message of stream `stream_id` at position `sequence`.
    pub fn new(stream_id: u64, sequence: u64, content: StreamContent<T>) -> (out: StreamMessage<T>)
        ensures
            out == (StreamMessage { stream_id, sequence, content }),
    {
        StreamMessage { stream_id, sequence, content }
    }

    /// Whether this is the first message of its stream.
    pub fn is_first(&self) -> (out: bool)
        ensures
            out == (self.sequence == 0),
    {
        self.sequence == 0
    }

    /// Whether this message ends its stream.
    pub fn is_fin(&self) -> (out: bool)
        ensures
            out == (self.content matches StreamContent::Fin(b) && b),
    {
        match self.content {
            StreamContent::Fin(b) => b,
            StreamContent::Data(_) => false,
        }
    }
}

/// Whether `m` has the least sequence number in `b`.
pub open spec fn is_min_in<T>(b: Multiset<StreamMessage<T>>, m: StreamMessage<T>) -> bool {
    forall|x: StreamMessage<T>| b.contains(x) ==> m.sequence <= x.sequence
}

/// Messages kept in order of their sequence numbers: the least comes out first.
pub struct MinHeap<T> {
    items: Vec<StreamMessage<T>>,
}

impl<T> View for MinHeap<T> {
    type V = Multiset<StreamMessage<T>>;

    closed spec fn view(&self) -> Multiset<StreamMessage<T>> {
        self.items@.to_multiset()
    }
}

impl<T> MinHeap<T> {
    /// An empty heap.
    pub fn new() -> (out: MinHeap<T>)
        ensures
            out@ == Multiset::<StreamMessage<T>>::empty(),
    {
        let out = MinHeap { items: Vec::new() };
        assert(out.items@.to_multiset() =~= Multiset::<StreamMessage<T>>::empty());
        out
    }

    /// The number of messages held.
    pub fn len(&self) -> (out: usize)
        ensures
            out == self@.len(),
    {
        self.items.len()
    }

    /// Adds a message.
    pub fn push(&mut self, msg: StreamMessage<T>)
        ensures
            final(self)@ == old(self)@.insert(msg),
    {
        self.items.push(msg);
    }

    /// The index of a message with the least sequence number, if any.
    fn min_index(&self) -> (out: Option<usize>)
        ensures
            match out {
                None => self.items@.len() == 0,
                Some(i) => i < self.items@.len()
                    && forall|j: int| 0 <= j < self.items@.len()
                        ==> self.items@[i as int].sequence <= #[trigger] self.items@[j].sequence,
            },
    {
        if self.items.len() == 0 {
            return None;
        }
        let mut best: usize = 0;
        let mut i: usize = 1;
        while i < self.items.len()
            invariant
                1 <= i <= self.items@.len(),
                best < i,
                forall|j: int| 0 <= j < i ==> self.items@[best as int].sequence <= #[trigger] self.items@[j].sequence,
            decreases self.items@.len() - i,
        {
            if self.items[i].sequence < self.items[best].sequence {
                best = i;
            }
            i += 1;
        }
        Some(best)
    }

    /// A message with the least sequence number, if any.
    pub fn peek(&self) -> (out: Option<&StreamMessage<T>>)
        ensures
            match out {
                None => self@.len() == 0,
                Some(m) => self@.contains(*m) && is_min_in(self@, *m),
            },
    {
        match self.min_index() {
            None => None,
            Some(i) => {
                proof { self.lemma_min_at(i as int); }
                Some(&self.items[i])
            },
        }
    }

    /// Removes and returns a message with the least sequence number, if any.
    pub fn pop(&mut self) -> (out: Option<StreamMessage<T>>)
        ensures
            match out {
                None => old(self)@.len() == 0 && final(self)@ == old(self)@,
                Some(m) => old(self)@.contains(m) && is_min_in(old(self)@, m)
                    && final(self)@ == old(self)@.remove(m),
            },
    {
        match self.min_index() {
            None => None,
            Some(i) => {
                proof { self.lemma_min_at(i as int); }
                let m = self.items.remove(i);
                Some(m)
            },
        }
    }

    /// The message at index `i`, the least of all, is the least of the multiset.
    proof fn lemma_min_at(&self, i: int)
        requires
            0 <= i < self.items@.len(),
            forall|j: int| 0 <= j < self.items@.len()
                ==> self.items@[i].sequence <= #[trigger] self.items@[j].sequence,
        ensures
            self@.contains(self.items@[i]),
            is_min_in(self@, self.items@[i]),
    {
        assert(self.items@.contains(self.items@[i]));
        assert forall|x: StreamMessage<T>| self@.contains(x) implies self.items@[i].sequence <= x.sequence by {
            assert(self.items@.contains(x));
            let j = choose|j: int| 0 <= j < self.items@.len() && self.items@[j] == x;
            assert(self.items@[i].sequence <= self.items@[j].sequence);
        }
    }
}

/// The data of a sequence of messages, in order; end-of-stream markers carry none.
pub open spec fn data_of<T>(msgs: Seq<StreamMessage<T>>) -> Seq<T>
    decreases msgs.len(),
{
    if msgs.len() == 0 {
        Seq::empty()
    } else {
        let rest = data_of(msgs.drop_last());
        match msgs.last().content {
            StreamContent::Data(d) => rest.push(d),
            StreamContent::Fin(_) => rest,
        }
    }
}

/// Whether releasing messages from buffer `b` stops at `next`: the least buffered
/// message is not the one expected next (or nothing is buffered).
pub open spec fn release_stops<T>(b: Multiset<StreamMessage<T>>, next: u64) -> bool {
    ||| (exists|x: StreamMessage<T>| b.contains(x) && x.sequence < next)
    ||| (forall|x: StreamMessage<T>| b.contains(x) ==> x.sequence != next)
}

/// Releasing from buffer `b0`, expecting `n0` next, released `e` in order and left
/// buffer `b1`, expecting `n1` next: `e` holds the messages `n0, n0 + 1, ...` taken
/// from the buffer, and the release stopped where the next one was missing.
pub open spec fn released<T>(
    b0: Multiset<StreamMessage<T>>,
    n0: u64,
    e: Seq<StreamMessage<T>>,
    b1: Multiset<StreamMessage<T>>,
    n1: u64,
) -> bool {
    &&& n1 == n0 + e.len()
    &&& forall|j: int| 0 <= j < e.len() ==> #[trigger] e[j].sequence == n0 + j
    &&& b0 == b1.add(e.to_multiset())
    &&& release_stops(b1, n1)
}

/// The opening part of a proposal stream: where the proposal belongs.
#[derive(Clone, Debug, PartialEq, Eq)]
pub struct ProposalInit {
    pub block_number: u64,
    /// The round of the proposal; `-1` stands for no round.
    pub proposal_round: i64,
    pub valid_round: i64,
    pub proposer: Vec<u8>,
}

/// A streamed part of a proposal.
#[derive(Debug)]
pub enum ProposalPart {
    Init(ProposalInit),
    /// The closing part, with the proposer's signature.
    Fin(Vec<u8>),
    /// A batch of encoded transactions.
    Transactions(Vec<Vec<u8>>),
    /// The proof of the block.
    BlockProof(Vec<u8>),
}

/// The reassembly state of one stream.
pub struct StreamState {
    buffer: MinHeap<ProposalPart>,
    init_info: Option<ProposalInit>,
    next_sequence: u64,
    total_messages: usize,
    fin_received: bool,
}

/// The abstract state of a stream: the buffered messages, the opening part once
/// received, the sequence number expected next, the number of messages announced
/// by the end of the stream, and whether the end was received.
pub type StreamView = (Multiset<StreamMessage<ProposalPart>>, Option<InitView>, u64, usize, bool);

/// The fields of an opening part: block number, round, valid round and proposer.
pub type InitView = (u64, i64, i64, Seq<u8>);

/// The fields of opening part `i`.
pub open spec fn init_view(i: ProposalInit) -> InitView {
    (i.block_number, i.proposal_round, i.valid_round, i.proposer@)
}

/// A copy of an opening part.
pub fn copy_init(i: &ProposalInit) -> (out: ProposalInit)
    ensures
        init_view(out) == init_view(*i),
{
    let proposer = i.proposer.clone();
    assert(proposer@ =~= i.proposer@);
    ProposalInit {
        block_number: i.block_number,
        proposal_round: i.proposal_round,
        valid_round: i.valid_round,
        proposer,
    }
}

impl StreamState {
    /// The abstract state of the stream.
    pub closed spec fn view_of(&self) -> StreamView {
        let init = match self.init_info {
            Some(i) => Some(init_view(i)),
            None => None,
        };
        (self.buffer@, init, self.next_sequence, self.total_messages, self.fin_received)
    }

    /// The state invariant: only messages after the first are buffered, each with
    /// room for a successor, and the opening part is known once the first message
    /// was released.
    pub closed spec fn wf(&self) -> bool {
        &&& forall|x: StreamMessage<ProposalPart>| self.buffer@.contains(x)
            ==> 0 < x.sequence && x.sequence < u64::MAX
        &&& self.next_sequence > 0 ==> self.init_info is Some
    }

    fn new() -> (out: StreamState)
        ensures
            out.wf(),
            out.view_of() == fresh_stream(),
    {
        StreamState {
            buffer: MinHeap::new(),
            init_info: None,
            next_sequence: 0,
            total_messages: 0,
            fin_received: false,
        }
    }

    /// Releases `msg`: its data, if any, goes to `to_emit`, and the message after it
    /// is expected next.
    fn emit(&mut self, msg: StreamMessage<ProposalPart>, to_emit: &mut Vec<ProposalPart>)
        requires
            msg.sequence < u64::MAX,
        ensures
            final(self).next_sequence == msg.sequence + 1,
            final(to_emit)@ == old(to_emit)@ + data_of(seq![msg]),
            final(self).buffer@ == old(self).buffer@,
            final(self).init_info == old(self).init_info,
            final(self).total_messages == old(self).total_messages,
            final(self).fin_received == old(self).fin_received,
    {
        let ghost m = msg;
        proof {
            reveal_with_fuel(data_of, 2);
            assert(seq![m].drop_last() =~= Seq::<StreamMessage<ProposalPart>>::empty());
            assert(seq![m].last() == m);
        }
        let seq_no = msg.sequence;
        match msg.content {
            StreamContent::Data(data) => {
                to_emit.push(data);
            },
            StreamContent::Fin(_) => {},
        }
        assert(to_emit@ =~= old(to_emit)@ + data_of(seq![m]));
        self.next_sequence = seq_no + 1;
    }

    /// Releases the buffered messages that follow the one released last, in order,
    /// for as long as the next one is buffered.
    fn emit_eligible_messages(&mut self, to_emit: &mut Vec<ProposalPart>)
        requires
            old(self).wf(),
        ensures
            final(self).wf(),
            exists|e: Seq<StreamMessage<ProposalPart>>| {
                &&& released(old(self).buffer@, old(self).next_sequence, e, final(self).buffer@,
                    final(self).next_sequence)
                &&& final(to_emit)@ == old(to_emit)@ + data_of(e)
            },
            final(self).init_info == old(self).init_info,
            final(self).total_messages == old(self).total_messages,
            final(self).fin_received == old(self).fin_received,
    {
        let ghost b0 = self.buffer@;
        let ghost n0 = self.next_sequence;
        let ghost start = to_emit@;
        let ghost mut e: Seq<StreamMessage<ProposalPart>> = Seq::empty();
        assert(b0 =~= self.buffer@.add(e.to_multiset()));
        assert(to_emit@ =~= start + data_of(e));
        loop
            invariant
                self.wf(),
                self.init_info == old(self).init_info,
                self.total_messages == old(self).total_messages,
                self.fin_received == old(self).fin_received,
                b0 == old(self).buffer@,
                n0 == old(self).next_sequence,
                start == old(to_emit)@,
                self.next_sequence == n0 + e.len(),
                forall|j: int| 0 <= j < e.len() ==> #[trigger] e[j].sequence == n0 + j,
                b0 == self.buffer@.add(e.to_multiset()),
                to_emit@ == start + data_of(e),
            ensures
                self.wf(),
                self.init_info == old(self).init_info,
                self.total_messages == old(self).total_messages,
                self.fin_received == old(self).fin_received,
                released(b0, n0, e, self.buffer@, self.next_sequence),
                to_emit@ == start + data_of(e),
            decreases self.buffer@.len(),
        {
            let next = self.next_sequence;
            let eligible = match self.buffer.peek() {
                None => false,
                Some(m) => m.sequence == next,
            };
            if !eligible {
                proof {
                    if self.buffer@.len() > 0 {
                        // The least buffered message is not the one expected next.
                        if !(forall|x: StreamMessage<ProposalPart>| self.buffer@.contains(x)
                            ==> x.sequence != next) {
                            let x = choose|x: StreamMessage<ProposalPart>| self.buffer@.contains(x)
                                && x.sequence == next;
                            let m = choose|m: StreamMessage<ProposalPart>| self.buffer@.contains(m)
                                && is_min_in(self.buffer@, m) && m.sequence != next;
                            assert(m.sequence <= x.sequence);
                            assert(self.buffer@.contains(m) && m.sequence < next);
                        }
                    }
                }
                break;
            }
            let ghost pre_b = self.buffer@;
            let popped = self.buffer.pop();
            let msg = match popped {
                Some(m) => m,
                None => { break; },
            };
            let ghost m = msg;
            assert(self.wf()) by {
                assert forall|x: StreamMessage<ProposalPart>| self.buffer@.contains(x)
                    implies 0 < x.sequence && x.sequence < u64::MAX by {
                    assert(pre_b.contains(x));
                }
            }
            proof {
                assert(pre_b.contains(m));
            }
            self.emit(msg, to_emit);
            proof {
                let e2 = e.push(m);
                assert(e2.drop_last() =~= e);
                assert(data_of(e2) =~= data_of(e) + data_of(seq![m])) by {
                    reveal_with_fuel(data_of, 2);
                    assert(seq![m].drop_last() =~= Seq::<StreamMessage<ProposalPart>>::empty());
                    assert(seq![m].last() == m);
                    assert(e2.last() == m);
                }
                assert(to_emit@ =~= start + data_of(e2));
                assert(e2.to_multiset() =~= e.to_multiset().insert(m));
                assert(b0 =~= self.buffer@.add(e2.to_multiset()));
                e = e2;
            }
        }
        proof {
            assert(released(b0, n0, e, self.buffer@, self.next_sequence));
        }
    }

    /// Handles the first message of the stream, which carries the opening part:
    /// records it, releases it and whatever buffered messages follow it.
    fn insert_first(&mut self, msg: StreamMessage<ProposalPart>) -> (out: Option<(u64, i64, Vec<ProposalPart>)>)
        requires
            old(self).wf(),
            acceptable(msg),
            msg.sequence == 0,
        ensures
            final(self).wf(),
            exists|e: Seq<StreamMessage<ProposalPart>>| inserted(old(self).view_of(), msg, e, out, final(self).view_of()),
    {
        let init = match &msg.content {
            StreamContent::Data(ProposalPart::Init(i)) => copy_init(i),
            _ => {
                assert(false);
                return None;
            },
        };
        let ghost m = msg;
        let height = init.block_number;
        let round = init.proposal_round;
        self.init_info = Some(init);
        let mut to_emit: Vec<ProposalPart> = Vec::new();
        self.emit(msg, &mut to_emit);
        let ghost mid = *self;
        let ghost mid_emit = to_emit@;
        self.emit_eligible_messages(&mut to_emit);
        proof {
            let e = choose|e: Seq<StreamMessage<ProposalPart>>| {
                &&& released(mid.buffer@, mid.next_sequence, e, self.buffer@, self.next_sequence)
                &&& to_emit@ == mid_emit + data_of(e)
            };
            assert(mid_emit =~= Seq::<ProposalPart>::empty() + data_of(seq![m]));
            assert(to_emit@ =~= data_of(seq![m]) + data_of(e));
            assert(inserted(old(self).view_of(), m, e, Some((height, round, to_emit)), self.view_of()));
        }
        Some((height, round, to_emit))
    }

    /// Handles a message after the first: buffers it, notes the end of the stream if
    /// it is the end, and releases whatever buffered messages are now in order.
    fn insert_next(&mut self, msg: StreamMessage<ProposalPart>) -> (out: Option<(u64, i64, Vec<ProposalPart>)>)
        requires
            old(self).wf(),
            acceptable(msg),
            msg.sequence != 0,
        ensures
            final(self).wf(),
            exists|e: Seq<StreamMessage<ProposalPart>>| inserted(old(self).view_of(), msg, e, out, final(self).view_of()),
    {
        let ghost m = msg;
        if msg.is_fin() {
            self.fin_received = true;
            self.total_messages = msg.sequence as usize + 1;
        }
        self.buffer.push(msg);
        assert(self.wf()) by {
            assert forall|x: StreamMessage<ProposalPart>| self.buffer@.contains(x)
                implies 0 < x.sequence && x.sequence < u64::MAX by {
                if x != m {
                    assert(old(self).buffer@.contains(x));
                }
            }
        }
        let ghost mid = *self;
        let mut to_emit: Vec<ProposalPart> = Vec::new();
        self.emit_eligible_messages(&mut to_emit);
        let ghost e = choose|e: Seq<StreamMessage<ProposalPart>>| {
            &&& released(mid.buffer@, mid.next_sequence, e, self.buffer@, self.next_sequence)
            &&& to_emit@ == Seq::<ProposalPart>::empty() + data_of(e)
        };
        assert(to_emit@ =~= data_of(e));
        if to_emit.len() == 0 {
            assert(inserted(old(self).view_of(), m, e, None, self.view_of()));
            return None;
        }
        proof {
            // Something was released, so the first message had been released before.
            if e.len() == 0 {
                assert(data_of(e) =~= Seq::<ProposalPart>::empty());
            }
            assert(e.to_multiset().contains(e[0]));
            assert(mid.buffer@.contains(e[0]));
            assert(e[0].sequence == mid.next_sequence);
        }
        let (height, round) = match &self.init_info {
            Some(i) => (i.block_number, i.proposal_round),
            None => {
                assert(false);
                return None;
            },
        };
        assert(inserted(old(self).view_of(), m, e, Some((height, round, to_emit)), self.view_of()));
        Some((height, round, to_emit))
    }
}

/// The state of a stream no message of which arrived.
pub open spec fn fresh_stream() -> StreamView {
    (Multiset::empty(), None, 0, 0, false)
}

/// The state of stream `k` in `streams`, or that of a fresh stream.
pub open spec fn stream_or_fresh(streams: Map<(Seq<u8>, u64), StreamView>, k: (Seq<u8>, u64)) -> StreamView {
    if streams.contains_key(k) { streams[k] } else { fresh_stream() }
}

/// Whether `msg` may be handed to the reassembly: a first message opens the stream
/// with its opening part, and sequence numbers leave room for the next one.
pub open spec fn acceptable(msg: StreamMessage<ProposalPart>) -> bool {
    &&& msg.sequence < u64::MAX
    &&& msg.sequence < usize::MAX
    &&& msg.sequence == 0 ==> (msg.content matches StreamContent::Data(ProposalPart::Init(_)))
}

/// What inserting `msg` into a stream in state `s0` does, given the messages `e`
/// it released, its result `out` and the new state `s1`.
pub open spec fn inserted(
    s0: StreamView,
    msg: StreamMessage<ProposalPart>,
    e: Seq<StreamMessage<ProposalPart>>,
    out: Option<(u64, i64, Vec<ProposalPart>)>,
    s1: StreamView,
) -> bool {
    if msg.sequence == 0 {
        let init = match msg.content {
            StreamContent::Data(ProposalPart::Init(i)) => i,
            _ => arbitrary(),
        };
        &&& released(s0.0, 1, e, s1.0, s1.2)
        &&& s1.1 == Some(init_view(init))
        &&& s1.3 == s0.3
        &&& s1.4 == s0.4
        &&& out matches Some((h, r, parts)) && h == init.block_number && r == init.proposal_round
            && parts@ == data_of(seq![msg]) + data_of(e)
    } else {
        &&& released(s0.0.insert(msg), s0.2, e, s1.0, s1.2)
        &&& s1.1 == s0.1
        &&& s1.3 == if msg.content matches StreamContent::Fin(b) && b { msg.sequence as usize + 1 } else { s0.3 as int }
        &&& s1.4 == (s0.4 || (msg.content matches StreamContent::Fin(b) && b))
        &&& if data_of(e).len() == 0 {
            out is None
        } else {
            out matches Some((h, r, parts)) && s0.1 matches Some(init) && h == init.0
                && r == init.1 && parts@ == data_of(e)
        }
    }
}

/// A stream of a peer, with its reassembly state.
struct StreamEntry {
    peer: PeerId,
    stream_id: u64,
    state: StreamState,
}

/// The reassembly states of the proposal streams, per peer and stream id.
pub struct PartStreamsMap {
    streams: Vec<StreamEntry>,
}

impl PartStreamsMap {
    /// The state of each stream that received a message.
    pub closed spec fn streams_view(&self) -> Map<(Seq<u8>, u64), StreamView> {
        Map::new(
            |k: (Seq<u8>, u64)| exists|i: int| 0 <= i < self.streams@.len()
                && #[trigger] self.streams@[i].peer@ == k.0 && self.streams@[i].stream_id == k.1,
            |k: (Seq<u8>, u64)| self.streams@[self.index_of(k)].state.view_of(),
        )
    }

    /// The index of the entry of stream `k`.
    closed spec fn index_of(&self, k: (Seq<u8>, u64)) -> int {
        choose|i: int| 0 <= i < self.streams@.len() && self.streams@[i].peer@ == k.0
            && self.streams@[i].stream_id == k.1
    }

    /// The state invariant: one entry per stream, each well formed.
    pub closed spec fn wf(&self) -> bool {
        &&& forall|i: int, j: int| 0 <= i < j < self.streams@.len()
            ==> !(#[trigger] self.streams@[i].peer@ == #[trigger] self.streams@[j].peer@
                && self.streams@[i].stream_id == self.streams@[j].stream_id)
        &&& forall|i: int| 0 <= i < self.streams@.len() ==> #[trigger] self.streams@[i].state.wf()
    }

    /// The entry of stream `k` is at index `i`.
    proof fn lemma_index_of(&self, k: (Seq<u8>, u64), i: int)
        requires
            self.wf(),
            0 <= i < self.streams@.len(),
            self.streams@[i].peer@ == k.0,
            self.streams@[i].stream_id == k.1,
        ensures
            self.index_of(k) == i,
            self.streams_view().contains_key(k),
            self.streams_view()[k] == self.streams@[i].state.view_of(),
    {
        let j = self.index_of(k);
        assert(self.streams_view().dom().contains(k));
        if j != i {
            if j < i {
                assert(!(self.streams@[j].peer@ == self.streams@[i].peer@
                    && self.streams@[j].stream_id == self.streams@[i].stream_id));
            } else {
                assert(!(self.streams@[i].peer@ == self.streams@[j].peer@
                    && self.streams@[i].stream_id == self.streams@[j].stream_id));
            }
        }
    }

    /// Handles a message of stream `msg.stream_id` from `peer_id`, and returns the
    /// parts now released in order, with the height and round of their proposal, if
    /// any. A first message must carry the opening part.
    pub fn insert(&mut self, peer_id: PeerId, msg: StreamMessage<ProposalPart>) -> (out: Option<(u64, i64, Vec<ProposalPart>)>)
        requires
            old(self).wf(),
            acceptable(msg),
        ensures
            final(self).wf(),
            final(self).streams_view().dom() == old(self).streams_view().dom().insert((peer_id@, msg.stream_id)),
            forall|k: (Seq<u8>, u64)| k != (peer_id@, msg.stream_id) && #[trigger] old(self).streams_view().contains_key(k)
                ==> final(self).streams_view()[k] == old(self).streams_view()[k],
            exists|e: Seq<StreamMessage<ProposalPart>>| inserted(
                stream_or_fresh(old(self).streams_view(), (peer_id@, msg.stream_id)),
                msg, e, out, final(self).streams_view()[(peer_id@, msg.stream_id)]),
    {
        let ghost key = (peer_id@, msg.stream_id);
        let ghost old_view = self.streams_view();
        let mut found: Option<usize> = None;
        let mut i: usize = 0;
        while i < self.streams.len()
            invariant_except_break
                found is None,
            invariant
                0 <= i <= self.streams@.len(),
                forall|j: int| 0 <= j < i ==> !(#[trigger] self.streams@[j].peer@ == peer_id@
                    && self.streams@[j].stream_id == msg.stream_id),
            ensures
                match found {
                    Some(j) => j < self.streams@.len() && self.streams@[j as int].peer@ == peer_id@
                        && self.streams@[j as int].stream_id == msg.stream_id,
                    None => forall|j: int| 0 <= j < self.streams@.len() ==> !(#[trigger] self.streams@[j].peer@ == peer_id@
                        && self.streams@[j].stream_id == msg.stream_id),
                },
            decreases self.streams@.len() - i,
        {
            if self.streams[i].stream_id == msg.stream_id && self.streams[i].peer.same(&peer_id) {
                found = Some(i);
                break;
            }
            i += 1;
        }
        let idx = match found {
            Some(j) => {
                proof { self.lemma_index_of(key, j as int); }
                j
            },
            None => {
                assert(!old_view.contains_key(key)) by {
                    if old_view.contains_key(key) {
                        let j = choose|j: int| 0 <= j < self.streams@.len() && #[trigger] self.streams@[j].peer@ == key.0
                            && self.streams@[j].stream_id == key.1;
                        assert(self.streams@[j].peer@ == peer_id@);
                    }
                }
                let ghost pre = self.streams@;
                let stream_id = msg.stream_id;
                self.streams.push(StreamEntry { peer: peer_id, stream_id, state: StreamState::new() });
                proof {
                    let n = pre.len() as int;
                    assert forall|a: int, b: int| 0 <= a < b < self.streams@.len()
                        implies !(#[trigger] self.streams@[a].peer@ == #[trigger] self.streams@[b].peer@
                            && self.streams@[a].stream_id == self.streams@[b].stream_id) by {
                        assert(self.streams@[a] == pre[a]);
                        if b < n {
                            assert(self.streams@[b] == pre[b]);
                        }
                    }
                    assert forall|a: int| 0 <= a < self.streams@.len() implies #[trigger] self.streams@[a].state.wf() by {
                        if a < n {
                            assert(self.streams@[a] == pre[a]);
                        }
                    }
                    self.lemma_index_of(key, n);
                    assert forall|k: (Seq<u8>, u64)| k != key && #[trigger] old_view.contains_key(k)
                        implies self.streams_view().contains_key(k) && self.streams_view()[k] == old_view[k] by {
                        let j = choose|j: int| 0 <= j < pre.len() && #[trigger] pre[j].peer@ == k.0
                            && pre[j].stream_id == k.1;
                        assert(self.streams@[j] == pre[j]);
                        self.lemma_index_of(k, j);
                    }
                    assert(self.streams_view().dom() =~= old_view.dom().insert(key)) by {
                        assert forall|k: (Seq<u8>, u64)| #[trigger] self.streams_view().dom().contains(k)
                            implies old_view.dom().insert(key).contains(k) by {
                            let j = choose|j: int| 0 <= j < self.streams@.len() && #[trigger] self.streams@[j].peer@ == k.0
                                && self.streams@[j].stream_id == k.1;
                            if j < n {
                                assert(self.streams@[j] == pre[j]);
                                assert(old_view.dom().contains(k));
                            }
                        }
                    }
                }
                self.streams.len() - 1
            },
        };
        let ghost mid = *self;
        let ghost s0 = mid.streams@[idx as int].state.view_of();
        let ghost m = msg;
        proof {
            mid.lemma_index_of(key, idx as int);
            assert(s0 == stream_or_fresh(old_view, key));
        }
        let mut entry = self.streams.remove(idx);
        let out = if msg.is_first() {
            entry.state.insert_first(msg)
        } else {
            entry.state.insert_next(msg)
        };
        self.streams.insert(idx, entry);
        proof {
            let ms = mid.streams@;
            assert forall|j: int| 0 <= j < self.streams@.len() && j != idx implies #[trigger] self.streams@[j] == ms[j] by {}
            assert forall|a: int, b: int| 0 <= a < b < self.streams@.len()
                implies !(#[trigger] self.streams@[a].peer@ == #[trigger] self.streams@[b].peer@
                    && self.streams@[a].stream_id == self.streams@[b].stream_id) by {
                assert(self.streams@[a].peer@ == ms[a].peer@ && self.streams@[a].stream_id == ms[a].stream_id);
                assert(self.streams@[b].peer@ == ms[b].peer@ && self.streams@[b].stream_id == ms[b].stream_id);
            }
            assert forall|a: int| 0 <= a < self.streams@.len() implies #[trigger] self.streams@[a].state.wf() by {
                if a != idx {
                    assert(self.streams@[a] == ms[a]);
                }
            }
            self.lemma_index_of(key, idx as int);
            let e = choose|e: Seq<StreamMessage<ProposalPart>>| inserted(s0, m, e, out,
                self.streams@[idx as int].state.view_of());
            assert(inserted(stream_or_fresh(old_view, key), m, e, out, self.streams_view()[key]));
            assert forall|k: (Seq<u8>, u64)| k != key && #[trigger] mid.streams_view().contains_key(k)
                implies self.streams_view().contains_key(k) && self.streams_view()[k] == mid.streams_view()[k] by {
                let j = choose|j: int| 0 <= j < ms.len() && #[trigger] ms[j].peer@ == k.0 && ms[j].stream_id == k.1;
                assert(j != idx);
                assert(self.streams@[j] == ms[j]);
                self.lemma_index_of(k, j);
                mid.lemma_index_of(k, j);
            }
            assert(self.streams_view().dom() =~= mid.streams_view().dom()) by {
                assert forall|k: (Seq<u8>, u64)| #[trigger] self.streams_view().dom().contains(k)
                    implies mid.streams_view().dom().contains(k) by {
                    let j = choose|j: int| 0 <= j < self.streams@.len() && #[trigger] self.streams@[j].peer@ == k.0
                        && self.streams@[j].stream_id == k.1;
                    assert(ms[j].peer@ == k.0 && ms[j].stream_id == k.1);
                }
                assert forall|k: (Seq<u8>, u64)| #[trigger] mid.streams_view().dom().contains(k)
                    implies self.streams_view().dom().contains(k) by {
                    let j = choose|j: int| 0 <= j < ms.len() && #[trigger] ms[j].peer@ == k.0
                        && ms[j].stream_id == k.1;
                    assert(self.streams@[j].peer@ == k.0 && self.streams@[j].stream_id == k.1);
                }
            }
        }
        out
    }

    /// No stream yet.
    pub fn new() -> (out: PartStreamsMap)
        ensures
            out.wf(),
            out.streams_view() == Map::<(Seq<u8>, u64), StreamView>::empty(),
    {
        let out = PartStreamsMap { streams: Vec::new() };
        assert(out.streams_view() =~= Map::<(Seq<u8>, u64), StreamView>::empty());
        out
    }
}

} // verus!
