//! The state of value sync and the bookkeeping operations the handlers build on.

use vstd::prelude::*;
use rand::rngs::StdRng;
use crate::rng::{seeded_rng, random_index};
use crate::peer::{PeerId, peer_views, contains_peer, copy_peers};
use crate::sync::ranges::{
    HeightRange, PendingRequest, ValueResponse, covered, in_range, is_next_uncovered, first_covering,
    excluded_views, pending_disjoint, ranges_disjoint, lemma_disjoint_filter, lemma_disjoint_remove,
    lemma_disjoint_push,
    ends_below_max, find_next_uncovered_height,
};

verus! {

broadcast use {vstd::seq_lib::group_seq_properties, vstd::seq_lib::group_filter_ensures};

/// Sync configuration.
#[derive(Copy, Clone, Debug)]
pub struct SyncConfig {
    /// Maximum number of values requested, or served, in one request.
    pub batch_size: usize,
    /// Maximum number of requests in flight at once.
    pub parallel_requests: usize,
}

impl SyncConfig {
    /// The default configuration: batches of five values, five requests in flight.
    pub fn default_config() -> (out: SyncConfig)
        ensures
            out.batch_size == 5,
            out.parallel_requests == 5,
    {
        SyncConfig { batch_size: 5, parallel_requests: 5 }
    }
}

/// The last status a peer announced.
#[derive(Debug)]
pub struct PeerStatus {
    pub peer_id: PeerId,
    /// The peer's latest decided height.
    pub tip_height: u64,
    /// The lowest height the peer still holds.
    pub history_min_height: u64,
}

impl PeerStatus {
    /// A status announcement.
    pub fn new(peer_id: PeerId, tip_height: u64, history_min_height: u64) -> (out: PeerStatus)
        ensures
            out.peer_id@ == peer_id@,
            out.tip_height == tip_height,
            out.history_min_height == history_min_height,
    {
        PeerStatus { peer_id, tip_height, history_min_height }
    }
}

/// Whether a peer with status `s` can serve the start of range `r`.
pub open spec fn serves(s: PeerStatus, r: HeightRange) -> bool {
    s.history_min_height <= r.start && r.start <= s.tip_height
}

/// The state of value sync.
pub struct SyncState {
    /// Whether consensus has started.
    pub started: bool,
    /// The height consensus is working on.
    pub consensus_height: u64,
    /// The latest decided height.
    pub tip_height: u64,
    /// The next height to request from peers.
    pub sync_height: u64,
    /// Requests sent to peers and not yet fully served.
    pub pending_requests: Vec<PendingRequest>,
    /// The latest status of each peer.
    pub peers: Vec<PeerStatus>,
    pub config: SyncConfig,
    /// The id the next outbound request will carry.
    pub next_request_id: u64,
    /// The generator used to pick peers.
    pub rng: StdRng,
}

impl SyncState {
    /// The part of the state invariant that does not involve `sync_height`'s
    /// relation to the tip and to the requests: the tip has a height after it, and
    /// every pending request is a non-empty range of heights, with a height after
    /// it, carrying an id below `next_request_id`.
    pub open spec fn requests_wf(&self) -> bool {
        &&& self.tip_height < u64::MAX
        &&& forall|i: int| 0 <= i < self.pending_requests@.len() ==> {
            let e = #[trigger] self.pending_requests@[i];
            &&& e.range.start <= e.range.end
            &&& e.range.end < u64::MAX
            &&& e.id < self.next_request_id
        }
    }

    /// The state invariant: `sync_height` is above the tip and lies in no pending
    /// request, and `requests_wf` holds.
    pub open spec fn wf(&self) -> bool {
        &&& self.requests_wf()
        &&& self.tip_height < self.sync_height
        &&& !covered(self.pending_requests@, self.sync_height as int)
    }

    /// A fresh state: nothing decided, nothing requested, no peer known.
    pub fn new(seed: u64, config: SyncConfig) -> (out: SyncState)
        ensures
            out.wf(),
            !out.started,
            out.consensus_height == 0,
            out.tip_height == 0,
            out.sync_height == 1,
            out.pending_requests@.len() == 0,
            out.peers@.len() == 0,
            out.config == config,
            out.next_request_id == 0,
    {
        SyncState {
            started: false,
            consensus_height: 0,
            tip_height: 0,
            sync_height: 1,
            pending_requests: Vec::new(),
            peers: Vec::new(),
            config,
            next_request_id: 0,
            rng: seeded_rng(seed),
        }
    }

    /// The maximum number of requests in flight.
    pub fn max_parallel_requests(&self) -> (out: usize)
        ensures
            out == self.config.parallel_requests,
    {
        self.config.parallel_requests
    }

    /// Records the status announced by a peer, replacing its previous one.
    pub fn update_status(&mut self, status: PeerStatus)
        requires
            old(self).wf(),
        ensures
            final(self).wf(),
            status_updated(old(self).peers@, final(self).peers@, status),
            same_except_peers(*old(self), *final(self)),
    {
        let mut i: usize = 0;
        while i < self.peers.len()
            invariant
                0 <= i <= self.peers@.len(),
                *self == *old(self),
                old(self).wf(),
                forall|j: int| 0 <= j < i ==> #[trigger] self.peers@[j].peer_id@ != status.peer_id@,
            decreases self.peers@.len() - i,
        {
            if self.peers[i].peer_id.same(&status.peer_id) {
                let ghost old_peers = self.peers@;
                self.peers.set(i, status);
                assert(first_index_of(old_peers, status.peer_id@, i as int));
                return;
            }
            i += 1;
        }
        self.peers.push(status);
    }

    /// Looks up the pending request with id `id`.
    pub fn find_request(&self, id: u64) -> (out: Option<usize>)
        ensures
            match out {
                Some(i) => i < self.pending_requests@.len()
                    && self.pending_requests@[i as int].id == id
                    && forall|j: int| 0 <= j < i ==> #[trigger] self.pending_requests@[j].id != id,
                None => forall|j: int| 0 <= j < self.pending_requests@.len()
                    ==> #[trigger] self.pending_requests@[j].id != id,
            },
    {
        let mut i: usize = 0;
        while i < self.pending_requests.len()
            invariant
                0 <= i <= self.pending_requests@.len(),
                forall|j: int| 0 <= j < i ==> #[trigger] self.pending_requests@[j].id != id,
            decreases self.pending_requests@.len() - i,
        {
            if self.pending_requests[i].id == id {
                return Some(i);
            }
            i += 1;
        }
        None
    }

    /// The id and peer of a pending request covering `height`, if any.
    pub fn get_request_id_by(&self, height: u64) -> (out: Option<(u64, PeerId)>)
        ensures
            match out {
                Some((id, p)) => exists|i: int| #[trigger] first_covering(self.pending_requests@, height as int, i)
                    && self.pending_requests@[i].id == id
                    && self.pending_requests@[i].peer@ == p@,
                None => !covered(self.pending_requests@, height as int),
            },
    {
        match crate::sync::ranges::find_covering(&self.pending_requests, height) {
            Some(i) => Some((self.pending_requests[i].id, self.pending_requests[i].peer.copy())),
            None => None,
        }
    }

    /// Sets `sync_height` to the least height at or above both `candidate` and
    /// `tip_height + 1` that no pending request covers.
    pub fn set_sync_height(&mut self, candidate: u64)
        requires
            old(self).tip_height < u64::MAX,
            ends_below_max(old(self).pending_requests@),
        ensures
            is_next_uncovered(
                final(self).pending_requests@,
                sync_floor(old(self).tip_height as int, candidate as int),
                final(self).sync_height as int,
            ),
            final(self).pending_requests == old(self).pending_requests,
            final(self).peers == old(self).peers,
            final(self).started == old(self).started,
            final(self).consensus_height == old(self).consensus_height,
            final(self).tip_height == old(self).tip_height,
            final(self).config == old(self).config,
            final(self).next_request_id == old(self).next_request_id,
            old(self).requests_wf() ==> final(self).wf(),
    {
        let floor = if self.tip_height + 1 > candidate { self.tip_height + 1 } else { candidate };
        let h = find_next_uncovered_height(floor, &self.pending_requests);
        self.sync_height = h;
    }

    /// Drops the pending requests that end at or below the tip: every height they
    /// cover has been decided.
    pub fn prune_pending_requests(&mut self)
        requires
            old(self).requests_wf(),
        ensures
            final(self).pending_requests@
                == old(self).pending_requests@.filter(live_after(old(self).tip_height)),
            final(self).sync_height == old(self).sync_height,
            final(self).peers == old(self).peers,
            final(self).started == old(self).started,
            final(self).consensus_height == old(self).consensus_height,
            final(self).tip_height == old(self).tip_height,
            final(self).config == old(self).config,
            final(self).next_request_id == old(self).next_request_id,
            final(self).requests_wf(),
            old(self).wf() ==> final(self).wf(),
            pending_disjoint(old(self).pending_requests@) ==> pending_disjoint(final(self).pending_requests@),
    {
        let tip = self.tip_height;
        retain_live(&mut self.pending_requests, tip);
        proof {
            if pending_disjoint(old(self).pending_requests@) {
                lemma_disjoint_filter(old(self).pending_requests@, live_after(tip));
            }
            let keep = live_after(tip);
            let old_p = old(self).pending_requests@;
            assert forall|i: int| 0 <= i < self.pending_requests@.len() implies {
                let e = #[trigger] self.pending_requests@[i];
                &&& e.range.start <= e.range.end
                &&& e.range.end < u64::MAX
                &&& e.id < self.next_request_id
            } by {
                lemma_filter_member(old_p, keep, i);
            }
            if old(self).wf() && covered(self.pending_requests@, self.sync_height as int) {
                let i = choose|i: int| 0 <= i < self.pending_requests@.len()
                    && #[trigger] in_range(self.pending_requests@[i].range, self.sync_height as int);
                lemma_filter_member(old_p, keep, i);
                let j = choose|j: int| 0 <= j < old_p.len() && old_p[j] == old_p.filter(keep)[i];
                assert(in_range(old_p[j].range, self.sync_height as int));
            }
        }
    }

    /// Removes the pending request at index `i` and returns it.
    pub fn take_request(&mut self, i: usize) -> (out: PendingRequest)
        requires
            i < old(self).pending_requests@.len(),
            old(self).wf(),
        ensures
            out == old(self).pending_requests@[i as int],
            final(self).pending_requests@ == old(self).pending_requests@.remove(i as int),
            final(self).rng == old(self).rng,
            final(self).sync_height == old(self).sync_height,
            final(self).peers == old(self).peers,
            final(self).started == old(self).started,
            final(self).consensus_height == old(self).consensus_height,
            final(self).tip_height == old(self).tip_height,
            final(self).config == old(self).config,
            final(self).next_request_id == old(self).next_request_id,
            final(self).wf(),
            pending_disjoint(old(self).pending_requests@) ==> pending_disjoint(final(self).pending_requests@),
    {
        let out = self.pending_requests.remove(i);
        proof {
            if pending_disjoint(old(self).pending_requests@) {
                lemma_disjoint_remove(old(self).pending_requests@, i as int);
            }
            let old_p = old(self).pending_requests@;
            assert forall|k: int| 0 <= k < self.pending_requests@.len() implies
                #[trigger] self.pending_requests@[k] == old_p[if k < i { k } else { k + 1 }] by {}
            if covered(self.pending_requests@, self.sync_height as int) {
                let k = choose|k: int| 0 <= k < self.pending_requests@.len()
                    && #[trigger] in_range(self.pending_requests@[k].range, self.sync_height as int);
                let j = if k < i { k } else { k + 1 };
                assert(in_range(old_p[j].range, self.sync_height as int));
            }
            assert forall|k: int| 0 <= k < self.pending_requests@.len() implies {
                let e = #[trigger] self.pending_requests@[k];
                &&& e.range.start <= e.range.end
                &&& e.range.end < u64::MAX
                &&& e.id < self.next_request_id
            } by {
                let j = if k < i { k } else { k + 1 };
                assert(self.pending_requests@[k] == old_p[j]);
            }
        }
        out
    }

    /// Narrows `range` to the heights that are not decided yet.
    pub fn trim_validated_heights(&self, range: &HeightRange) -> (out: HeightRange)
        requires
            self.tip_height < u64::MAX,
        ensures
            out.start == if range.start > self.tip_height { range.start } else {
                (self.tip_height + 1) as u64
            },
            out.end == range.end,
    {
        let start = if range.start > self.tip_height { range.start } else { self.tip_height + 1 };
        HeightRange { start, end: range.end }
    }

    /// Sends a request for `range` to `peer`, after narrowing it to undecided heights,
    /// and records it as pending. Returns `false`, changing nothing, when the narrowed
    /// range is empty or no request id is left.
    pub fn send_and_track_request(
        &mut self,
        peer: PeerId,
        range: HeightRange,
        excluded_peers: Vec<PeerId>,
        effects: &mut Vec<Effect>,
    ) -> (sent: bool)
        requires
            old(self).wf(),
            range.end < u64::MAX,
        ensures
            final(self).wf(),
            same_except_requests(*old(self), *final(self)),
            sent ==> {
                let r = HeightRange {
                    start: if range.start > old(self).tip_height { range.start } else {
                        (old(self).tip_height + 1) as u64
                    },
                    end: range.end,
                };
                &&& r.start <= r.end
                &&& final(self).next_request_id == old(self).next_request_id + 1
                &&& final(self).pending_requests@.len() == old(self).pending_requests@.len() + 1
                &&& final(self).pending_requests@.drop_last() == old(self).pending_requests@
                &&& final(self).pending_requests@.last().id == old(self).next_request_id
                &&& final(self).pending_requests@.last().range == r
                &&& final(self).pending_requests@.last().peer@ == peer@
                &&& peer_views(final(self).pending_requests@.last().excluded_peers@)
                    == peer_views(excluded_peers@)
                &&& is_next_uncovered(final(self).pending_requests@,
                    sync_floor(old(self).tip_height as int, r.end + 1),
                    final(self).sync_height as int)
                &&& effects_sent(old(effects)@, final(effects)@, old(self).next_request_id, peer@, r)
            },
            request_outcome(*old(self), old(self).pending_requests@, *final(self), old(effects)@,
                final(effects)@, peer@, range, peer_views(excluded_peers@).to_set()),
            effects_extend(old(effects)@, final(effects)@),
            sent <==> (range.start <= range.end
                && (if range.start > old(self).tip_height { range.start as int } else {
                    old(self).tip_height + 1 }) <= range.end
                && old(self).next_request_id < u64::MAX),
            !sent ==> {
                &&& final(self).pending_requests == old(self).pending_requests
                &&& final(self).sync_height == old(self).sync_height
                &&& final(self).next_request_id == old(self).next_request_id
                &&& final(effects)@ == old(effects)@
            },
            pending_disjoint(old(self).pending_requests@) && (forall|j: int| 0 <= j < old(self).pending_requests@.len()
                ==> #[trigger] ranges_disjoint(old(self).pending_requests@[j].range, range))
                ==> pending_disjoint(final(self).pending_requests@),
    {
        assert(effects@.subrange(0, effects@.len() as int) =~= effects@);
        if range.is_empty() {
            return false;
        }
        let r = self.trim_validated_heights(&range);
        if r.is_empty() {
            return false;
        }
        if self.next_request_id == u64::MAX {
            return false;
        }
        let id = self.next_request_id;
        self.next_request_id = id + 1;
        let ghost old_effects = effects@;
        effects.push(Effect::SendValueRequest(id, peer.copy(), r));
        assert(effects@.drop_last() =~= old_effects);
        let ghost old_p = self.pending_requests@;
        self.pending_requests.push(PendingRequest { id, range: r, peer, excluded_peers });
        assert(self.pending_requests@.drop_last() =~= old_p);
        proof {
            if pending_disjoint(old_p) && (forall|j: int| 0 <= j < old_p.len()
                ==> #[trigger] ranges_disjoint(old_p[j].range, range)) {
                assert forall|j: int| 0 <= j < old_p.len() implies #[trigger] ranges_disjoint(old_p[j].range, r) by {
                    assert(ranges_disjoint(old_p[j].range, range));
                }
                lemma_disjoint_push(old_p, self.pending_requests@.last());
                assert(self.pending_requests@ =~= old_p.push(self.pending_requests@.last()));
            }
        }
        self.set_sync_height(r.end + 1);
        assert(effects@.subrange(0, old_effects.len() as int) =~= old_effects);
        true
    }
}

/// `range` narrowed to the heights a peer whose tip is `peer_tip` holds.
pub open spec fn narrowed(range: HeightRange, peer_tip: u64) -> HeightRange {
    HeightRange { start: range.start, end: if range.end <= peer_tip { range.end } else { peer_tip } }
}

/// `range` without the heights at or below the tip `tip`.
pub open spec fn trimmed(range: HeightRange, tip: u64) -> HeightRange {
    HeightRange { start: if range.start > tip { range.start } else { (tip + 1) as u64 }, end: range.end }
}

/// What asking `peer` for `r`, with excluded peers `excl`, does to a state `s0` whose
/// pending requests are `p0`: when `r` keeps an undecided height and an id is left, a
/// request for the undecided part of `r` is sent under the next id, appended to `p0`,
/// and `sync_height` moves to the first gap after it; otherwise nothing happens.
pub open spec fn request_outcome(
    s0: SyncState,
    p0: Seq<PendingRequest>,
    s1: SyncState,
    e0: Seq<Effect>,
    e1: Seq<Effect>,
    peer: Seq<u8>,
    r: HeightRange,
    excl: Set<Seq<u8>>,
) -> bool {
    let t = trimmed(r, s0.tip_height);
    &&& same_except_requests(s0, s1)
    &&& if r.start <= r.end && t.start <= t.end && s0.next_request_id < u64::MAX {
        &&& s1.next_request_id == s0.next_request_id + 1
        &&& s1.pending_requests@.len() == p0.len() + 1
        &&& s1.pending_requests@.drop_last() == p0
        &&& s1.pending_requests@.last().id == s0.next_request_id
        &&& s1.pending_requests@.last().range == t
        &&& s1.pending_requests@.last().peer@ == peer
        &&& excluded_views(s1.pending_requests@.last()).to_set() == excl
        &&& is_next_uncovered(s1.pending_requests@, sync_floor(s0.tip_height as int, t.end + 1),
            s1.sync_height as int)
        &&& effects_sent(e0, e1, s0.next_request_id, peer, t)
    } else {
        &&& s1.pending_requests@ == p0
        &&& s1.sync_height == s0.sync_height
        &&& s1.next_request_id == s0.next_request_id
        &&& e1 == e0
    }
}

/// The floor that `sync_height` must respect: strictly above the tip, and at or
/// above the candidate.
pub open spec fn sync_floor(tip_height: int, candidate: int) -> int {
    if tip_height + 1 > candidate { tip_height + 1 } else { candidate }
}

/// Whether a request of a full batch from `sync_height` could reach the largest
/// height, after which there is no height to sync next.
pub open spec fn reaches_height_max(sync_height: u64, batch_size: usize) -> bool {
    sync_height + (if batch_size < 1 { 1 } else { batch_size as int }) - 1 >= u64::MAX
}

/// Keeps the requests that still cover some height above `tip`.
pub open spec fn live_after(tip: u64) -> spec_fn(PendingRequest) -> bool {
    |e: PendingRequest| e.range.end > tip
}

/// Whether `i` is the first index of `peers` holding peer `id`.
pub open spec fn first_index_of(peers: Seq<PeerStatus>, id: Seq<u8>, i: int) -> bool {
    &&& 0 <= i < peers.len()
    &&& peers[i].peer_id@ == id
    &&& forall|j: int| 0 <= j < i ==> #[trigger] peers[j].peer_id@ != id
}

/// Whether `new_peers` is `old_peers` with the status of `s.peer_id` set to `s`:
/// its first entry replaced, or `s` appended when the peer is new.
pub open spec fn status_updated(old_peers: Seq<PeerStatus>, new_peers: Seq<PeerStatus>, s: PeerStatus) -> bool {
    ||| exists|i: int| first_index_of(old_peers, s.peer_id@, i) && new_peers == old_peers.update(i, s)
    ||| (forall|j: int| 0 <= j < old_peers.len() ==> #[trigger] old_peers[j].peer_id@ != s.peer_id@)
        && new_peers == old_peers.push(s)
}

/// Two states agree on everything but their peers.
pub open spec fn same_except_peers(a: SyncState, b: SyncState) -> bool {
    &&& a.started == b.started
    &&& a.consensus_height == b.consensus_height
    &&& a.tip_height == b.tip_height
    &&& a.sync_height == b.sync_height
    &&& a.pending_requests == b.pending_requests
    &&& a.config == b.config
    &&& a.next_request_id == b.next_request_id
}

/// Two states agree on everything but their requests and sync height.
pub open spec fn same_except_requests(a: SyncState, b: SyncState) -> bool {
    &&& a.started == b.started
    &&& a.consensus_height == b.consensus_height
    &&& a.tip_height == b.tip_height
    &&& a.peers == b.peers
    &&& a.config == b.config
}

/// `new` is `old` followed by zero or more effects.
pub open spec fn effects_extend(old: Seq<Effect>, new: Seq<Effect>) -> bool {
    &&& old.len() <= new.len()
    &&& new.subrange(0, old.len() as int) == old
}

/// `new` is `old` followed by a request with id `id` to `peer` for `r`.
pub open spec fn effects_sent(old: Seq<Effect>, new: Seq<Effect>, id: u64, peer: Seq<u8>, r: HeightRange) -> bool {
    &&& new.len() == old.len() + 1
    &&& new.drop_last() == old
    &&& new.last() matches Effect::SendValueRequest(i, p, rr) && i == id && p@ == peer && rr == r
}

/// Every element of a filtered sequence comes from the sequence that was filtered.
pub proof fn lemma_filter_member<A>(s: Seq<A>, p: spec_fn(A) -> bool, i: int)
    requires
        0 <= i < s.filter(p).len(),
    ensures
        exists|j: int| 0 <= j < s.len() && s[j] == s.filter(p)[i],
{
    assert(s.filter(p).contains(s.filter(p)[i]));
    s.lemma_filter_contains_rev(p, s.filter(p)[i]);
}

/// Removes, in order, the requests that end at or below `tip`.
fn retain_live(pending: &mut Vec<PendingRequest>, tip: u64)
    ensures
        final(pending)@ == old(pending)@.filter(live_after(tip)),
{
    let ghost old_p = pending@;
    let ghost keep = live_after(tip);
    let ghost mut k: int = 0;
    let mut i: usize = 0;
    assert(old_p.subrange(0, 0).filter(keep) =~= Seq::<PendingRequest>::empty()) by {
        reveal(Seq::filter);
    }
    assert(pending@ =~= old_p.subrange(0, 0).filter(keep) + old_p.subrange(0, old_p.len() as int));
    while i < pending.len()
        invariant
            0 <= k <= old_p.len(),
            i == old_p.subrange(0, k).filter(keep).len(),
            pending@ == old_p.subrange(0, k).filter(keep) + old_p.subrange(k, old_p.len() as int),
            keep == live_after(tip),
        decreases old_p.len() - k,
    {
        let ghost pre = old_p.subrange(0, k);
        assert(old_p.subrange(0, k + 1) =~= pre.push(old_p[k]));
        assert(pending@[i as int] == old_p[k]);
        if pending[i].range.end > tip {
            i += 1;
            proof {
                pre.lemma_filter_push(old_p[k], keep);
                k = k + 1;
            }
            assert(pending@ =~= old_p.subrange(0, k).filter(keep) + old_p.subrange(k, old_p.len() as int));
        } else {
            pending.remove(i);
            proof {
                pre.lemma_filter_push(old_p[k], keep);
                k = k + 1;
            }
            assert(pending@ =~= old_p.subrange(0, k).filter(keep) + old_p.subrange(k, old_p.len() as int));
        }
    }
    assert(old_p.subrange(0, k) =~= old_p) by {
        assert(k == old_p.len()) by {
            if k < old_p.len() {
                assert(pending@.len() > i);
            }
        }
    }
}

/// Picks at random a peer, outside `excluded`, that can serve the start of `range`,
/// and narrows the range to what that peer holds.
pub fn random_peer_with_except(
    rng: &mut StdRng,
    peers: &Vec<PeerStatus>,
    range: &HeightRange,
    excluded: &Vec<PeerId>,
) -> (out: Option<(PeerId, HeightRange)>)
    ensures
        out is None <==> !exists|i: int| 0 <= i < peers@.len()
            && #[trigger] serves(peers@[i], *range)
            && !peer_views(excluded@).contains(peers@[i].peer_id@),
        out matches Some((p, r)) ==> exists|i: int| 0 <= i < peers@.len()
            && #[trigger] serves(peers@[i], *range)
            && !peer_views(excluded@).contains(peers@[i].peer_id@)
            && p@ == peers@[i].peer_id@
            && r.start == range.start
            && r.end == if range.end <= peers@[i].tip_height { range.end } else {
                peers@[i].tip_height
            },
{
    let mut candidates: Vec<usize> = Vec::new();
    let mut i: usize = 0;
    while i < peers.len()
        invariant
            0 <= i <= peers@.len(),
            forall|k: int| 0 <= k < candidates@.len() ==> {
                let j = #[trigger] candidates@[k] as int;
                &&& 0 <= j < peers@.len()
                &&& serves(peers@[j], *range)
                &&& !peer_views(excluded@).contains(peers@[j].peer_id@)
            },
            forall|j: int| 0 <= j < i && #[trigger] serves(peers@[j], *range)
                && !peer_views(excluded@).contains(peers@[j].peer_id@)
                ==> candidates@.contains(j as usize),
        decreases peers@.len() - i,
    {
        let s = &peers[i];
        if s.history_min_height <= range.start && range.start <= s.tip_height
            && !contains_peer(excluded, &s.peer_id)
        {
            candidates.push(i);
            assert(candidates@.last() == i);
        }
        i += 1;
    }
    if candidates.len() == 0 {
        assert forall|j: int| 0 <= j < peers@.len() && #[trigger] serves(peers@[j], *range)
            implies peer_views(excluded@).contains(peers@[j].peer_id@) by {
            if !peer_views(excluded@).contains(peers@[j].peer_id@) {
                assert(candidates@.contains(j as usize));
            }
        }
        return None;
    }
    let k = random_index(rng, candidates.len());
    let j = candidates[k];
    let p = &peers[j];
    let end = if range.end <= p.tip_height { range.end } else { p.tip_height };
    assert(serves(peers@[j as int], *range));
    Some((p.peer_id.copy(), HeightRange { start: range.start, end }))
}

/// What the sync handler asks its environment to do.
#[derive(Debug)]
pub enum Effect {
    /// Announce our tip height to all peers.
    BroadcastStatus(u64),
    /// Send a request, under the given id, for a range of values to a peer.
    SendValueRequest(u64, PeerId, HeightRange),
    /// Answer the inbound request with the given id.
    SendValueResponse(u64, ValueResponse),
    /// Ask the application for the decided values in a range, to answer an inbound request.
    GetDecidedValues(u64, HeightRange),
    /// Hand a response from a peer, to the request with the given id, to consensus.
    ProcessValueResponse(PeerId, u64, ValueResponse),
    /// Update the score of a peer with how its request went.
    ScorePeer(PeerId, PeerOutcome),
}

/// How a request to a peer went, as peer scoring counts it.
#[derive(Copy, Clone, Debug, PartialEq, Eq)]
pub enum PeerOutcome {
    /// The peer answered with a valid response to a request for values from the
    /// given height on. The response time is the one recorded for a request from
    /// that height: where none was recorded, the peer is not scored.
    Success(u64),
    /// The peer answered with an invalid response or an invalid value.
    Failure,
    /// The peer did not answer in time.
    Timeout,
}

/// `new` is `old` followed by the scoring of `peer` with `outcome`, and then maybe
/// more effects.
pub open spec fn score_pushed(old: Seq<Effect>, new: Seq<Effect>, peer: Seq<u8>, outcome: PeerOutcome) -> bool {
    &&& new.len() > old.len()
    &&& new.subrange(0, old.len() as int) == old
    &&& new[old.len() as int] matches Effect::ScorePeer(p, o) && p@ == peer && o == outcome
}

/// The effects of `new` up to and including the first one it adds to `old`.
pub open spec fn through_next(old: Seq<Effect>, new: Seq<Effect>) -> Seq<Effect> {
    new.subrange(0, old.len() as int + 1)
}

} // verus!
