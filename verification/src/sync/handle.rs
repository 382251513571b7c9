//! The value sync handler: reacts to inputs from consensus, peers and the
//! application by updating the sync state and emitting effects.

use vstd::prelude::*;
use crate::peer::{PeerId, peer_views, contains_peer};
use crate::sync::ranges::{
    HeightRange, PendingRequest, disjoint_before, pending_disjoint, ranges_disjoint,
    lemma_disjoint_push, lemma_disjoint_remove, lemma_disjoint_shrink, lemma_disjoint_within,
    lemma_disjoint_pair, RawDecidedValue, ValueResponse, validate_request_range,
    clamp_request_range, request_range_valid, count_contiguous_prefix, contiguous_prefix_len,
    first_covering, heights_contiguous, validate_value_response_heights, covered, in_range, lemma_next_uncovered_unique, is_next_uncovered, is_next_request_range, excluded_views,
    find_next_uncovered_range_from,
};
use crate::sync::state::{
    SyncState, Effect, PeerOutcome, PeerStatus, reaches_height_max, serves, same_except_requests, live_after,
    sync_floor, status_updated, narrowed, request_outcome, effects_extend, score_pushed, through_next,
    random_peer_with_except,
};

verus! {

broadcast use {vstd::seq_lib::group_seq_properties, vstd::seq_lib::group_filter_ensures};

/// Whether effect `e` sends the request `p`.
pub open spec fn sends_request(e: Effect, p: PendingRequest) -> bool {
    e matches Effect::SendValueRequest(id, peer, r) && id == p.id && peer@ == p.peer@ && r == p.range
}

/// Whether some peer, not among `excluded`, announced that it holds all of `r`.
pub open spec fn held_by_peer(peers: Seq<PeerStatus>, r: HeightRange, peer: Seq<u8>, excluded: Seq<Seq<u8>>) -> bool {
    exists|i: int| 0 <= i < peers.len()
        && #[trigger] peers[i].peer_id@ == peer
        && peers[i].history_min_height <= r.start
        && r.end <= peers[i].tip_height
        && !excluded.contains(peer)
}

/// Whether `new_p`/`new_e` are `old_p`/`old_e` followed by requests sent in order:
/// each with the next fresh id, each announced by one effect, each held by a peer
/// outside its excluded peers, and none overlapping an earlier request.
pub open spec fn requests_appended(
    old_p: Seq<PendingRequest>,
    new_p: Seq<PendingRequest>,
    old_e: Seq<Effect>,
    new_e: Seq<Effect>,
    first_id: int,
    peers: Seq<PeerStatus>,
) -> bool {
    &&& old_p.len() <= new_p.len()
    &&& new_p.subrange(0, old_p.len() as int) == old_p
    &&& new_e.len() == old_e.len() + (new_p.len() - old_p.len())
    &&& new_e.subrange(0, old_e.len() as int) == old_e
    &&& forall|k: int| old_p.len() <= k < new_p.len() ==> {
        &&& #[trigger] new_p[k].id == first_id + (k - old_p.len())
        &&& sends_request(new_e[old_e.len() + (k - old_p.len())], new_p[k])
        &&& held_by_peer(peers, new_p[k].range, new_p[k].peer@, excluded_views(new_p[k]))
        &&& disjoint_before(new_p, k)
    }
}

/// Appending no request satisfies `requests_appended`.
pub proof fn lemma_requests_appended_refl(p: Seq<PendingRequest>, e: Seq<Effect>, first_id: int, peers: Seq<PeerStatus>)
    ensures
        requests_appended(p, p, e, e, first_id, peers),
{
    assert(p.subrange(0, p.len() as int) =~= p);
    assert(e.subrange(0, e.len() as int) =~= e);
}

/// A range built by `find_next_uncovered_range_from` from `sync_height`, then
/// narrowed at both ends, overlaps no pending request.
pub proof fn lemma_next_range_disjoint(p: Seq<PendingRequest>, from: int, size: int, r: HeightRange, a: int, b: int)
    requires
        is_next_uncovered(p, from, r.start as int),
        is_next_request_range(p, r.start as int, size, r),
        r.start <= a,
        b <= r.end,
        a <= b,
        forall|j: int| 0 <= j < p.len() ==> #[trigger] p[j].range.start <= p[j].range.end,
    ensures
        forall|j: int| 0 <= j < p.len() ==> #[trigger] p[j].range.end < a || b < p[j].range.start,
{
    assert forall|j: int| 0 <= j < p.len() implies #[trigger] p[j].range.end < a || b < p[j].range.start by {
        if p[j].range.end >= r.start {
            assert(r.end < p[j].range.start);
        }
    }
}

/// Whether every height in `a..b` is covered by some pending request.
pub open spec fn covered_between(p: Seq<PendingRequest>, a: int, b: int) -> bool {
    forall|k: int| a <= k < b ==> #[trigger] covered(p, k)
}

/// Whether some peer announced that it holds height `h`.
pub open spec fn some_peer_serves(peers: Seq<PeerStatus>, h: int) -> bool {
    exists|i: int| 0 <= i < peers.len()
        && #[trigger] peers[i].history_min_height <= h && h <= peers[i].tip_height
}

/// A height covered by a list of requests stays covered when a request is appended.
pub proof fn lemma_covered_push(p: Seq<PendingRequest>, e: PendingRequest, k: int)
    requires
        covered(p, k),
    ensures
        covered(p.push(e), k),
{
    let i = choose|i: int| 0 <= i < p.len() && #[trigger] in_range(p[i].range, k);
    assert(in_range(p.push(e)[i].range, k));
}

/// A height covered by a prefix of a list of requests is covered by the list.
pub proof fn lemma_covered_prefix(p: Seq<PendingRequest>, q: Seq<PendingRequest>, k: int)
    requires
        p.len() <= q.len(),
        q.subrange(0, p.len() as int) == p,
        covered(p, k),
    ensures
        covered(q, k),
{
    let i = choose|i: int| 0 <= i < p.len() && #[trigger] in_range(p[i].range, k);
    assert(q[i] == q.subrange(0, p.len() as int)[i]);
    assert(in_range(q[i].range, k));
}

/// If `s1` is the first gap at or above `f` among the requests `p`, the requests `q`
/// extend `p`, and `q` covers `s1..s2` but not `s2`, then `s2` is the first gap of `q`.
pub proof fn lemma_gap_extends(p: Seq<PendingRequest>, q: Seq<PendingRequest>, f: int, s1: int, s2: int)
    requires
        is_next_uncovered(p, f, s1),
        p.len() <= q.len(),
        q.subrange(0, p.len() as int) == p,
        s1 <= s2,
        covered_between(q, s1, s2),
        !covered(q, s2),
    ensures
        is_next_uncovered(q, f, s2),
{
    assert forall|k: int| f <= k < s2 implies covered(q, k) by {
        if k < s1 {
            lemma_covered_prefix(p, q, k);
        }
    }
}

impl SyncState {
    /// Sends requests for the next uncovered ranges, to peers picked at random among
    /// those that hold them, until `parallel_requests` requests are in flight or no
    /// peer holds the next range. It also stops where a full batch from
    /// `sync_height` would pass the largest height `u64::MAX`, or where the range to
    /// request ends at that height: no height would be left after it for
    /// `sync_height`.
    pub fn request_values(&mut self, effects: &mut Vec<Effect>)
        requires
            old(self).wf(),
        ensures
            final(self).wf(),
            same_except_requests(*old(self), *final(self)),
            requests_appended(old(self).pending_requests@, final(self).pending_requests@,
                old(effects)@, final(effects)@, old(self).next_request_id as int, old(self).peers@),
            final(self).next_request_id == old(self).next_request_id
                + (final(self).pending_requests@.len() - old(self).pending_requests@.len()),
            old(self).pending_requests@.len() >= old(self).config.parallel_requests
                ==> final(self).pending_requests@.len() == old(self).pending_requests@.len(),
            final(self).pending_requests@.len() <= if old(self).pending_requests@.len()
                >= old(self).config.parallel_requests {
                old(self).pending_requests@.len() as int
            } else {
                old(self).config.parallel_requests as int
            },
            pending_disjoint(old(self).pending_requests@) ==> pending_disjoint(final(self).pending_requests@),
            old(self).sync_height <= final(self).sync_height,
            covered_between(final(self).pending_requests@, old(self).sync_height as int,
                final(self).sync_height as int),
            final(self).pending_requests@.len() >= old(self).config.parallel_requests
                || final(self).next_request_id == u64::MAX
                || !some_peer_serves(final(self).peers@, final(self).sync_height as int)
                || reaches_height_max(final(self).sync_height, final(self).config.batch_size),
    {
        let max_parallel = self.max_parallel_requests();
        proof { lemma_requests_appended_refl(self.pending_requests@, effects@, self.next_request_id as int, self.peers@); }
        if self.pending_requests.len() >= max_parallel {
            return;
        }
        let ghost old_p = self.pending_requests@;
        let ghost old_e = effects@;
        let ghost first_id = self.next_request_id as int;
        while self.pending_requests.len() < max_parallel
            invariant
                self.wf(),
                same_except_requests(*old(self), *self),
                max_parallel == old(self).config.parallel_requests,
                old_p == old(self).pending_requests@,
                old_e == old(effects)@,
                first_id == old(self).next_request_id,
                requests_appended(old_p, self.pending_requests@, old_e, effects@, first_id, self.peers@),
                self.next_request_id == first_id + (self.pending_requests@.len() - old_p.len()),
                self.pending_requests@.len() <= max_parallel,
                pending_disjoint(old_p) ==> pending_disjoint(self.pending_requests@),
                old(self).sync_height <= self.sync_height,
                covered_between(self.pending_requests@, old(self).sync_height as int,
                    self.sync_height as int),
            ensures
                self.pending_requests@.len() >= max_parallel
                    || self.next_request_id == u64::MAX
                    || !some_peer_serves(self.peers@, self.sync_height as int)
                    || reaches_height_max(self.sync_height, self.config.batch_size),
            decreases max_parallel - self.pending_requests@.len(),
        {
            let batch = self.config.batch_size as u64;
            let b: u64 = if batch < 1 { 1 } else { batch };
            if self.sync_height > u64::MAX - (b - 1) {
                break;
            }
            proof {
                assert forall|s: int| #[trigger] is_next_uncovered(self.pending_requests@, self.sync_height as int, s)
                    implies s + (if batch < 1 { 1 } else { batch as int }) - 1 <= u64::MAX by {
                    assert(is_next_uncovered(self.pending_requests@, self.sync_height as int,
                        self.sync_height as int));
                    lemma_next_uncovered_unique(self.pending_requests@, self.sync_height as int,
                        self.sync_height as int, s);
                }
            }
            let range = find_next_uncovered_range_from(self.sync_height, batch, &self.pending_requests);
            let no_exclusions: Vec<PeerId> = Vec::new();
            let picked = random_peer_with_except(&mut self.rng, &self.peers, &range, &no_exclusions);
            proof {
                assert(is_next_uncovered(self.pending_requests@, self.sync_height as int,
                    self.sync_height as int));
                lemma_next_uncovered_unique(self.pending_requests@, self.sync_height as int,
                    self.sync_height as int, range.start as int);
            }
            let (peer, r) = match picked {
                None => {
                    assert(!some_peer_serves(self.peers@, self.sync_height as int)) by {
                        if some_peer_serves(self.peers@, self.sync_height as int) {
                            let i = choose|i: int| 0 <= i < self.peers@.len()
                                && #[trigger] self.peers@[i].history_min_height <= self.sync_height
                                && self.sync_height <= self.peers@[i].tip_height;
                            assert(serves(self.peers@[i], range));
                            assert(!peer_views(no_exclusions@).contains(self.peers@[i].peer_id@));
                        }
                    }
                    break;
                },
                Some(x) => x,
            };
            if r.end == u64::MAX {
                proof {
                    let i = choose|i: int| 0 <= i < self.peers@.len()
                        && #[trigger] serves(self.peers@[i], range)
                        && !peer_views(no_exclusions@).contains(self.peers@[i].peer_id@)
                        && peer@ == self.peers@[i].peer_id@
                        && r.start == range.start
                        && r.end == if range.end <= self.peers@[i].tip_height { range.end } else {
                            self.peers@[i].tip_height
                        };
                }
                break;
            }
            let ghost pre_p = self.pending_requests@;
            let ghost pre_e = effects@;
            let ghost pre_self = *self;
            let ghost peer_v = peer@;
            proof {
                let i = choose|i: int| 0 <= i < self.peers@.len()
                    && #[trigger] serves(self.peers@[i], range)
                    && !peer_views(no_exclusions@).contains(self.peers@[i].peer_id@)
                    && peer@ == self.peers@[i].peer_id@
                    && r.start == range.start
                    && r.end == if range.end <= self.peers@[i].tip_height { range.end } else {
                        self.peers@[i].tip_height
                    };
            }
            if !self.send_and_track_request(peer, r, no_exclusions, effects) {
                break;
            }
            proof {
                let n = pre_p.len() as int;
                let e = self.pending_requests@[n];
                // The new request starts at the previous sync height, and the new sync
                // height is the first gap after it.
                assert(self.pending_requests@ == pre_p.push(e)) by {
                    assert(self.pending_requests@ =~= self.pending_requests@.drop_last().push(e));
                }
                assert(e.range.start == pre_self.sync_height);
                assert forall|k: int| old(self).sync_height <= k < self.sync_height implies
                    #[trigger] covered(self.pending_requests@, k) by {
                    if k < pre_self.sync_height {
                        lemma_covered_push(pre_p, e, k);
                    } else if k <= e.range.end {
                        assert(in_range(self.pending_requests@[n].range, k));
                    }
                }
                assert(self.pending_requests@.subrange(0, n) =~= pre_p);
                assert(self.pending_requests@.subrange(0, old_p.len() as int) =~= old_p) by {
                    assert(pre_p.subrange(0, old_p.len() as int) == old_p);
                }
                assert(effects@.subrange(0, old_e.len() as int) =~= old_e) by {
                    assert(pre_e.subrange(0, old_e.len() as int) == old_e);
                    assert(effects@.drop_last() == pre_e);
                }
                // The new request overlaps no earlier request.
                lemma_next_range_disjoint(pre_p, pre_self.sync_height as int, batch as int, range,
                    e.range.start as int, e.range.end as int);
                assert(disjoint_before(self.pending_requests@, n)) by {
                    assert forall|j: int| 0 <= j < n implies
                        #[trigger] self.pending_requests@[j].range.end < self.pending_requests@[n].range.start
                        || self.pending_requests@[n].range.end < self.pending_requests@[j].range.start by {
                        assert(self.pending_requests@[j] == pre_p[j]);
                    }
                }
                assert(held_by_peer(self.peers@, e.range, e.peer@, excluded_views(e))) by {
                    let i = choose|i: int| 0 <= i < pre_self.peers@.len()
                        && #[trigger] serves(pre_self.peers@[i], range)
                        && !peer_views(no_exclusions@).contains(pre_self.peers@[i].peer_id@)
                        && peer_v == pre_self.peers@[i].peer_id@
                        && r.start == range.start
                        && r.end == if range.end <= pre_self.peers@[i].tip_height { range.end } else {
                            pre_self.peers@[i].tip_height
                        };
                    assert(self.peers@[i].peer_id@ == e.peer@);
                    assert(excluded_views(e) =~= Seq::<Seq<u8>>::empty());
                }
                assert forall|k: int| old_p.len() <= k < self.pending_requests@.len() implies {
                    &&& #[trigger] self.pending_requests@[k].id == first_id + (k - old_p.len())
                    &&& sends_request(effects@[old_e.len() + (k - old_p.len())], self.pending_requests@[k])
                    &&& held_by_peer(self.peers@, self.pending_requests@[k].range,
                        self.pending_requests@[k].peer@, excluded_views(self.pending_requests@[k]))
                    &&& disjoint_before(self.pending_requests@, k)
                } by {
                    if k < n {
                        assert(self.pending_requests@[k] == pre_p[k]);
                        assert(effects@[old_e.len() + (k - old_p.len())] == pre_e[old_e.len() + (k - old_p.len())]);
                        assert(disjoint_before(pre_p, k));
                        assert forall|j: int| 0 <= j < k implies
                            #[trigger] self.pending_requests@[j].range.end < self.pending_requests@[k].range.start
                            || self.pending_requests@[k].range.end < self.pending_requests@[j].range.start by {
                            assert(self.pending_requests@[j] == pre_p[j]);
                        }
                    }
                }
                if pending_disjoint(old_p) {
                    assert forall|k: int| 0 <= k < self.pending_requests@.len() implies
                        #[trigger] disjoint_before(self.pending_requests@, k) by {
                        if k < n {
                            assert(disjoint_before(pre_p, k));
                            assert forall|j: int| 0 <= j < k implies
                                #[trigger] self.pending_requests@[j].range.end < self.pending_requests@[k].range.start
                                || self.pending_requests@[k].range.end < self.pending_requests@[j].range.start by {
                                assert(self.pending_requests@[j] == pre_p[j]);
                                assert(self.pending_requests@[k] == pre_p[k]);
                            }
                        }
                    }
                }
            }
        }
    }
}


/// How consensus entered a height.
#[derive(Copy, Clone, Debug, PartialEq, Eq)]
pub enum HeightStartType {
    /// A new height.
    Start,
    /// The same height again, after a restart.
    Restart,
}

impl HeightStartType {
    /// Whether this is a restart of the height.
    pub fn is_restart(&self) -> (out: bool)
        ensures
            out == (*self is Restart),
    {
        match self {
            HeightStartType::Start => false,
            HeightStartType::Restart => true,
        }
    }
}

/// Whether `new` is `old` with one more effect at the end.
pub open spec fn one_effect_pushed(old: Seq<Effect>, new: Seq<Effect>) -> bool {
    &&& new.len() == old.len() + 1
    &&& new.drop_last() == old
}

/// The tip once consensus starts `height`: the height before it, or zero.
pub open spec fn tip_before(height: u64) -> u64 {
    if height == 0 { 0 } else { (height - 1) as u64 }
}

/// The requests that remain when consensus starts a height with tip `tip`: none on
/// a restart, otherwise those that still cover a height above the tip.
pub open spec fn requests_kept_on_start(p: Seq<PendingRequest>, tip: u64, restart: bool) -> Seq<PendingRequest> {
    if restart { Seq::empty() } else { p.filter(live_after(tip)) }
}

/// The candidate sync height once consensus starts `height`.
pub open spec fn sync_candidate_on_start(sync_height: u64, height: u64, restart: bool) -> int {
    if restart || sync_height < height { height as int } else { sync_height as int }
}

/// Announces our tip height to all peers.
pub fn on_send_status_update(state: &SyncState, effects: &mut Vec<Effect>)
    ensures
        final(effects)@ == old(effects)@.push(Effect::BroadcastStatus(state.tip_height)),
{
    effects.push(Effect::BroadcastStatus(state.tip_height));
}

/// The effect of `on_value_request`.
pub open spec fn value_request_post(s: SyncState, e0: Seq<Effect>, e1: Seq<Effect>, request_id: u64, range: HeightRange) -> bool {
    &&& one_effect_pushed(e0, e1)
    &&& request_range_valid(range, s.tip_height as int, s.config.batch_size as int) ==>
        e1.last() == Effect::GetDecidedValues(request_id, narrowed(range, s.tip_height))
    &&& !request_range_valid(range, s.tip_height as int, s.config.batch_size as int) ==>
        (e1.last() matches Effect::SendValueResponse(id, resp)
            && id == request_id && resp.start_height == range.start && resp.values@.len() == 0)
}

/// Answers an inbound request for values: an empty response when the range is
/// invalid (see `validate_request_range`), otherwise a request to the application
/// for the decided values of the range, clamped to our tip.
pub fn on_value_request(state: &SyncState, request_id: u64, range: HeightRange, effects: &mut Vec<Effect>)
    ensures
        value_request_post(*state, old(effects)@, final(effects)@, request_id, range),
{
    let ghost old_e = effects@;
    if !validate_request_range(&range, state.tip_height, state.config.batch_size) {
        effects.push(Effect::SendValueResponse(request_id, ValueResponse::new(range.start, Vec::new())));
        assert(effects@.drop_last() =~= old_e);
        return;
    }
    let clamped = clamp_request_range(&range, state.tip_height);
    effects.push(Effect::GetDecidedValues(request_id, clamped));
    assert(effects@.drop_last() =~= old_e);
}

/// The effect of `on_got_decided_values`.
pub open spec fn got_decided_values_post(
    e0: Seq<Effect>,
    e1: Seq<Effect>,
    request_id: u64,
    range: HeightRange,
    values: Seq<RawDecidedValue>,
) -> bool {
    &&& one_effect_pushed(e0, e1)
    &&& (e1.last() matches Effect::SendValueResponse(id, resp)
        && id == request_id
        && resp.start_height == range.start
        && contiguous_prefix_len(range.start as int, values, resp.values@.len() as int)
        && resp.values@ == values.subrange(0, resp.values@.len() as int))
}

/// Forwards to the requesting peer the values the application returned for `range`,
/// truncated before the first value that is not at the expected height.
pub fn on_got_decided_values(
    request_id: u64,
    range: HeightRange,
    values: Vec<RawDecidedValue>,
    effects: &mut Vec<Effect>,
)
    ensures
        got_decided_values_post(old(effects)@, final(effects)@, request_id, range, values@),
{
    let mut values = values;
    let ghost old_values = values@;
    let ghost old_e = effects@;
    let n = count_contiguous_prefix(range.start, &values);
    values.truncate(n);
    assert(values@ =~= old_values.subrange(0, n as int));
    effects.push(Effect::SendValueResponse(request_id, ValueResponse::new(range.start, values)));
    assert(effects@.drop_last() =~= old_e);
}

/// The effect of `on_decided`.
pub open spec fn decided_post(s0: SyncState, s1: SyncState, height: u64) -> bool {
    &&& s1.tip_height == height
    &&& s1.pending_requests@ == s0.pending_requests@.filter(live_after(height))
    &&& is_next_uncovered(s1.pending_requests@,
        sync_floor(height as int, s0.sync_height as int), s1.sync_height as int)
    &&& s1.started == s0.started
    &&& s1.consensus_height == s0.consensus_height
    &&& s1.peers == s0.peers
    &&& s1.config == s0.config
    &&& s1.next_request_id == s0.next_request_id
}

/// The effect of `on_started_height`.
pub open spec fn started_post(s0: SyncState, s1: SyncState, e0: Seq<Effect>, e1: Seq<Effect>, height: u64, start_type: HeightStartType) -> bool {
    &&& s1.started
    &&& s1.consensus_height == height
    &&& s1.tip_height == tip_before(height)
    &&& s1.peers == s0.peers
    &&& s1.config == s0.config
    &&& requests_appended(
        requests_kept_on_start(s0.pending_requests@, tip_before(height), start_type is Restart),
        s1.pending_requests@, e0, e1,
        s0.next_request_id as int, s0.peers@)
    &&& s1.next_request_id == s0.next_request_id
        + (s1.pending_requests@.len() - requests_kept_on_start(
            s0.pending_requests@, tip_before(height), start_type is Restart).len())
    &&& is_next_uncovered(s1.pending_requests@,
        sync_floor(tip_before(height) as int,
            sync_candidate_on_start(s0.sync_height, height, start_type is Restart)),
        s1.sync_height as int)
    &&& s1.pending_requests@.len() >= s0.config.parallel_requests
        || s1.next_request_id == u64::MAX
        || !some_peer_serves(s1.peers@, s1.sync_height as int)
        || reaches_height_max(s1.sync_height, s1.config.batch_size)
}

/// The effect of `on_status`.
pub open spec fn status_post(s0: SyncState, s1: SyncState, e0: Seq<Effect>, e1: Seq<Effect>, status: PeerStatus) -> bool {
    &&& status_updated(s0.peers@, s1.peers@, status)
    &&& s1.started == s0.started
    &&& s1.consensus_height == s0.consensus_height
    &&& s1.tip_height == s0.tip_height
    &&& s1.config == s0.config
    &&& !s0.started || status.tip_height < s0.sync_height ==> {
        &&& s1.pending_requests == s0.pending_requests
        &&& s1.sync_height == s0.sync_height
        &&& s1.next_request_id == s0.next_request_id
        &&& e1 == e0
    }
    &&& s0.started && status.tip_height >= s0.sync_height ==> {
        &&& requests_appended(s0.pending_requests@, s1.pending_requests@,
            e0, e1, s0.next_request_id as int, s1.peers@)
        &&& s1.next_request_id == s0.next_request_id
            + (s1.pending_requests@.len() - s0.pending_requests@.len())
        &&& s0.sync_height <= s1.sync_height
        &&& covered_between(s1.pending_requests@, s0.sync_height as int,
            s1.sync_height as int)
        &&& (s1.pending_requests@.len() >= s0.config.parallel_requests
            || s1.next_request_id == u64::MAX
            || !some_peer_serves(s1.peers@, s1.sync_height as int)
            || reaches_height_max(s1.sync_height, s1.config.batch_size))
    }
}


/// Whether no peer outside `excl` serves `range`.
pub open spec fn no_serving_peer(peers: Seq<PeerStatus>, range: HeightRange, excl: Set<Seq<u8>>) -> bool {
    !exists|i: int| 0 <= i < peers.len() && #[trigger] serves(peers[i], range)
        && !excl.contains(peers[i].peer_id@)
}

/// A request for `range` was made, as `request_outcome` describes, to a peer outside
/// `excl` that serves `range`, narrowed to what that peer holds.
pub open spec fn sent_to_serving_peer(
    s0: SyncState,
    p0: Seq<PendingRequest>,
    s1: SyncState,
    e0: Seq<Effect>,
    e1: Seq<Effect>,
    range: HeightRange,
    excl: Set<Seq<u8>>,
) -> bool {
    exists|i: int| 0 <= i < s0.peers@.len() && #[trigger] serves(s0.peers@[i], range)
        && !excl.contains(s0.peers@[i].peer_id@)
        && request_outcome(s0, p0, s1, e0, e1, s0.peers@[i].peer_id@,
            narrowed(range, s0.peers@[i].tip_height), excl)
}

/// Whether `i` is the index of the first pending request with id `id`.
pub open spec fn request_index(p: Seq<PendingRequest>, id: u64, i: int) -> bool {
    &&& 0 <= i < p.len()
    &&& p[i].id == id
    &&& forall|j: int| 0 <= j < i ==> #[trigger] p[j].id != id
}

/// Whether some pending request has id `id`.
pub open spec fn has_request(p: Seq<PendingRequest>, id: u64) -> bool {
    exists|i: int| 0 <= i < p.len() && #[trigger] p[i].id == id
}

/// The index of the first pending request with id `id`.
pub open spec fn request_index_of(p: Seq<PendingRequest>, id: u64) -> int {
    choose|i: int| request_index(p, id, i)
}

/// The first index of a request id is unique, and is the one `request_index_of` names.
pub proof fn lemma_request_index_of(p: Seq<PendingRequest>, id: u64, i: int)
    requires
        request_index(p, id, i),
    ensures
        has_request(p, id),
        request_index_of(p, id) == i,
{
    assert(p[i].id == id);
    let j = request_index_of(p, id);
    assert(request_index(p, id, j));
    if j < i {
        assert(p[j].id != id);
    } else if i < j {
        assert(p[i].id != id);
    }
}

/// The view of an optional peer id.
pub open spec fn option_view(p: Option<PeerId>) -> Option<Seq<u8>> {
    match p {
        Some(q) => Some(q@),
        None => None,
    }
}

/// The excluded peers of a request once it failed: those it had, plus, when a peer is
/// blamed, that peer and the peer the request went to.
pub open spec fn excluded_after(excl: Seq<Seq<u8>>, request_peer: Seq<u8>, blamed: Option<Seq<u8>>) -> Set<Seq<u8>> {
    match blamed {
        Some(p) => excl.to_set().insert(request_peer).insert(p),
        None => excl.to_set(),
    }
}

/// What re-requesting the values of request `id`, blaming peer `blamed` if any, does:
/// with no such request, nothing. Otherwise the request is removed, its excluded
/// peers grow as `excluded_after` says, and its range is asked of a peer outside them
/// that serves it; when there is none, `sync_height` falls back towards the start of
/// the range, to the first gap at or above it (and above the tip).
pub open spec fn re_requested(
    s0: SyncState,
    s1: SyncState,
    e0: Seq<Effect>,
    e1: Seq<Effect>,
    id: u64,
    blamed: Option<Seq<u8>>,
) -> bool {
    if has_request(s0.pending_requests@, id) {
        let i = request_index_of(s0.pending_requests@, id);
        let e = s0.pending_requests@[i];
        let rest = s0.pending_requests@.remove(i);
        let excl = excluded_after(excluded_views(e), e.peer@, blamed);
        if no_serving_peer(s0.peers@, e.range, excl) {
            &&& same_except_requests(s0, s1)
            &&& s1.pending_requests@ == rest
            &&& s1.next_request_id == s0.next_request_id
            &&& is_next_uncovered(rest, sync_floor(s0.tip_height as int,
                if s0.sync_height < e.range.start { s0.sync_height as int } else { e.range.start as int }),
                s1.sync_height as int)
            &&& e1 == e0
        } else {
            sent_to_serving_peer(s0, rest, s1, e0, e1, e.range, excl)
        }
    } else {
        s1 == s0 && e1 == e0
    }
}

/// What asking for `range` from any peer that serves it does to a state `s0` whose
/// pending requests are `p0`.
pub open spec fn range_requested(
    s0: SyncState,
    p0: Seq<PendingRequest>,
    s1: SyncState,
    e0: Seq<Effect>,
    e1: Seq<Effect>,
    range: HeightRange,
) -> bool {
    if no_serving_peer(s0.peers@, range, Set::empty()) {
        &&& same_except_requests(s0, s1)
        &&& s1.pending_requests@ == p0
        &&& s1.sync_height == s0.sync_height
        &&& s1.next_request_id == s0.next_request_id
        &&& e1 == e0
    } else {
        sent_to_serving_peer(s0, p0, s1, e0, e1, range, Set::empty())
    }
}

/// Adds `p` to a set of excluded peers.
fn add_excluded(excluded: &mut Vec<PeerId>, p: PeerId)
    ensures
        peer_views(final(excluded)@).to_set() == peer_views(old(excluded)@).to_set().insert(p@),
{
    let ghost old_v = peer_views(excluded@);
    if !contains_peer(excluded, &p) {
        excluded.push(p);
        assert(peer_views(excluded@) =~= old_v.push(p@));
        assert(peer_views(excluded@).to_set() =~= old_v.to_set().insert(p@));
    } else {
        assert(peer_views(excluded@).to_set() =~= old_v.to_set().insert(p@));
    }
}

impl SyncState {
    /// Asks for `range` from a peer picked at random among those that serve it.
    /// Used for the rest of a partially served request, whatever the number of
    /// requests in flight.
    pub fn request_values_range(&mut self, range: HeightRange, effects: &mut Vec<Effect>)
        requires
            old(self).wf(),
            range.end < u64::MAX,
        ensures
            final(self).wf(),
            range_requested(*old(self), old(self).pending_requests@, *final(self), old(effects)@,
                final(effects)@, range),
            effects_extend(old(effects)@, final(effects)@),
            pending_disjoint(old(self).pending_requests@) && (forall|j: int| 0 <= j < old(self).pending_requests@.len()
                ==> #[trigger] ranges_disjoint(old(self).pending_requests@[j].range, range))
                ==> pending_disjoint(final(self).pending_requests@),
    {
        assert(effects@.subrange(0, effects@.len() as int) =~= effects@);
        let no_exclusions: Vec<PeerId> = Vec::new();
        let picked = random_peer_with_except(&mut self.rng, &self.peers, &range, &no_exclusions);
        assert(peer_views(no_exclusions@).to_set() =~= Set::<Seq<u8>>::empty());
        match picked {
            None => {},
            Some((peer, r)) => {
                let ghost s0 = *self;
                let ghost e0 = effects@;
                let ghost pv = peer@;
                proof {
                    if forall|j: int| 0 <= j < s0.pending_requests@.len()
                        ==> #[trigger] ranges_disjoint(s0.pending_requests@[j].range, range) {
                        assert forall|j: int| 0 <= j < s0.pending_requests@.len()
                            implies #[trigger] ranges_disjoint(s0.pending_requests@[j].range, r) by {
                            lemma_disjoint_within(s0.pending_requests@[j].range, range, r);
                        }
                    }
                }
                self.send_and_track_request(peer, r, no_exclusions, effects);
                proof {
                    let i = choose|i: int| 0 <= i < s0.peers@.len()
                        && #[trigger] serves(s0.peers@[i], range)
                        && !peer_views(no_exclusions@).contains(s0.peers@[i].peer_id@)
                        && pv == s0.peers@[i].peer_id@
                        && r.start == range.start
                        && r.end == if range.end <= s0.peers@[i].tip_height { range.end } else {
                            s0.peers@[i].tip_height
                        };
                    assert(r == narrowed(range, s0.peers@[i].tip_height));
                    assert(request_outcome(s0, s0.pending_requests@, *self, e0, effects@,
                        s0.peers@[i].peer_id@, narrowed(range, s0.peers@[i].tip_height), Set::empty()));
                }
            },
        }
    }

    /// Removes request `request_id` and asks for its range again from a peer picked at
    /// random among those that serve it and are not excluded. With `Some(peer)`, the
    /// request's peer and `peer` join its excluded peers; with `None` (a local error)
    /// nobody is blamed. When every such peer is excluded, no request is sent and
    /// `sync_height` falls back to the start of the range, so that a later event
    /// starts over.
    pub fn re_request_values_from_peer_except(
        &mut self,
        request_id: u64,
        except_peer_id: Option<PeerId>,
        effects: &mut Vec<Effect>,
    )
        requires
            old(self).wf(),
        ensures
            final(self).wf(),
            re_requested(*old(self), *final(self), old(effects)@, final(effects)@, request_id,
                option_view(except_peer_id)),
            effects_extend(old(effects)@, final(effects)@),
            pending_disjoint(old(self).pending_requests@) ==> pending_disjoint(final(self).pending_requests@),
    {
        assert(effects@.subrange(0, effects@.len() as int) =~= effects@);
        let i = match self.find_request(request_id) {
            None => {
                assert(!has_request(self.pending_requests@, request_id));
                return;
            },
            Some(i) => i,
        };
        proof {
            lemma_request_index_of(self.pending_requests@, request_id, i as int);
        }
        let ghost s0 = *self;
        let entry = self.take_request(i);
        let ghost rest = self.pending_requests@;
        let PendingRequest { id: _, range, peer: entry_peer, excluded_peers } = entry;
        let ghost blamed = option_view(except_peer_id);
        let ghost excl = excluded_after(peer_views(excluded_peers@), entry_peer@, blamed);
        let mut excluded = excluded_peers;
        match except_peer_id {
            Some(p) => {
                if !entry_peer.same(&p) {
                    add_excluded(&mut excluded, entry_peer);
                }
                add_excluded(&mut excluded, p);
            },
            None => {},
        }
        assert(peer_views(excluded@).to_set() =~= excl);
        let picked = random_peer_with_except(&mut self.rng, &self.peers, &range, &excluded);
        match picked {
            None => {
                assert(no_serving_peer(s0.peers@, range, excl)) by {
                    if !no_serving_peer(s0.peers@, range, excl) {
                        let j = choose|j: int| 0 <= j < s0.peers@.len() && #[trigger] serves(s0.peers@[j], range)
                            && !excl.contains(s0.peers@[j].peer_id@);
                        assert(!peer_views(excluded@).contains(s0.peers@[j].peer_id@));
                    }
                }
                let candidate = if self.sync_height < range.start { self.sync_height } else { range.start };
                self.set_sync_height(candidate);
            },
            Some((peer, r)) => {
                let ghost s1 = *self;
                let ghost e0 = effects@;
                let ghost pv = peer@;
                let ghost ev = peer_views(excluded@);
                proof {
                    if pending_disjoint(s0.pending_requests@) {
                        // The range of the removed request overlaps none of the others,
                        // and the new request lies within it.
                        assert forall|j: int| 0 <= j < rest.len()
                            implies #[trigger] ranges_disjoint(rest[j].range, r) by {
                            let j2 = if j < i { j } else { j + 1 };
                            assert(rest[j] == s0.pending_requests@[j2]);
                            lemma_disjoint_pair(s0.pending_requests@, j2, i as int);
                            lemma_disjoint_within(rest[j].range, range, r);
                        }
                    }
                }
                self.send_and_track_request(peer, r, excluded, effects);
                proof {
                    let j = choose|j: int| 0 <= j < s1.peers@.len()
                        && #[trigger] serves(s1.peers@[j], range)
                        && !ev.contains(s1.peers@[j].peer_id@)
                        && pv == s1.peers@[j].peer_id@
                        && r.start == range.start
                        && r.end == if range.end <= s1.peers@[j].tip_height { range.end } else {
                            s1.peers@[j].tip_height
                        };
                    assert(r == narrowed(range, s1.peers@[j].tip_height));
                    assert(!excl.contains(s0.peers@[j].peer_id@));
                    assert(!no_serving_peer(s0.peers@, range, excl));
                    assert(request_outcome(s0, rest, *self, e0, effects@,
                        s0.peers@[j].peer_id@, narrowed(range, s0.peers@[j].tip_height), excl));
                }
            },
        }
    }
}

/// Whether a response to a request for `requested` is acceptable: it holds at least
/// one value, starts at the requested start, goes no further than the requested end,
/// and its values sit at consecutive heights from its start.
pub open spec fn response_valid(requested: HeightRange, resp: ValueResponse) -> bool {
    let n = resp.values@.len();
    &&& n > 0
    &&& resp.start_height == requested.start
    &&& resp.start_height + n - 1 <= requested.end
    &&& heights_contiguous(resp.start_height as int, resp.values@)
}

/// Request `e` with its range cut to end at `end`.
pub open spec fn with_end(e: PendingRequest, end: u64) -> PendingRequest {
    PendingRequest {
        id: e.id,
        range: HeightRange { start: e.range.start, end },
        peer: e.peer,
        excluded_peers: e.excluded_peers,
    }
}

/// What handling a valid response `resp` from `peer` to request `id` does: the
/// response goes to consensus first. Then, if the request is still pending and was
/// sent to `peer`: a response holding fewer values than requested has the request cut
/// to what it holds (when it holds any) and the rest asked of any peer that serves
/// it. A request sent to another peer is re-requested, blaming `peer`.
pub open spec fn valid_response_handled(
    s0: SyncState,
    s1: SyncState,
    e0: Seq<Effect>,
    e1: Seq<Effect>,
    id: u64,
    peer: Seq<u8>,
    resp: ValueResponse,
) -> bool {
    let e_mid = e1.subrange(0, e0.len() as int + 1);
    &&& e1.len() >= e0.len() + 1
    &&& e1.subrange(0, e0.len() as int) == e0
    &&& (e1[e0.len() as int] matches Effect::ProcessValueResponse(p, i, r)
        && p@ == peer && i == id && r == resp)
    &&& if !has_request(s0.pending_requests@, id) {
        s1 == s0 && e1 == e_mid
    } else {
        let i = request_index_of(s0.pending_requests@, id);
        let e = s0.pending_requests@[i];
        let n = resp.values@.len();
        if e.peer@ != peer {
            re_requested(s0, s1, e_mid, e1, id, Some(peer))
        } else if n >= e.range.end - e.range.start + 1 {
            s1 == s0 && e1 == e_mid
        } else if n == 0 {
            range_requested(s0, s0.pending_requests@, s1, e_mid, e1, e.range)
        } else {
            range_requested(s0,
                s0.pending_requests@.update(i, with_end(e, (e.range.start + n - 1) as u64)),
                s1, e_mid, e1, (HeightRange { start: (e.range.start + n) as u64, end: e.range.end }))
        }
    }
}

/// The effect of `on_value_response`.
pub open spec fn value_response_post(
    s0: SyncState,
    s1: SyncState,
    e0: Seq<Effect>,
    e1: Seq<Effect>,
    request_id: u64,
    peer: Seq<u8>,
    response: ValueResponse,
) -> bool {
    if has_request(s0.pending_requests@, request_id) {
        let e = s0.pending_requests@[request_index_of(s0.pending_requests@, request_id)];
        if e.peer@ != peer || !response_valid(e.range, response) {
            &&& score_pushed(e0, e1, peer, PeerOutcome::Failure)
            &&& re_requested(s0, s1, through_next(e0, e1), e1, request_id, Some(peer))
        } else {
            &&& score_pushed(e0, e1, peer, PeerOutcome::Success(response.start_height))
            &&& valid_response_handled(s0, s1, through_next(e0, e1), e1, request_id, peer, response)
        }
    } else {
        s1 == s0 && e1 == e0
    }
}

/// The index of the first pending request that covers `h`.
pub open spec fn first_covering_index(p: Seq<PendingRequest>, h: int) -> int {
    choose|i: int| first_covering(p, h, i)
}

/// The first request covering a height is unique, and is the one
/// `first_covering_index` names.
pub proof fn lemma_first_covering_index(p: Seq<PendingRequest>, h: int, i: int)
    requires
        first_covering(p, h, i),
    ensures
        covered(p, h),
        first_covering_index(p, h) == i,
{
    assert(in_range(p[i].range, h));
    let j = first_covering_index(p, h);
    assert(first_covering(p, h, j));
    if j < i {
        assert(!in_range(p[j].range, h));
    } else if i < j {
        assert(!in_range(p[i].range, h));
    }
}

/// What re-requesting the values of the first request covering `height` does, or
/// nothing when none covers it.
pub open spec fn re_requested_at(
    s0: SyncState,
    s1: SyncState,
    e0: Seq<Effect>,
    e1: Seq<Effect>,
    height: u64,
    blamed: Option<Seq<u8>>,
) -> bool {
    if covered(s0.pending_requests@, height as int) {
        re_requested(s0, s1, e0, e1,
            s0.pending_requests@[first_covering_index(s0.pending_requests@, height as int)].id, blamed)
    } else {
        s1 == s0 && e1 == e0
    }
}

/// The effect of `on_request_not_sent`.
pub open spec fn request_not_sent_post(s0: SyncState, s1: SyncState, request_id: u64) -> bool {
    if has_request(s0.pending_requests@, request_id) {
        let i = request_index_of(s0.pending_requests@, request_id);
        let e = s0.pending_requests@[i];
        &&& same_except_requests(s0, s1)
        &&& s1.pending_requests@ == s0.pending_requests@.remove(i)
        &&& s1.next_request_id == s0.next_request_id
        &&& is_next_uncovered(s1.pending_requests@, sync_floor(s0.tip_height as int,
            if s0.sync_height < e.range.start { s0.sync_height as int } else { e.range.start as int }),
            s1.sync_height as int)
    } else {
        s1 == s0
    }
}

impl SyncState {
    /// Cuts the range of the request at index `i` so that it ends at `end`.
    pub fn shrink_request(&mut self, i: usize, end: u64)
        requires
            old(self).wf(),
            i < old(self).pending_requests@.len(),
            old(self).pending_requests@[i as int].range.start <= end,
            end <= old(self).pending_requests@[i as int].range.end,
        ensures
            final(self).wf(),
            final(self).pending_requests@
                == old(self).pending_requests@.update(i as int, with_end(old(self).pending_requests@[i as int], end)),
            same_except_requests(*old(self), *final(self)),
            final(self).sync_height == old(self).sync_height,
            final(self).next_request_id == old(self).next_request_id,
            final(self).rng == old(self).rng,
            pending_disjoint(old(self).pending_requests@) ==> pending_disjoint(final(self).pending_requests@),
    {
        proof {
            if pending_disjoint(old(self).pending_requests@) {
                lemma_disjoint_shrink(old(self).pending_requests@, i as int,
                    with_end(old(self).pending_requests@[i as int], end));
            }
        }
        let ghost old_p = self.pending_requests@;
        let e = self.take_request(i);
        let PendingRequest { id, range, peer, excluded_peers } = e;
        let shrunk = PendingRequest {
            id,
            range: HeightRange { start: range.start, end },
            peer,
            excluded_peers,
        };
        assert(shrunk == with_end(old_p[i as int], end));
        self.pending_requests.insert(i, shrunk);
        assert(self.pending_requests@ =~= old_p.update(i as int, shrunk));
        proof {
            if covered(self.pending_requests@, self.sync_height as int) {
                let k = choose|k: int| 0 <= k < self.pending_requests@.len()
                    && #[trigger] in_range(self.pending_requests@[k].range, self.sync_height as int);
                assert(in_range(old_p[k].range, self.sync_height as int));
            }
            assert forall|k: int| 0 <= k < self.pending_requests@.len() implies {
                let e = #[trigger] self.pending_requests@[k];
                &&& e.range.start <= e.range.end
                &&& e.range.end < u64::MAX
                &&& e.id < self.next_request_id
            } by {
                assert(k != i ==> self.pending_requests@[k] == old_p[k]);
            }
        }
    }

}

/// Records that consensus decided `height`: the tip moves there, the requests it
/// makes redundant are dropped and `sync_height` moves above the tip and past the
/// pending requests.
pub fn on_decided(state: &mut SyncState, height: u64)
    requires
        old(state).requests_wf(),
        height < u64::MAX,
    ensures
        final(state).wf(),
        decided_post(*old(state), *final(state), height),
        pending_disjoint(old(state).pending_requests@) ==> pending_disjoint(final(state).pending_requests@),
{
    state.tip_height = height;
    state.prune_pending_requests();
    let candidate = state.sync_height;
    state.set_sync_height(candidate);
}

/// Records that consensus started `height`. The tip becomes the height before it;
/// on a restart every pending request is dropped and syncing resumes at `height`,
/// otherwise the requests made redundant are dropped and `sync_height` moves up to
/// `height` if it was below. Then new requests are sent where possible.
pub fn on_started_height(state: &mut SyncState, height: u64, start_type: HeightStartType, effects: &mut Vec<Effect>)
    requires
        old(state).wf(),
    ensures
        final(state).wf(),
        started_post(*old(state), *final(state), old(effects)@, final(effects)@, height, start_type),
        pending_disjoint(old(state).pending_requests@) ==> pending_disjoint(final(state).pending_requests@),
{
    state.started = true;
    state.consensus_height = height;
    state.tip_height = if height == 0 { 0 } else { height - 1 };
    state.prune_pending_requests();
    if start_type.is_restart() {
        state.pending_requests.clear();
        assert(pending_disjoint(state.pending_requests@));
        state.set_sync_height(height);
    } else {
        let candidate = if state.sync_height < height { height } else { state.sync_height };
        state.set_sync_height(candidate);
    }
    let ghost mid = *state;
    state.request_values(effects);
    proof {
        lemma_gap_extends(mid.pending_requests@, state.pending_requests@,
            sync_floor(tip_before(height) as int,
                sync_candidate_on_start(old(state).sync_height, height, start_type is Restart)),
            mid.sync_height as int, state.sync_height as int);
    }
}

/// Records a peer's status. Once consensus has started, a peer at or above
/// `sync_height` means we are behind, and new requests are sent where possible.
pub fn on_status(state: &mut SyncState, status: PeerStatus, effects: &mut Vec<Effect>)
    requires
        old(state).wf(),
    ensures
        final(state).wf(),
        status_post(*old(state), *final(state), old(effects)@, final(effects)@, status),
        pending_disjoint(old(state).pending_requests@) ==> pending_disjoint(final(state).pending_requests@),
{
    let peer_height = status.tip_height;
    state.update_status(status);
    if !state.started {
        return;
    }
    if peer_height >= state.sync_height {
        state.request_values(effects);
    }
}

/// One effect pushed on `e0` gives `e_mid`, which `e1` extends: `e1` holds `e0`
/// and then that effect, and `e_mid` is `e1` through it.
pub proof fn lemma_pushed_then_extended(e0: Seq<Effect>, e_mid: Seq<Effect>, e1: Seq<Effect>)
    requires
        e_mid.len() == e0.len() + 1,
        e_mid.subrange(0, e0.len() as int) == e0,
        effects_extend(e_mid, e1),
    ensures
        e1.len() > e0.len(),
        e1.subrange(0, e0.len() as int) == e0,
        e1[e0.len() as int] == e_mid[e0.len() as int],
        e1.subrange(0, e0.len() as int + 1) == e_mid,
{
    lemma_effects_prefix(e0, e_mid, e1);
}

/// Effects recorded in `e0`, then `e_mid`, then `e1`: the prefix relations compose.
pub proof fn lemma_effects_prefix(e0: Seq<Effect>, e_mid: Seq<Effect>, e1: Seq<Effect>)
    requires
        e_mid.len() == e0.len() + 1,
        e_mid.subrange(0, e0.len() as int) == e0,
        e_mid.len() <= e1.len(),
        e1.subrange(0, e_mid.len() as int) == e_mid,
    ensures
        e1.subrange(0, e0.len() as int) == e0,
        e1[e0.len() as int] == e_mid[e0.len() as int],
{
    assert(e1.subrange(0, e0.len() as int) =~= e_mid.subrange(0, e0.len() as int));
    assert(e1[e0.len() as int] == e1.subrange(0, e_mid.len() as int)[e0.len() as int]);
}

/// Handles a response that passed validation: scores the peer with a success,
/// hands the response to consensus, then, if it holds only part of the requested
/// values, keeps the request for the part it holds and asks for the rest.
pub fn on_valid_value_response(
    state: &mut SyncState,
    request_id: u64,
    peer_id: PeerId,
    response: ValueResponse,
    effects: &mut Vec<Effect>,
)
    requires
        old(state).wf(),
    ensures
        final(state).wf(),
        score_pushed(old(effects)@, final(effects)@, peer_id@, PeerOutcome::Success(response.start_height)),
        valid_response_handled(*old(state), *final(state), through_next(old(effects)@, final(effects)@),
            final(effects)@, request_id, peer_id@, response),
        pending_disjoint(old(state).pending_requests@) && response.values@.len() > 0
            ==> pending_disjoint(final(state).pending_requests@),
{
    let ghost e0 = effects@;
    effects.push(Effect::ScorePeer(peer_id.copy(), PeerOutcome::Success(response.start_height)));
    let ghost e_score = effects@;
    assert(e_score.subrange(0, e0.len() as int) =~= e0);
    process_valid_response(state, request_id, peer_id, response, effects);
    proof { lemma_pushed_then_extended(e0, e_score, effects@); }
}

/// Hands a valid response to consensus and keeps or re-requests what it leaves out,
/// as `valid_response_handled` says.
fn process_valid_response(
    state: &mut SyncState,
    request_id: u64,
    peer_id: PeerId,
    response: ValueResponse,
    effects: &mut Vec<Effect>,
)
    requires
        old(state).wf(),
    ensures
        final(state).wf(),
        valid_response_handled(*old(state), *final(state), old(effects)@, final(effects)@,
            request_id, peer_id@, response),
        effects_extend(old(effects)@, final(effects)@),
        pending_disjoint(old(state).pending_requests@) && response.values@.len() > 0
            ==> pending_disjoint(final(state).pending_requests@),
{
    let values_count = response.values.len();
    let ghost e0 = effects@;
    let ghost resp = response;
    effects.push(Effect::ProcessValueResponse(peer_id.copy(), request_id, response));
    let ghost e_mid = effects@;
    assert(e_mid.subrange(0, e0.len() as int) =~= e0);
    let i = match state.find_request(request_id) {
        None => {
            assert(!has_request(state.pending_requests@, request_id));
            assert(effects@.subrange(0, e0.len() as int + 1) =~= e_mid);
            return;
        },
        Some(i) => i,
    };
    proof {
        lemma_request_index_of(state.pending_requests@, request_id, i as int);
    }
    if !state.pending_requests[i].peer.same(&peer_id) {
        state.re_request_values_from_peer_except(request_id, Some(peer_id), effects);
        proof { lemma_effects_prefix(e0, e_mid, effects@); }
        return;
    }
    let range = state.pending_requests[i].range;
    if (values_count as u128) < (range.end - range.start) as u128 + 1 {
        let new_start = range.start + values_count as u64;
        let ghost s0 = *state;
        if values_count > 0 {
            state.shrink_request(i, new_start - 1);
        }
        let ghost s_mid = *state;
        proof {
            if pending_disjoint(s0.pending_requests@) && values_count > 0 {
                // The rest of the range overlaps neither the part kept for the request
                // nor any other request.
                let rest = HeightRange { start: new_start, end: range.end };
                assert forall|j: int| 0 <= j < s_mid.pending_requests@.len()
                    implies #[trigger] ranges_disjoint(s_mid.pending_requests@[j].range, rest) by {
                    if j != i {
                        assert(s_mid.pending_requests@[j] == s0.pending_requests@[j]);
                        lemma_disjoint_pair(s0.pending_requests@, j, i as int);
                        lemma_disjoint_within(s0.pending_requests@[j].range, range, rest);
                    }
                }
            }
        }
        state.request_values_range(HeightRange { start: new_start, end: range.end }, effects);
        proof {
            lemma_effects_prefix(e0, e_mid, effects@);
            assert(s_mid.tip_height == s0.tip_height);
            assert(s_mid.peers == s0.peers);
        }
    } else {
        assert(effects@.subrange(0, e0.len() as int + 1) =~= e_mid);
    }
}

/// Handles a response from `peer_id` to request `request_id`: ignored when no
/// such request is pending; re-requested, blaming the peer, when the request was
/// sent to another peer or the response is not valid (see `response_valid`);
/// otherwise handled as `on_valid_value_response` does.
pub fn on_value_response(
    state: &mut SyncState,
    request_id: u64,
    peer_id: PeerId,
    response: ValueResponse,
    effects: &mut Vec<Effect>,
)
    requires
        old(state).wf(),
    ensures
        final(state).wf(),
        value_response_post(*old(state), *final(state), old(effects)@, final(effects)@, request_id,
            peer_id@, response),
        pending_disjoint(old(state).pending_requests@) ==> pending_disjoint(final(state).pending_requests@),
{
    let start = response.start_height;
    let end = match response.end_height() {
        Some(e) => e,
        None => start,
    };
    let i = match state.find_request(request_id) {
        None => {
            assert(!has_request(state.pending_requests@, request_id));
            return;
        },
        Some(i) => i,
    };
    proof {
        lemma_request_index_of(state.pending_requests@, request_id, i as int);
    }
    if !state.pending_requests[i].peer.same(&peer_id) {
        on_invalid_value_response(state, request_id, peer_id, effects);
        return;
    }
    let requested = state.pending_requests[i].range;
    let range_valid = start == requested.start && start <= end && end <= requested.end
        && response.values.len() as u128 == (end - start) as u128 + 1;
    if !range_valid {
        proof {
            if response_valid(requested, response) {
                assert(response.values@[response.values@.len() - 1].height
                    == start + response.values@.len() - 1);
            }
        }
        on_invalid_value_response(state, request_id, peer_id, effects);
        return;
    }
    if !validate_value_response_heights(&response) {
        on_invalid_value_response(state, request_id, peer_id, effects);
        return;
    }
    on_valid_value_response(state, request_id, peer_id, response, effects);
}

/// Handles an empty, undecodable or otherwise invalid response: `peer_id` is
/// scored with a failure and the request is re-requested from another peer,
/// blaming it.
pub fn on_invalid_value_response(state: &mut SyncState, request_id: u64, peer_id: PeerId, effects: &mut Vec<Effect>)
    requires
        old(state).wf(),
    ensures
        final(state).wf(),
        score_pushed(old(effects)@, final(effects)@, peer_id@, PeerOutcome::Failure),
        re_requested(*old(state), *final(state), through_next(old(effects)@, final(effects)@),
            final(effects)@, request_id, Some(peer_id@)),
        pending_disjoint(old(state).pending_requests@) ==> pending_disjoint(final(state).pending_requests@),
{
    let ghost e0 = effects@;
    effects.push(Effect::ScorePeer(peer_id.copy(), PeerOutcome::Failure));
    let ghost e_score = effects@;
    assert(e_score.subrange(0, e0.len() as int) =~= e0);
    state.re_request_values_from_peer_except(request_id, Some(peer_id), effects);
    proof { lemma_pushed_then_extended(e0, e_score, effects@); }
}

/// Handles a request that timed out: `peer_id` is scored with a timeout and the
/// request is re-requested from another peer, blaming it.
pub fn on_sync_request_timed_out(state: &mut SyncState, request_id: u64, peer_id: PeerId, effects: &mut Vec<Effect>)
    requires
        old(state).wf(),
    ensures
        final(state).wf(),
        score_pushed(old(effects)@, final(effects)@, peer_id@, PeerOutcome::Timeout),
        re_requested(*old(state), *final(state), through_next(old(effects)@, final(effects)@),
            final(effects)@, request_id, Some(peer_id@)),
        pending_disjoint(old(state).pending_requests@) ==> pending_disjoint(final(state).pending_requests@),
{
    let ghost e0 = effects@;
    effects.push(Effect::ScorePeer(peer_id.copy(), PeerOutcome::Timeout));
    let ghost e_score = effects@;
    assert(e_score.subrange(0, e0.len() as int) =~= e0);
    state.re_request_values_from_peer_except(request_id, Some(peer_id), effects);
    proof { lemma_pushed_then_extended(e0, e_score, effects@); }
}

/// Handles an invalid value at `height` from `peer_id`: the peer is scored with a
/// failure and the request covering the height is re-requested, blaming the peer.
pub fn on_invalid_value(state: &mut SyncState, peer_id: PeerId, height: u64, effects: &mut Vec<Effect>)
    requires
        old(state).wf(),
    ensures
        final(state).wf(),
        score_pushed(old(effects)@, final(effects)@, peer_id@, PeerOutcome::Failure),
        re_requested_at(*old(state), *final(state), through_next(old(effects)@, final(effects)@),
            final(effects)@, height, Some(peer_id@)),
        pending_disjoint(old(state).pending_requests@) ==> pending_disjoint(final(state).pending_requests@),
{
    let ghost e0 = effects@;
    effects.push(Effect::ScorePeer(peer_id.copy(), PeerOutcome::Failure));
    let ghost e_score = effects@;
    assert(e_score.subrange(0, e0.len() as int) =~= e0);
    assert(effects@.subrange(0, effects@.len() as int) =~= effects@);
    match state.get_request_id_by(height) {
        Some((request_id, _)) => {
            proof {
                let i = choose|i: int| #[trigger] first_covering(state.pending_requests@, height as int, i)
                    && state.pending_requests@[i].id == request_id;
                lemma_first_covering_index(state.pending_requests@, height as int, i);
            }
            state.re_request_values_from_peer_except(request_id, Some(peer_id), effects);
        },
        None => {},
    }
    proof { lemma_pushed_then_extended(e0, e_score, effects@); }
}

/// Handles a local error while processing the value at `height`: the request
/// covering the height is re-requested, blaming nobody.
pub fn on_value_processing_error(state: &mut SyncState, height: u64, effects: &mut Vec<Effect>)
    requires
        old(state).wf(),
    ensures
        final(state).wf(),
        re_requested_at(*old(state), *final(state), old(effects)@, final(effects)@, height, None),
        pending_disjoint(old(state).pending_requests@) ==> pending_disjoint(final(state).pending_requests@),
{
    match state.get_request_id_by(height) {
        Some((request_id, _)) => {
            proof {
                let i = choose|i: int| #[trigger] first_covering(state.pending_requests@, height as int, i)
                    && state.pending_requests@[i].id == request_id;
                lemma_first_covering_index(state.pending_requests@, height as int, i);
            }
            state.re_request_values_from_peer_except(request_id, None, effects);
        },
        None => {},
    }
}

/// Handles a request that could not be sent: it is dropped, and `sync_height`
/// falls back towards the start of its range.
pub fn on_request_not_sent(state: &mut SyncState, request_id: u64)
    requires
        old(state).wf(),
    ensures
        final(state).wf(),
        request_not_sent_post(*old(state), *final(state), request_id),
        pending_disjoint(old(state).pending_requests@) ==> pending_disjoint(final(state).pending_requests@),
{
    let i = match state.find_request(request_id) {
        None => {
            assert(!has_request(state.pending_requests@, request_id));
            return;
        },
        Some(i) => i,
    };
    proof {
        lemma_request_index_of(state.pending_requests@, request_id, i as int);
    }
    let entry = state.take_request(i);
    let candidate = if state.sync_height < entry.range.start { state.sync_height } else { entry.range.start };
    state.set_sync_height(candidate);
}

/// An input to the value sync handler.
#[derive(Debug)]
pub enum Input {
    /// Time to announce our status.
    SendStatusUpdate,
    /// A peer announced its status.
    Status(PeerStatus),
    /// Consensus started a height, for the first time or again.
    StartedHeight(u64, HeightStartType),
    /// Consensus decided a height.
    Decided(u64),
    /// A peer asked us, under an inbound request id, for the values of a range.
    ValueRequest(u64, PeerId, HeightRange),
    /// A peer answered our request with this id; `None` when the answer was empty or
    /// could not be decoded.
    ValueResponse(u64, PeerId, Option<ValueResponse>),
    /// The application returned the decided values for an inbound request.
    GotDecidedValues(u64, HeightRange, Vec<RawDecidedValue>),
    /// Our request with this id, for this range, to this peer timed out.
    SyncRequestTimedOut(u64, PeerId, HeightRange),
    /// A peer sent an invalid value at this height.
    InvalidValue(PeerId, u64),
    /// Processing the value a peer sent at this height failed locally.
    ValueProcessingError(PeerId, u64),
    /// Our request with this id could not be sent.
    RequestNotSent(u64),
}

/// Whether an input can be handled: a decided height must have a height after it,
/// for `sync_height` to move to.
pub open spec fn input_in_bounds(input: Input) -> bool {
    match input {
        Input::Decided(h) => h < u64::MAX,
        _ => true,
    }
}

/// What handling `input` does to state `s0` and effects `e0`.
pub open spec fn handled(s0: SyncState, s1: SyncState, e0: Seq<Effect>, e1: Seq<Effect>, input: Input) -> bool {
    match input {
        Input::SendStatusUpdate => s1 == s0 && e1 == e0.push(Effect::BroadcastStatus(s0.tip_height)),
        Input::Status(status) => status_post(s0, s1, e0, e1, status),
        Input::StartedHeight(h, t) => started_post(s0, s1, e0, e1, h, t),
        Input::Decided(h) => decided_post(s0, s1, h) && e1 == e0,
        Input::ValueRequest(id, _, range) => s1 == s0 && value_request_post(s0, e0, e1, id, range),
        Input::ValueResponse(id, peer, Some(response)) =>
            value_response_post(s0, s1, e0, e1, id, peer@, response),
        Input::ValueResponse(id, peer, None) => score_pushed(e0, e1, peer@, PeerOutcome::Failure)
            && re_requested(s0, s1, through_next(e0, e1), e1, id, Some(peer@)),
        Input::GotDecidedValues(id, range, values) =>
            s1 == s0 && got_decided_values_post(e0, e1, id, range, values@),
        Input::SyncRequestTimedOut(id, peer, _) => score_pushed(e0, e1, peer@, PeerOutcome::Timeout)
            && re_requested(s0, s1, through_next(e0, e1), e1, id, Some(peer@)),
        Input::InvalidValue(peer, h) => score_pushed(e0, e1, peer@, PeerOutcome::Failure)
            && re_requested_at(s0, s1, through_next(e0, e1), e1, h, Some(peer@)),
        Input::ValueProcessingError(_, h) => re_requested_at(s0, s1, e0, e1, h, None),
        Input::RequestNotSent(id) => request_not_sent_post(s0, s1, id) && e1 == e0,
    }
}

/// Handles one input, appending to `effects` what the environment must do. A
/// decided height is taken even where `sync_height` fell to or below the tip.
pub fn handle(state: &mut SyncState, input: Input, effects: &mut Vec<Effect>)
    requires
        old(state).requests_wf(),
        !(input is Decided) ==> old(state).wf(),
        input_in_bounds(input),
    ensures
        final(state).wf(),
        handled(*old(state), *final(state), old(effects)@, final(effects)@, input),
        pending_disjoint(old(state).pending_requests@) ==> pending_disjoint(final(state).pending_requests@),
{
    match input {
        Input::SendStatusUpdate => on_send_status_update(state, effects),
        Input::Status(status) => on_status(state, status, effects),
        Input::StartedHeight(height, start_type) => on_started_height(state, height, start_type, effects),
        Input::Decided(height) => on_decided(state, height),
        Input::ValueRequest(request_id, _, range) => on_value_request(state, request_id, range, effects),
        Input::ValueResponse(request_id, peer_id, Some(response)) =>
            on_value_response(state, request_id, peer_id, response, effects),
        Input::ValueResponse(request_id, peer_id, None) =>
            on_invalid_value_response(state, request_id, peer_id, effects),
        Input::GotDecidedValues(request_id, range, values) =>
            on_got_decided_values(request_id, range, values, effects),
        Input::SyncRequestTimedOut(request_id, peer_id, _) =>
            on_sync_request_timed_out(state, request_id, peer_id, effects),
        Input::InvalidValue(peer_id, height) => on_invalid_value(state, peer_id, height, effects),
        Input::ValueProcessingError(_, height) => on_value_processing_error(state, height, effects),
        Input::RequestNotSent(request_id) => on_request_not_sent(state, request_id),
    }
}
} // verus!
