//! Height ranges, pending requests and the range arithmetic of value sync.

use vstd::prelude::*;
use crate::peer::{PeerId, peer_views};

verus! {

/// An inclusive range of heights `start..=end`; empty when `start > end`.
#[derive(Copy, Clone, Debug, PartialEq, Eq)]
pub struct HeightRange {
    pub start: u64,
    pub end: u64,
}

impl HeightRange {
    /// The range `start..=end`.
    pub fn new(start: u64, end: u64) -> (out: HeightRange)
        ensures
            out.start == start,
            out.end == end,
    {
        HeightRange { start, end }
    }

    /// Whether the range holds no height.
    pub fn is_empty(&self) -> (out: bool)
        ensures
            out == (self.start > self.end),
    {
        self.start > self.end
    }

    /// Whether `h` lies in the range.
    pub fn contains(&self, h: u64) -> (out: bool)
        ensures
            out == in_range(*self, h as int),
    {
        self.start <= h && h <= self.end
    }
}

/// Whether height `h` lies in `r`.
pub open spec fn in_range(r: HeightRange, h: int) -> bool {
    r.start <= h && h <= r.end
}

/// An outstanding request for values sent to a peer.
#[derive(Debug)]
pub struct PendingRequest {
    /// The id under which the request was sent.
    pub id: u64,
    /// The heights requested.
    pub range: HeightRange,
    /// The peer the request was sent to.
    pub peer: PeerId,
    /// Peers that already failed to serve this range.
    pub excluded_peers: Vec<PeerId>,
}

/// Whether some pending request covers height `h`.
pub open spec fn covered(pending: Seq<PendingRequest>, h: int) -> bool {
    exists|i: int| 0 <= i < pending.len() && #[trigger] in_range(pending[i].range, h)
}

/// Whether `h` is the least height at or above `from` that no pending request covers.
pub open spec fn is_next_uncovered(pending: Seq<PendingRequest>, from: int, h: int) -> bool {
    &&& from <= h
    &&& !covered(pending, h)
    &&& forall|k: int| from <= k < h ==> covered(pending, k)
}

/// Every pending request ends below `u64::MAX`, so the height after it exists.
pub open spec fn ends_below_max(pending: Seq<PendingRequest>) -> bool {
    forall|i: int| 0 <= i < pending.len() ==> #[trigger] pending[i].range.end < u64::MAX
}

/// The least uncovered height at or above a height is unique.
pub proof fn lemma_next_uncovered_unique(pending: Seq<PendingRequest>, from: int, a: int, b: int)
    requires
        is_next_uncovered(pending, from, a),
        is_next_uncovered(pending, from, b),
    ensures
        a == b,
{
    if a < b {
        assert(covered(pending, a));
    } else if b < a {
        assert(covered(pending, b));
    }
}

/// Whether `i` is the index of the first pending request that covers `h`.
pub open spec fn first_covering(pending: Seq<PendingRequest>, h: int, i: int) -> bool {
    &&& 0 <= i < pending.len()
    &&& in_range(pending[i].range, h)
    &&& forall|j: int| 0 <= j < i ==> !in_range(#[trigger] pending[j].range, h)
}

/// The index of the first pending request that covers `h`, if any.
pub fn find_covering(pending: &Vec<PendingRequest>, h: u64) -> (out: Option<usize>)
    ensures
        match out {
            Some(i) => first_covering(pending@, h as int, i as int),
            None => !covered(pending@, h as int),
        },
{
    let mut i: usize = 0;
    while i < pending.len()
        invariant
            0 <= i <= pending@.len(),
            forall|j: int| 0 <= j < i ==> !in_range(#[trigger] pending@[j].range, h as int),
        decreases pending@.len() - i,
    {
        if pending[i].range.contains(h) {
            return Some(i);
        }
        i += 1;
    }
    None
}

/// Finds the next height, starting from `starting_height`, that no pending request covers.
///
/// The result is either `starting_height` itself or the height just after the end
/// of some pending request.
pub fn find_next_uncovered_height(starting_height: u64, pending: &Vec<PendingRequest>) -> (out: u64)
    requires
        ends_below_max(pending@),
    ensures
        is_next_uncovered(pending@, starting_height as int, out as int),
        out == starting_height || exists|i: int|
            0 <= i < pending@.len() && out == #[trigger] pending@[i].range.end + 1,
{
    let mut next: u64 = starting_height;
    loop
        invariant
            ends_below_max(pending@),
            starting_height <= next,
            forall|k: int| starting_height <= k < next ==> covered(pending@, k),
            next == starting_height || exists|i: int|
                0 <= i < pending@.len() && next == #[trigger] pending@[i].range.end + 1,
        decreases u64::MAX - next,
    {
        match find_covering(pending, next) {
            None => {
                return next;
            },
            Some(i) => {
                let old_next = next;
                assert(pending@[i as int].range.end < u64::MAX);
                next = pending[i].range.end + 1;
                assert forall|k: int| starting_height <= k < next implies covered(pending@, k) by {
                    if k >= old_next {
                        assert(in_range(pending@[i as int].range, k));
                    }
                }
            },
        }
    }
}

/// The range of at most `max_size` heights that the next request should cover,
/// given that it starts at `start`: it stops before the next pending request.
pub open spec fn is_next_request_range(
    pending: Seq<PendingRequest>,
    start: int,
    max_size: int,
    r: HeightRange,
) -> bool {
    let batch = if max_size < 1 { 1 } else { max_size };
    &&& r.start == start
    &&& r.start <= r.end
    &&& r.end <= r.start + batch - 1
    &&& forall|i: int| 0 <= i < pending.len() && pending[i].range.end >= start
        ==> r.end < #[trigger] pending[i].range.start
    &&& (r.end == r.start + batch - 1 || exists|i: int|
        0 <= i < pending.len() && pending[i].range.end >= start
            && r.end == #[trigger] pending[i].range.start - 1)
}

/// Finds the next uncovered range starting from `initial_height`, holding at most
/// `max_range_size` heights (a size of zero counts as one).
///
/// If `initial_height` is covered by a pending request, the range starts at the next
/// uncovered height instead.
pub fn find_next_uncovered_range_from(
    initial_height: u64,
    max_range_size: u64,
    pending: &Vec<PendingRequest>,
) -> (out: HeightRange)
    requires
        ends_below_max(pending@),
        forall|s: int| #[trigger] is_next_uncovered(pending@, initial_height as int, s)
            ==> s + (if max_range_size < 1 { 1 } else { max_range_size as int }) - 1 <= u64::MAX,
    ensures
        is_next_uncovered(pending@, initial_height as int, out.start as int),
        is_next_request_range(pending@, out.start as int, max_range_size as int, out),
{
    let max_batch_size: u64 = if max_range_size < 1 { 1 } else { max_range_size };
    let start = find_next_uncovered_height(initial_height, pending);
    assert(is_next_uncovered(pending@, initial_height as int, start as int));
    let mut end_height: u64 = start + (max_batch_size - 1);
    let ghost mut blocker: int = -1;
    let mut i: usize = 0;
    while i < pending.len()
        invariant
            0 <= i <= pending@.len(),
            is_next_uncovered(pending@, initial_height as int, start as int),
            start <= end_height <= start + max_batch_size - 1,
            forall|j: int| 0 <= j < i && pending@[j].range.end >= start
                ==> end_height < #[trigger] pending@[j].range.start,
            end_height == start + max_batch_size - 1 || (0 <= blocker < pending@.len()
                && pending@[blocker].range.end >= start
                && end_height == pending@[blocker].range.start - 1),
        decreases pending@.len() - i,
    {
        let r = pending[i].range;
        if r.end >= start {
            // `start` is uncovered, so a request reaching it must start above it.
            assert(!in_range(pending@[i as int].range, start as int));
            if r.start - 1 < end_height {
                end_height = r.start - 1;
                proof { blocker = i as int; }
            }
        }
        i += 1;
    }
    HeightRange { start, end: end_height }
}

/// Whether a request for `range` can be served by a node whose tip is `tip_height`
/// and which serves at most `batch_size` values per request.
pub open spec fn request_range_valid(range: HeightRange, tip_height: int, batch_size: int) -> bool {
    let len = range.end - range.start + 1;
    let capped = if len > u64::MAX { u64::MAX as int } else { len };
    &&& range.start <= range.end
    &&& range.start <= tip_height
    &&& capped <= batch_size
}

/// Checks an inbound request for values: the range must be non-empty, start at or
/// below our tip and hold at most `batch_size` heights.
pub fn validate_request_range(range: &HeightRange, tip_height: u64, batch_size: usize) -> (out: bool)
    ensures
        out == request_range_valid(*range, tip_height as int, batch_size as int),
{
    if range.is_empty() {
        return false;
    }
    if range.start > tip_height {
        return false;
    }
    let len: u64 = (range.end - range.start).saturating_add(1);
    if len as u128 > batch_size as u128 {
        return false;
    }
    true
}

/// Clamps a valid request range so that it does not go beyond our tip.
pub fn clamp_request_range(range: &HeightRange, tip_height: u64) -> (out: HeightRange)
    requires
        range.start <= range.end,
        range.start <= tip_height,
    ensures
        out.start == range.start,
        out.end == if range.end <= tip_height { range.end } else { tip_height },
{
    let end = if range.end <= tip_height { range.end } else { tip_height };
    HeightRange { start: range.start, end }
}

/// A decided value as stored by the application, with the height of its certificate.
#[derive(Debug)]
pub struct RawDecidedValue {
    /// The height at which the value was decided.
    pub height: u64,
    /// The encoded value.
    pub value_bytes: Vec<u8>,
    /// The encoded commit certificate.
    pub certificate: Vec<u8>,
}

impl RawDecidedValue {
    /// A decided value at `height`.
    pub fn new(height: u64, value_bytes: Vec<u8>, certificate: Vec<u8>) -> (out: RawDecidedValue)
        ensures
            out.height == height,
            out.value_bytes == value_bytes,
            out.certificate == certificate,
    {
        RawDecidedValue { height, value_bytes, certificate }
    }
}

/// A batch of decided values starting at `start_height`.
#[derive(Debug)]
pub struct ValueResponse {
    pub start_height: u64,
    pub values: Vec<RawDecidedValue>,
}

impl ValueResponse {
    /// A response holding `values`, the first of which is meant to be at `start_height`.
    pub fn new(start_height: u64, values: Vec<RawDecidedValue>) -> (out: ValueResponse)
        ensures
            out.start_height == start_height,
            out.values == values,
    {
        ValueResponse { start_height, values }
    }

    /// The height of the last value, if any.
    pub fn end_height(&self) -> (out: Option<u64>)
        ensures
            out == if self.values@.len() == 0 { None } else {
                Some(self.values@.last().height)
            },
    {
        if self.values.len() == 0 {
            None
        } else {
            Some(self.values[self.values.len() - 1].height)
        }
    }
}

/// Whether the values of a response are at consecutive heights from its start height.
pub open spec fn heights_contiguous(start: int, values: Seq<RawDecidedValue>) -> bool {
    forall|i: int| 0 <= i < values.len() ==> #[trigger] values[i].height == start + i
}

/// Checks that each value of a response is at the expected height, that is, heights
/// are contiguous from the response's start height.
pub fn validate_value_response_heights(response: &ValueResponse) -> (out: bool)
    ensures
        out == heights_contiguous(response.start_height as int, response.values@),
{
    let mut i: usize = 0;
    while i < response.values.len()
        invariant
            0 <= i <= response.values@.len(),
            heights_contiguous(response.start_height as int, response.values@.subrange(0, i as int)),
        decreases response.values@.len() - i,
    {
        if response.values[i].height as u128 != response.start_height as u128 + i as u128 {
            assert(response.values@.subrange(0, i as int + 1)[i as int] == response.values@[i as int]);
            return false;
        }
        assert forall|j: int| 0 <= j < i + 1 implies
            #[trigger] response.values@.subrange(0, i as int + 1)[j].height
                == response.start_height + j by {
            assert(response.values@.subrange(0, i as int + 1)[j] == response.values@[j]);
            if j < i {
                assert(response.values@.subrange(0, i as int)[j] == response.values@[j]);
            }
        }
        i += 1;
    }
    assert(response.values@.subrange(0, i as int) =~= response.values@);
    true
}

/// The number of leading values that sit at consecutive heights from `start`.
pub open spec fn contiguous_prefix_len(start: int, values: Seq<RawDecidedValue>, n: int) -> bool {
    &&& 0 <= n <= values.len()
    &&& forall|i: int| 0 <= i < n ==> #[trigger] values[i].height == start + i
    &&& (n == values.len() || values[n].height != start + n)
}

/// Counts the leading values of `values` that are at consecutive heights from `start`.
pub fn count_contiguous_prefix(start: u64, values: &Vec<RawDecidedValue>) -> (out: usize)
    ensures
        contiguous_prefix_len(start as int, values@, out as int),
{
    let mut count: usize = 0;
    let mut height: u64 = start;
    while count < values.len()
        invariant
            0 <= count <= values@.len(),
            height == start + count,
            forall|i: int| 0 <= i < count ==> #[trigger] values@[i].height == start + i,
        decreases values@.len() - count,
    {
        if values[count].height != height {
            return count;
        }
        count += 1;
        if height == u64::MAX {
            // No later value can sit at the height after `u64::MAX`.
            if count < values.len() {
                assert(values@[count as int].height != start + count);
            }
            return count;
        }
        height += 1;
    }
    count
}

/// The peers that a pending request excludes.
pub open spec fn excluded_views(r: PendingRequest) -> Seq<Seq<u8>> {
    peer_views(r.excluded_peers@)
}

/// Whether the request at index `k` overlaps none of the requests before it.
pub open spec fn disjoint_before(p: Seq<PendingRequest>, k: int) -> bool {
    forall|j: int| 0 <= j < k ==>
        #[trigger] p[j].range.end < p[k].range.start || p[k].range.end < p[j].range.start
}

/// Whether no two pending requests overlap.
pub open spec fn pending_disjoint(p: Seq<PendingRequest>) -> bool {
    forall|k: int| 0 <= k < p.len() ==> #[trigger] disjoint_before(p, k)
}

/// Whether two ranges have no height in common.
pub open spec fn ranges_disjoint(a: HeightRange, b: HeightRange) -> bool {
    a.end < b.start || b.end < a.start
}

/// Appending a request whose range overlaps none of the pending requests keeps them
/// disjoint.
pub proof fn lemma_disjoint_push(p: Seq<PendingRequest>, e: PendingRequest)
    requires
        pending_disjoint(p),
        forall|j: int| 0 <= j < p.len() ==> #[trigger] ranges_disjoint(p[j].range, e.range),
    ensures
        pending_disjoint(p.push(e)),
{
    let q = p.push(e);
    assert forall|k: int| 0 <= k < q.len() implies #[trigger] disjoint_before(q, k) by {
        if k < p.len() {
            assert(disjoint_before(p, k));
            assert forall|j: int| 0 <= j < k implies
                #[trigger] q[j].range.end < q[k].range.start || q[k].range.end < q[j].range.start by {
                assert(q[j] == p[j] && q[k] == p[k]);
            }
        } else {
            assert forall|j: int| 0 <= j < k implies
                #[trigger] q[j].range.end < q[k].range.start || q[k].range.end < q[j].range.start by {
                assert(q[j] == p[j]);
                assert(ranges_disjoint(p[j].range, e.range));
            }
        }
    }
}

/// Removing a request keeps the others disjoint.
pub proof fn lemma_disjoint_remove(p: Seq<PendingRequest>, i: int)
    requires
        pending_disjoint(p),
        0 <= i < p.len(),
    ensures
        pending_disjoint(p.remove(i)),
{
    let q = p.remove(i);
    assert forall|k: int| 0 <= k < q.len() implies #[trigger] disjoint_before(q, k) by {
        let k2 = if k < i { k } else { k + 1 };
        assert(q[k] == p[k2]);
        assert forall|j: int| 0 <= j < k implies
            #[trigger] q[j].range.end < q[k].range.start || q[k].range.end < q[j].range.start by {
            let j2 = if j < i { j } else { j + 1 };
            assert(q[j] == p[j2]);
            assert(j2 < k2);
            assert(disjoint_before(p, k2));
        }
    }
}

/// Narrowing the range of one request keeps the requests disjoint.
pub proof fn lemma_disjoint_shrink(p: Seq<PendingRequest>, i: int, e: PendingRequest)
    requires
        pending_disjoint(p),
        0 <= i < p.len(),
        p[i].range.start <= e.range.start,
        e.range.end <= p[i].range.end,
    ensures
        pending_disjoint(p.update(i, e)),
{
    let q = p.update(i, e);
    assert forall|k: int| 0 <= k < q.len() implies #[trigger] disjoint_before(q, k) by {
        assert(disjoint_before(p, k));
        assert forall|j: int| 0 <= j < k implies
            #[trigger] q[j].range.end < q[k].range.start || q[k].range.end < q[j].range.start by {
            assert(p[j].range.end < p[k].range.start || p[k].range.end < p[j].range.start);
        }
    }
}

/// Each request of a disjoint list overlaps none of the others.
pub proof fn lemma_disjoint_pair(p: Seq<PendingRequest>, i: int, j: int)
    requires
        pending_disjoint(p),
        0 <= i < p.len(),
        0 <= j < p.len(),
        i != j,
    ensures
        ranges_disjoint(p[i].range, p[j].range),
{
    if i < j {
        assert(disjoint_before(p, j));
        assert(p[i].range.end < p[j].range.start || p[j].range.end < p[i].range.start);
    } else {
        assert(disjoint_before(p, i));
        assert(p[j].range.end < p[i].range.start || p[i].range.end < p[j].range.start);
    }
}

/// Keeping the requests that satisfy `f` keeps them disjoint.
pub proof fn lemma_disjoint_filter(p: Seq<PendingRequest>, f: spec_fn(PendingRequest) -> bool)
    requires
        pending_disjoint(p),
    ensures
        pending_disjoint(p.filter(f)),
    decreases p.len(),
{
    reveal(Seq::filter);
    if p.len() > 0 {
        let q = p.drop_last();
        assert(pending_disjoint(q)) by {
            assert forall|k: int| 0 <= k < q.len() implies #[trigger] disjoint_before(q, k) by {
                assert(disjoint_before(p, k));
                assert forall|j: int| 0 <= j < k implies
                    #[trigger] q[j].range.end < q[k].range.start || q[k].range.end < q[j].range.start by {
                    assert(q[j] == p[j] && q[k] == p[k]);
                }
            }
        }
        lemma_disjoint_filter(q, f);
        if f(p.last()) {
            let fq = q.filter(f);
            assert forall|j: int| 0 <= j < fq.len() implies #[trigger] ranges_disjoint(fq[j].range, p.last().range) by {
                assert(fq.contains(fq[j]));
                q.lemma_filter_contains_rev(f, fq[j]);
                let a = choose|a: int| 0 <= a < q.len() && q[a] == fq[j];
                assert(q[a] == p[a]);
                lemma_disjoint_pair(p, a, p.len() - 1);
            }
            lemma_disjoint_push(fq, p.last());
            assert(p.filter(f) =~= fq.push(p.last()));
        } else {
            assert(p.filter(f) =~= q.filter(f));
        }
    }
}

/// A range within `b` overlaps nothing that `b` does not overlap.
pub proof fn lemma_disjoint_within(a: HeightRange, b: HeightRange, c: HeightRange)
    requires
        ranges_disjoint(a, b),
        b.start <= c.start,
        c.end <= b.end,
    ensures
        ranges_disjoint(a, c),
{
}

} // verus!
