//! Peer identities as plain bytes.

use vstd::prelude::*;

verus! {

/// A peer identity: the binary encoding of a network peer id.
#[derive(Debug)]
pub struct PeerId {
    pub bytes: Vec<u8>,
}

impl View for PeerId {
    type V = Seq<u8>;

    open spec fn view(&self) -> Seq<u8> {
        self.bytes@
    }
}

impl PeerId {
    /// Wraps the binary encoding of a peer id.
    pub fn new(bytes: Vec<u8>) -> (out: PeerId)
        ensures
            out@ == bytes@,
    {
        PeerId { bytes }
    }

    /// A copy of this peer id.
    pub fn copy(&self) -> (out: PeerId)
        ensures
            out@ == self@,
    {
        let mut bytes: Vec<u8> = Vec::new();
        let mut i: usize = 0;
        while i < self.bytes.len()
            invariant
                0 <= i <= self.bytes@.len(),
                bytes@ == self.bytes@.subrange(0, i as int),
            decreases self.bytes@.len() - i,
        {
            bytes.push(self.bytes[i]);
            i += 1;
            assert(bytes@ =~= self.bytes@.subrange(0, i as int));
        }
        assert(bytes@ =~= self.bytes@);
        PeerId { bytes }
    }

    /// Whether two peer ids are the same.
    pub fn same(&self, other: &PeerId) -> (out: bool)
        ensures
            out == (self@ == other@),
    {
        if self.bytes.len() != other.bytes.len() {
            return false;
        }
        let mut i: usize = 0;
        while i < self.bytes.len()
            invariant
                0 <= i <= self.bytes@.len(),
                self.bytes@.len() == other.bytes@.len(),
                forall|j: int| 0 <= j < i ==> self.bytes@[j] == other.bytes@[j],
            decreases self.bytes@.len() - i,
        {
            if self.bytes[i] != other.bytes[i] {
                return false;
            }
            i += 1;
        }
        assert(self.bytes@ =~= other.bytes@);
        true
    }
}

/// The views of a list of peer ids.
pub open spec fn peer_views(peers: Seq<PeerId>) -> Seq<Seq<u8>> {
    peers.map_values(|p: PeerId| p@)
}

/// Whether `peers` holds `p`.
pub fn contains_peer(peers: &Vec<PeerId>, p: &PeerId) -> (out: bool)
    ensures
        out == peer_views(peers@).contains(p@),
{
    let mut i: usize = 0;
    while i < peers.len()
        invariant
            0 <= i <= peers@.len(),
            forall|j: int| 0 <= j < i ==> peers@[j]@ != p@,
        decreases peers@.len() - i,
    {
        if peers[i].same(p) {
            assert(peer_views(peers@)[i as int] == p@);
            return true;
        }
        i += 1;
    }
    assert forall|j: int| 0 <= j < peer_views(peers@).len() implies peer_views(peers@)[j] != p@ by {
        assert(peer_views(peers@)[j] == peers@[j]@);
    }
    false
}

/// A copy of a list of peer ids.
pub fn copy_peers(peers: &Vec<PeerId>) -> (out: Vec<PeerId>)
    ensures
        peer_views(out@) == peer_views(peers@),
{
    let mut out: Vec<PeerId> = Vec::new();
    let mut i: usize = 0;
    while i < peers.len()
        invariant
            0 <= i <= peers@.len(),
            out@.len() == i,
            peer_views(out@) == peer_views(peers@).subrange(0, i as int),
        decreases peers@.len() - i,
    {
        let ghost old_out = out@;
        out.push(peers[i].copy());
        i += 1;
        assert forall|j: int| 0 <= j < i implies #[trigger] peer_views(out@)[j]
            == peer_views(peers@).subrange(0, i as int)[j] by {
            if j < i - 1 {
                assert(out@[j] == old_out[j]);
                assert(peer_views(old_out)[j] == peer_views(peers@).subrange(0, i - 1)[j]);
            }
        }
        assert(peer_views(out@) =~= peer_views(peers@).subrange(0, i as int));
    }
    assert(peer_views(peers@).subrange(0, peers@.len() as int) =~= peer_views(peers@));
    out
}

/// A set of peers.
pub struct PeerSet {
    peers: Vec<PeerId>,
}

impl View for PeerSet {
    type V = Set<Seq<u8>>;

    closed spec fn view(&self) -> Set<Seq<u8>> {
        peer_views(self.peers@).to_set()
    }
}

impl PeerSet {
    /// The state invariant: no peer is listed twice.
    pub closed spec fn wf(&self) -> bool {
        peer_views(self.peers@).no_duplicates()
    }

    /// The empty set.
    pub fn new() -> (out: PeerSet)
        ensures
            out.wf(),
            out@ == Set::<Seq<u8>>::empty(),
    {
        let out = PeerSet { peers: Vec::new() };
        assert(out@ =~= Set::<Seq<u8>>::empty());
        out
    }

    /// Whether `peer` is in the set.
    pub fn contains(&self, peer: &PeerId) -> (out: bool)
        ensures
            out == self@.contains(peer@),
    {
        contains_peer(&self.peers, peer)
    }

    /// The number of peers in the set.
    pub fn len(&self) -> (out: usize)
        requires
            self.wf(),
        ensures
            self@.finite(),
            out == self@.len(),
    {
        proof {
            peer_views(self.peers@).unique_seq_to_set();
            vstd::seq_lib::seq_to_set_is_finite(peer_views(self.peers@));
        }
        self.peers.len()
    }

    /// Adds `peer`; `true` when it was not in the set yet.
    pub fn insert(&mut self, peer: PeerId) -> (out: bool)
        requires
            old(self).wf(),
        ensures
            final(self).wf(),
            out == !old(self)@.contains(peer@),
            final(self)@ == old(self)@.insert(peer@),
    {
        if contains_peer(&self.peers, &peer) {
            assert(old(self)@.insert(peer@) =~= old(self)@);
            return false;
        }
        let ghost pre = peer_views(self.peers@);
        let ghost pv = peer@;
        self.peers.push(peer);
        proof {
            assert(peer_views(self.peers@) =~= pre.push(pv));
            pre.lemma_push_to_set_commute(pv);
            assert(!pre.contains(pv));
            assert forall|a: int, b: int| 0 <= a < pre.push(pv).len() && 0 <= b < pre.push(pv).len() && a != b
                implies pre.push(pv)[a] != pre.push(pv)[b] by {
                if a < pre.len() && b < pre.len() {
                } else if a < pre.len() {
                    assert(pre.contains(pre[a]));
                } else if b < pre.len() {
                    assert(pre.contains(pre[b]));
                }
            }
        }
        true
    }

    /// Removes `peer`; `true` when it was in the set.
    pub fn remove(&mut self, peer: &PeerId) -> (out: bool)
        requires
            old(self).wf(),
        ensures
            final(self).wf(),
            out == old(self)@.contains(peer@),
            final(self)@ == old(self)@.remove(peer@),
    {
        let ghost pre = peer_views(self.peers@);
        let mut i: usize = 0;
        while i < self.peers.len()
            invariant
                0 <= i <= self.peers@.len(),
                pre == peer_views(self.peers@),
                pre == peer_views(old(self).peers@),
                pre.no_duplicates(),
                forall|j: int| 0 <= j < i ==> pre[j] != peer@,
            decreases self.peers@.len() - i,
        {
            if self.peers[i].same(peer) {
                self.peers.remove(i);
                proof {
                    let post = peer_views(self.peers@);
                    assert(post =~= pre.remove(i as int));
                    assert forall|a: int, b: int| 0 <= a < post.len() && 0 <= b < post.len() && a != b
                        implies post[a] != post[b] by {
                        let a0 = if a < i { a } else { a + 1 };
                        let b0 = if b < i { b } else { b + 1 };
                        assert(post[a] == pre[a0] && post[b] == pre[b0]);
                    }
                    assert(pre[i as int] == peer@);
                    assert forall|x: Seq<u8>| #[trigger] post.contains(x) <==> (pre.contains(x) && x != peer@) by {
                        if post.contains(x) {
                            let k = choose|k: int| 0 <= k < post.len() && post[k] == x;
                            let k0 = if k < i { k } else { k + 1 };
                            assert(pre[k0] == x);
                            assert(k0 != i);
                            assert(pre.contains(x));
                        }
                        if pre.contains(x) && x != peer@ {
                            let k = choose|k: int| 0 <= k < pre.len() && pre[k] == x;
                            assert(k != i);
                            if k < i {
                                assert(post[k] == x);
                            } else {
                                assert(post[k - 1] == x);
                            }
                            assert(post.contains(x));
                        }
                    }
                    assert(pre[i as int] == peer@);
                    assert(self@ =~= old(self)@.remove(peer@));
                }
                return true;
            }
            i += 1;
        }
        assert(!pre.contains(peer@));
        assert(old(self)@.remove(peer@) =~= old(self)@);
        false
    }
}

} // verus!
