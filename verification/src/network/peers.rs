//! The peers the network layer knows, as the identify and validator-proof
//! protocols report them: their address, their type, and their consensus
//! identity once a validator proof of theirs is verified.

use vstd::prelude::*;
use crate::assoc::{assoc_view, has_key, keys_unique, lemma_assoc_index, lemma_assoc_push, lemma_assoc_remove, lemma_assoc_update};
use crate::network::addresses::{is_persistent_by_address, multiaddr_peer_id, peer_id_of_multiaddr, persistent_by_address};
use crate::network::validators::{
    PersistentPeerError, ValidatorInfo, addr_views, first_index, validator_address_for_key,
};
use crate::peer::{PeerId, PeerSet, peer_views};

verus! {

/// What a peer is to this node: a persistent peer, a validator, both or neither.
#[derive(Copy, Clone, Debug, PartialEq, Eq)]
pub struct PeerType {
    pub persistent: bool,
    pub validator: bool,
}

impl PeerType {
    /// The type with the given statuses.
    pub fn new(is_persistent: bool, is_validator: bool) -> (out: PeerType)
        ensures
            out == (PeerType { persistent: is_persistent, validator: is_validator }),
    {
        PeerType { persistent: is_persistent, validator: is_validator }
    }

    /// This type with validator status `is_validator`.
    pub fn with_validator_status(&self, is_validator: bool) -> (out: PeerType)
        ensures
            out == (PeerType { validator: is_validator, ..*self }),
    {
        PeerType { persistent: self.persistent, validator: is_validator }
    }

    /// This type with persistent status `is_persistent`.
    pub fn with_persistent(&self, is_persistent: bool) -> (out: PeerType)
        ensures
            out == (PeerType { persistent: is_persistent, ..*self }),
    {
        PeerType { persistent: is_persistent, validator: self.validator }
    }

    /// Whether the peer is a persistent peer.
    pub fn is_persistent(&self) -> (out: bool)
        ensures
            out == self.persistent,
    {
        self.persistent
    }

    /// Whether the peer is a validator.
    pub fn is_validator(&self) -> (out: bool)
        ensures
            out == self.validator,
    {
        self.validator
    }
}

/// Who opened the connection to a peer.
#[derive(Copy, Clone, Debug, PartialEq, Eq)]
pub enum Direction {
    /// This node dialed the peer.
    Outbound,
    /// The peer dialed this node.
    Inbound,
}

/// What the node knows of a peer.
#[derive(Debug)]
pub struct PeerRecord {
    pub peer_id: PeerId,
    pub moniker: Vec<u8>,
    /// The encoded address the peer is reached at.
    pub address: Vec<u8>,
    /// The consensus address of the validator whose key the peer proved it holds,
    /// while that validator is in the validator set.
    pub consensus_address: Option<String>,
    /// The consensus public key of a verified validator proof of the peer.
    pub consensus_public_key: Option<Vec<u8>>,
    pub peer_type: PeerType,
    /// `None` for an ephemeral connection.
    pub connection_direction: Option<Direction>,
}

/// A peer as the contracts see it: moniker, address, consensus address, consensus
/// public key, type and connection direction.
pub type PeerView = (Seq<u8>, Seq<u8>, Option<Seq<char>>, Option<Seq<u8>>, PeerType, Option<Direction>);

/// The characters of an optional string.
pub open spec fn opt_string_view(o: Option<String>) -> Option<Seq<char>> {
    match o {
        Some(s) => Some(s@),
        None => None,
    }
}

/// The bytes of an optional byte string.
pub open spec fn opt_bytes_view(o: Option<Vec<u8>>) -> Option<Seq<u8>> {
    match o {
        Some(b) => Some(b@),
        None => None,
    }
}

/// The view of a record.
pub open spec fn record_view(r: PeerRecord) -> PeerView {
    (r.moniker@, r.address@, opt_string_view(r.consensus_address), opt_bytes_view(r.consensus_public_key),
        r.peer_type, r.connection_direction)
}

/// Records as an association list from peer ids to their views.
pub open spec fn records_assoc(rs: Seq<PeerRecord>) -> Seq<(Seq<u8>, PeerView)> {
    rs.map_values(|r: PeerRecord| (r.peer_id@, record_view(r)))
}

/// Buffered proofs as an association list from peer ids to public keys.
pub open spec fn pending_assoc(ps: Seq<(PeerId, Vec<u8>)>) -> Seq<(Seq<u8>, Seq<u8>)> {
    ps.map_values(|p: (PeerId, Vec<u8>)| (p.0@, p.1@))
}

/// Whether some validator of `validators` has public key `key`.
pub open spec fn key_in_set(validators: Seq<ValidatorInfo>, key: Seq<u8>) -> bool {
    crate::network::validators::has_key(validators, key)
}

/// Whether `address` is the consensus address that key `key` gives in
/// `validators`: that of a validator with that key, or none when no validator has
/// it.
pub open spec fn address_for(validators: Seq<ValidatorInfo>, key: Seq<u8>, address: Option<Seq<char>>) -> bool {
    &&& (address is None <==> !key_in_set(validators, key))
    &&& address matches Some(a) ==> exists|i: int| 0 <= i < validators.len()
        && #[trigger] validators[i].public_key@ == key && validators[i].address@ == a
}

/// Whether `new` is peer `old` once its proof of key `key` is taken into account
/// against `validators`: the key is kept, the consensus address is what the key
/// gives, and the peer is a validator exactly when some validator has the key.
pub open spec fn proved(validators: Seq<ValidatorInfo>, old: PeerView, key: Seq<u8>, new: PeerView) -> bool {
    &&& address_for(validators, key, new.2)
    &&& new == (old.0, old.1, new.2, Some(key),
        PeerType { validator: key_in_set(validators, key), ..old.4 }, old.5)
}

/// Replacing the record at index `i` by one with the same peer id replaces the
/// peer's view.
proof fn lemma_records_update(rs: Seq<PeerRecord>, i: int, r: PeerRecord)
    requires
        keys_unique(records_assoc(rs)),
        0 <= i < rs.len(),
        r.peer_id@ == rs[i].peer_id@,
    ensures
        keys_unique(records_assoc(rs.update(i, r))),
        assoc_view(records_assoc(rs.update(i, r))) == assoc_view(records_assoc(rs)).insert(r.peer_id@, record_view(r)),
{
    let entry = (r.peer_id@, record_view(r));
    assert(records_assoc(rs.update(i, r)) =~= records_assoc(rs).update(i, entry));
    assert(records_assoc(rs)[i].0 == r.peer_id@);
    lemma_assoc_update(records_assoc(rs), i, record_view(r));
}

/// Whether what a peer is labelled with changed from `old` to `new`: its type or
/// its consensus address.
pub open spec fn labels_changed(old: PeerView, new: PeerView) -> bool {
    old.4 != new.4 || old.2 != new.2
}

/// Whether the labels of `a` and `b` differ.
fn labels_differ(a: &PeerRecord, b: &PeerRecord) -> (out: bool)
    ensures
        out == labels_changed(record_view(*a), record_view(*b)),
{
    if a.peer_type.persistent != b.peer_type.persistent || a.peer_type.validator != b.peer_type.validator {
        return true;
    }
    match (&a.consensus_address, &b.consensus_address) {
        (None, None) => false,
        (Some(x), Some(y)) => !(*x == *y),
        _ => true,
    }
}

/// Whether `new` is peer `old` re-evaluated against `validators`: a peer with a
/// verified proof is classified anew by its key, any other stays as it was.
pub open spec fn reevaluated(validators: Seq<ValidatorInfo>, old: PeerView, new: PeerView) -> bool {
    match old.3 {
        None => new == old,
        Some(k) => proved(validators, old, k, new),
    }
}

/// Peer `r`, which has a verified proof, classified anew by its key against
/// `validators`.
fn reevaluate(r: &PeerRecord, validators: &Vec<ValidatorInfo>) -> (out: PeerRecord)
    requires
        r.consensus_public_key is Some,
    ensures
        out.peer_id@ == r.peer_id@,
        reevaluated(validators@, record_view(*r), record_view(out)),
{
    let key = match &r.consensus_public_key {
        Some(k) => k,
        None => { return PeerRecord {
            peer_id: r.peer_id.copy(),
            moniker: r.moniker.clone(),
            address: r.address.clone(),
            consensus_address: None,
            consensus_public_key: None,
            peer_type: r.peer_type,
            connection_direction: r.connection_direction,
        }; },
    };
    let address = validator_address_for_key(validators, key.as_slice());
    let peer_type = r.peer_type.with_validator_status(address.is_some());
    let out = PeerRecord {
        peer_id: r.peer_id.copy(),
        moniker: r.moniker.clone(),
        address: r.address.clone(),
        consensus_address: address,
        consensus_public_key: Some(key.clone()),
        peer_type,
        connection_direction: r.connection_direction,
    };
    proof {
        assert(out.moniker@ =~= r.moniker@);
        assert(out.address@ =~= r.address@);
        assert(opt_bytes_view(out.consensus_public_key) =~= opt_bytes_view(r.consensus_public_key));
    }
    out
}

/// What recording an identify report of `peer_id` does, as `PeerTable::update_peer`
/// describes, given whether the peer is persistent by its address and the address
/// it is recorded with.
pub open spec fn identified(
    s0: PeerTable,
    s1: PeerTable,
    peer_id: Seq<u8>,
    persistent_by_address: bool,
    address: Seq<u8>,
    moniker: Seq<u8>,
    direction: Option<Direction>,
    out: PeerType,
) -> bool {
    let is_persistent = s0.persistent_view().contains(peer_id) || persistent_by_address;
    &&& s1.persistent_view() == if is_persistent {
        s0.persistent_view().insert(peer_id)
    } else {
        s0.persistent_view()
    }
    &&& s0.peers_view().contains_key(peer_id) ==> {
        let o = s0.peers_view()[peer_id];
        let moves = direction == Some(Direction::Outbound) || o.5 != Some(Direction::Outbound);
        &&& s1.pending_view() == s0.pending_view()
        &&& s1.peers_view() == s0.peers_view().insert(peer_id,
            (moniker, if moves { address } else { o.1 }, o.2, o.3, o.4, if moves { direction } else { o.5 }))
        &&& out == o.4
    }
    &&& !s0.peers_view().contains_key(peer_id) ==> {
        let fresh: PeerView = (moniker, address, None, None,
            PeerType { persistent: is_persistent, validator: false }, direction);
        &&& s1.pending_view() == s0.pending_view().remove(peer_id)
        &&& s1.peers_view() == s0.peers_view().insert(peer_id, s1.peers_view()[peer_id])
        &&& out == s1.peers_view()[peer_id].4
        &&& if s0.pending_view().contains_key(peer_id) {
            proved(s0.validators_view(), fresh, s0.pending_view()[peer_id],
                s1.peers_view()[peer_id])
        } else {
            s1.peers_view()[peer_id] == fresh
        }
    }
}

/// The address `/ip4/0.0.0.0/tcp/0`, in its binary encoding: the address a peer is
/// recorded with when neither its connection nor its identify report gives one.
pub open spec fn unspecified_address() -> Seq<u8> {
    seq![4u8, 0u8, 0u8, 0u8, 0u8, 6u8, 0u8, 0u8]
}

/// The address a peer is recorded with: that of its connection, else the first
/// address it listens on, else the unspecified address.
pub open spec fn recorded_address(connection_addr: Option<Seq<u8>>, listen_addrs: Seq<Seq<u8>>) -> Seq<u8> {
    match connection_addr {
        Some(a) => a,
        None => if listen_addrs.len() > 0 { listen_addrs[0] } else { unspecified_address() },
    }
}

/// A peer is recorded with the address its connection has whenever it has one;
/// without one, with the first address it listens on, and with none of those, with
/// `/ip4/0.0.0.0/tcp/0` (protocol 4 and four zero bytes, protocol 6 and a zero port).
pub proof fn lemma_recorded_address(connection_addr: Option<Seq<u8>>, listen_addrs: Seq<Seq<u8>>)
    ensures
        connection_addr matches Some(a) ==> recorded_address(connection_addr, listen_addrs) == a,
        connection_addr is None && listen_addrs.len() > 0
            ==> recorded_address(connection_addr, listen_addrs) == listen_addrs[0],
        connection_addr is None && listen_addrs.len() == 0
            ==> recorded_address(connection_addr, listen_addrs) == seq![4u8, 0u8, 0u8, 0u8, 0u8, 6u8, 0u8, 0u8],
{
}

/// The peer ids that the multiaddresses `addrs` name.
pub open spec fn named_peer_ids(addrs: Seq<Seq<u8>>) -> Set<Seq<u8>> {
    Set::new(|id: Seq<u8>| exists|i: int| 0 <= i < addrs.len() && multiaddr_peer_id(#[trigger] addrs[i]) == Some(id))
}

/// Whether tables `s0` and `s1` hold the same peers, buffered proofs, persistent
/// peers and validators.
pub open spec fn unchanged(s0: PeerTable, s1: PeerTable) -> bool {
    &&& s1.peers_view() == s0.peers_view()
    &&& s1.pending_view() == s0.pending_view()
    &&& s1.persistent_view() == s0.persistent_view()
    &&& s1.persistent_addrs_view() == s0.persistent_addrs_view()
    &&& s1.validators_view() == s0.validators_view()
}

/// Whether, from `s0` to `s1`, a known peer `peer_id` had its persistence set to
/// `is_persistent` and kept the rest, and no other peer changed.
pub open spec fn persistent_type_set(s0: PeerTable, s1: PeerTable, peer_id: Seq<u8>, is_persistent: bool) -> bool {
    &&& !s0.peers_view().contains_key(peer_id) ==> s1.peers_view() == s0.peers_view()
    &&& s0.peers_view().contains_key(peer_id) ==> {
        let o = s0.peers_view()[peer_id];
        s1.peers_view() == s0.peers_view().insert(peer_id,
            (o.0, o.1, o.2, o.3, PeerType { persistent: is_persistent, ..o.4 }, o.5))
    }
}

/// The peers the node knows, the proofs it verified for peers it does not know
/// yet, the persistent peers (by peer id and by address) and the validator set.
pub struct PeerTable {
    peers: Vec<PeerRecord>,
    pending_proofs: Vec<(PeerId, Vec<u8>)>,
    persistent_peer_ids: PeerSet,
    persistent_peer_addrs: Vec<Vec<u8>>,
    validators: Vec<ValidatorInfo>,
}

impl PeerTable {
    /// The known peers, by peer id.
    pub closed spec fn peers_view(&self) -> Map<Seq<u8>, PeerView> {
        assoc_view(records_assoc(self.peers@))
    }

    /// The public keys of verified proofs of peers not known yet, by peer id.
    pub closed spec fn pending_view(&self) -> Map<Seq<u8>, Seq<u8>> {
        assoc_view(pending_assoc(self.pending_proofs@))
    }

    /// The persistent peers.
    pub closed spec fn persistent_view(&self) -> Set<Seq<u8>> {
        self.persistent_peer_ids@
    }

    /// The validator set.
    pub closed spec fn validators_view(&self) -> Seq<ValidatorInfo> {
        self.validators@
    }

    /// The addresses of the persistent peers, in the order they were added.
    pub closed spec fn persistent_addrs_view(&self) -> Seq<Seq<u8>> {
        addr_views(self.persistent_peer_addrs@)
    }

    /// The state invariant: one record per peer and one buffered proof per peer.
    pub closed spec fn wf(&self) -> bool {
        &&& keys_unique(records_assoc(self.peers@))
        &&& keys_unique(pending_assoc(self.pending_proofs@))
        &&& self.persistent_peer_ids.wf()
    }

    /// A table with no peer, no buffered proof and no validator, whose persistent
    /// peers are those at `persistent_peer_addrs` (binary multiaddresses); the
    /// persistent peer ids are those that the addresses name.
    pub fn new(persistent_peer_addrs: Vec<Vec<u8>>) -> (out: PeerTable)
        ensures
            out.wf(),
            out.peers_view() == Map::<Seq<u8>, PeerView>::empty(),
            out.pending_view() == Map::<Seq<u8>, Seq<u8>>::empty(),
            out.persistent_view() == named_peer_ids(addr_views(persistent_peer_addrs@)),
            out.persistent_addrs_view() == addr_views(persistent_peer_addrs@),
            out.validators_view() == Seq::<ValidatorInfo>::empty(),
    {
        let ghost v = addr_views(persistent_peer_addrs@);
        let mut set = PeerSet::new();
        let mut i: usize = 0;
        assert(named_peer_ids(v.subrange(0, 0)) =~= Set::<Seq<u8>>::empty());
        while i < persistent_peer_addrs.len()
            invariant
                set.wf(),
                0 <= i <= persistent_peer_addrs@.len(),
                v == addr_views(persistent_peer_addrs@),
                set@ == named_peer_ids(v.subrange(0, i as int)),
            decreases persistent_peer_addrs@.len() - i,
        {
            let ghost pre = v.subrange(0, i as int);
            let ghost post = v.subrange(0, i as int + 1);
            assert(v[i as int] == persistent_peer_addrs@[i as int]@);
            assert(post[i as int] == v[i as int]);
            match peer_id_of_multiaddr(persistent_peer_addrs[i].as_slice()) {
                Some(p) => {
                    set.insert(p);
                    assert(set@ =~= named_peer_ids(post)) by {
                        assert forall|id: Seq<u8>| named_peer_ids(post).contains(id) implies set@.contains(id) by {
                            let k = choose|k: int| 0 <= k < post.len() && multiaddr_peer_id(#[trigger] post[k]) == Some(id);
                            if k < i {
                                assert(pre[k] == post[k]);
                            }
                        }
                        assert forall|id: Seq<u8>| set@.contains(id) implies named_peer_ids(post).contains(id) by {
                            if id != p@ {
                                let k = choose|k: int| 0 <= k < pre.len() && multiaddr_peer_id(#[trigger] pre[k]) == Some(id);
                                assert(post[k] == pre[k]);
                            }
                        }
                    }
                },
                None => {
                    assert(set@ =~= named_peer_ids(post)) by {
                        assert forall|id: Seq<u8>| named_peer_ids(post).contains(id) implies set@.contains(id) by {
                            let k = choose|k: int| 0 <= k < post.len() && multiaddr_peer_id(#[trigger] post[k]) == Some(id);
                            assert(k != i);
                            assert(pre[k] == post[k]);
                        }
                        assert forall|id: Seq<u8>| set@.contains(id) implies named_peer_ids(post).contains(id) by {
                            let k = choose|k: int| 0 <= k < pre.len() && multiaddr_peer_id(#[trigger] pre[k]) == Some(id);
                            assert(post[k] == pre[k]);
                        }
                    }
                },
            }
            i += 1;
        }
        assert(v.subrange(0, i as int) =~= v);
        let out = PeerTable {
            peers: Vec::new(),
            pending_proofs: Vec::new(),
            persistent_peer_ids: set,
            persistent_peer_addrs,
            validators: Vec::new(),
        };
        assert(records_assoc(out.peers@) =~= Seq::empty());
        assert(pending_assoc(out.pending_proofs@) =~= Seq::empty());
        assert(out.peers_view() =~= Map::<Seq<u8>, PeerView>::empty());
        assert(out.pending_view() =~= Map::<Seq<u8>, Seq<u8>>::empty());
        out
    }

    /// The record of peer `peer_id`, if it is known.
    pub fn peer(&self, peer_id: &PeerId) -> (out: Option<&PeerRecord>)
        requires
            self.wf(),
        ensures
            match out {
                Some(r) => self.peers_view().contains_key(peer_id@) && r.peer_id@ == peer_id@
                    && record_view(*r) == self.peers_view()[peer_id@],
                None => !self.peers_view().contains_key(peer_id@),
            },
    {
        match self.find_peer(peer_id) {
            Some(i) => {
                proof { lemma_assoc_index(records_assoc(self.peers@), i as int); }
                Some(&self.peers[i])
            },
            None => None,
        }
    }

    /// The index of the record of `peer_id`.
    fn find_peer(&self, peer_id: &PeerId) -> (out: Option<usize>)
        ensures
            match out {
                Some(i) => i < self.peers@.len() && self.peers@[i as int].peer_id@ == peer_id@,
                None => !has_key(records_assoc(self.peers@), peer_id@),
            },
    {
        let mut i: usize = 0;
        while i < self.peers.len()
            invariant
                0 <= i <= self.peers@.len(),
                forall|j: int| 0 <= j < i ==> (#[trigger] self.peers@[j]).peer_id@ != peer_id@,
            decreases self.peers@.len() - i,
        {
            if self.peers[i].peer_id.same(peer_id) {
                return Some(i);
            }
            i += 1;
        }
        assert forall|j: int| 0 <= j < records_assoc(self.peers@).len()
            implies (#[trigger] records_assoc(self.peers@)[j]).0 != peer_id@ by {
            assert(records_assoc(self.peers@)[j].0 == self.peers@[j].peer_id@);
        }
        None
    }

    /// The index of the buffered proof of `peer_id`.
    fn find_pending(&self, peer_id: &PeerId) -> (out: Option<usize>)
        ensures
            match out {
                Some(i) => i < self.pending_proofs@.len() && self.pending_proofs@[i as int].0@ == peer_id@,
                None => !has_key(pending_assoc(self.pending_proofs@), peer_id@),
            },
    {
        let mut i: usize = 0;
        while i < self.pending_proofs.len()
            invariant
                0 <= i <= self.pending_proofs@.len(),
                forall|j: int| 0 <= j < i ==> (#[trigger] self.pending_proofs@[j]).0@ != peer_id@,
            decreases self.pending_proofs@.len() - i,
        {
            if self.pending_proofs[i].0.same(peer_id) {
                return Some(i);
            }
            i += 1;
        }
        assert forall|j: int| 0 <= j < pending_assoc(self.pending_proofs@).len()
            implies (#[trigger] pending_assoc(self.pending_proofs@)[j]).0 != peer_id@ by {
            assert(pending_assoc(self.pending_proofs@)[j].0 == self.pending_proofs@[j].0@);
        }
        None
    }

    /// Replaces the record at index `i` by `r`, which has the same peer id.
    fn replace_record(&mut self, i: usize, r: PeerRecord)
        requires
            old(self).wf(),
            i < old(self).peers@.len(),
            r.peer_id@ == old(self).peers@[i as int].peer_id@,
        ensures
            final(self).wf(),
            final(self).peers_view() == old(self).peers_view().insert(r.peer_id@, record_view(r)),
            final(self).pending_proofs == old(self).pending_proofs,
            final(self).persistent_peer_ids == old(self).persistent_peer_ids,
            final(self).persistent_peer_addrs == old(self).persistent_peer_addrs,
            final(self).validators == old(self).validators,
    {
        let ghost pre = self.peers@;
        proof { lemma_records_update(pre, i as int, r); }
        self.peers.set(i, r);
    }

    /// Buffers the public key of a verified proof of `peer_id`, which is not known
    /// yet, replacing one buffered before.
    fn set_pending(&mut self, peer_id: PeerId, public_key: Vec<u8>)
        requires
            old(self).wf(),
        ensures
            final(self).wf(),
            final(self).pending_view() == old(self).pending_view().insert(peer_id@, public_key@),
            final(self).peers == old(self).peers,
            final(self).persistent_peer_ids == old(self).persistent_peer_ids,
            final(self).persistent_peer_addrs == old(self).persistent_peer_addrs,
            final(self).validators == old(self).validators,
    {
        let ghost pre = self.pending_proofs@;
        let ghost entry = (peer_id@, public_key@);
        match self.find_pending(&peer_id) {
            Some(j) => {
                self.pending_proofs.set(j, (peer_id, public_key));
                proof {
                    assert(pending_assoc(self.pending_proofs@) =~= pending_assoc(pre).update(j as int, entry));
                    assert(pending_assoc(pre)[j as int].0 == entry.0);
                    lemma_assoc_update(pending_assoc(pre), j as int, entry.1);
                }
            },
            None => {
                self.pending_proofs.push((peer_id, public_key));
                proof {
                    assert(pending_assoc(self.pending_proofs@) =~= pending_assoc(pre).push(entry));
                    lemma_assoc_push(pending_assoc(pre), entry.0, entry.1);
                }
            },
        }
    }

    /// Records that `peer_id` sent a valid validator proof of key `public_key`.
    /// For a known peer, the key is stored, its consensus address becomes that of a
    /// validator with the key, if any, and it is a validator exactly when one has
    /// the key; its new type is returned when its type or consensus address
    /// changed, and nothing otherwise. For a peer not known yet, the key is buffered
    /// until the peer is identified, and nothing is returned.
    pub fn record_verified_proof(&mut self, peer_id: &PeerId, public_key: Vec<u8>) -> (out: Option<PeerType>)
        requires
            old(self).wf(),
        ensures
            final(self).wf(),
            final(self).validators_view() == old(self).validators_view(),
            final(self).persistent_view() == old(self).persistent_view(),
            final(self).persistent_addrs_view() == old(self).persistent_addrs_view(),
            !old(self).peers_view().contains_key(peer_id@) ==> {
                &&& out is None
                &&& final(self).peers_view() == old(self).peers_view()
                &&& final(self).pending_view() == old(self).pending_view().insert(peer_id@, public_key@)
            },
            old(self).peers_view().contains_key(peer_id@) ==> {
                &&& final(self).pending_view() == old(self).pending_view()
                &&& final(self).peers_view() == old(self).peers_view().insert(peer_id@, final(self).peers_view()[peer_id@])
                &&& proved(old(self).validators_view(), old(self).peers_view()[peer_id@], public_key@,
                    final(self).peers_view()[peer_id@])
                &&& out == if labels_changed(old(self).peers_view()[peer_id@], final(self).peers_view()[peer_id@]) {
                    Some(final(self).peers_view()[peer_id@].4)
                } else {
                    None
                }
            },
    {
        match self.find_peer(peer_id) {
            None => {
                proof { assert(!self.peers_view().contains_key(peer_id@)); }
                self.set_pending(peer_id.copy(), public_key);
                None
            },
            Some(i) => {
                proof { lemma_assoc_index(records_assoc(self.peers@), i as int); }
                let address = validator_address_for_key(&self.validators, public_key.as_slice());
                let is_validator = address.is_some();
                let old_rec = &self.peers[i];
                let peer_type = old_rec.peer_type.with_validator_status(is_validator);
                let rec = PeerRecord {
                    peer_id: old_rec.peer_id.copy(),
                    moniker: old_rec.moniker.clone(),
                    address: old_rec.address.clone(),
                    consensus_address: address,
                    consensus_public_key: Some(public_key),
                    peer_type,
                    connection_direction: old_rec.connection_direction,
                };
                proof {
                    assert(rec.moniker@ =~= old_rec.moniker@);
                    assert(rec.address@ =~= old_rec.address@);
                }
                let changed = labels_differ(old_rec, &rec);
                self.replace_record(i, rec);
                if changed { Some(peer_type) } else { None }
            },
        }
    }

    /// Takes the buffered proof of `peer_id` out, if there is one.
    fn take_pending(&mut self, peer_id: &PeerId) -> (out: Option<Vec<u8>>)
        requires
            old(self).wf(),
        ensures
            final(self).wf(),
            match out {
                Some(k) => old(self).pending_view().contains_key(peer_id@) && k@ == old(self).pending_view()[peer_id@],
                None => !old(self).pending_view().contains_key(peer_id@),
            },
            final(self).pending_view() == old(self).pending_view().remove(peer_id@),
            final(self).peers == old(self).peers,
            final(self).persistent_peer_ids == old(self).persistent_peer_ids,
            final(self).persistent_peer_addrs == old(self).persistent_peer_addrs,
            final(self).validators == old(self).validators,
    {
        let ghost pre = self.pending_proofs@;
        match self.find_pending(peer_id) {
            Some(j) => {
                proof {
                    lemma_assoc_index(pending_assoc(pre), j as int);
                    lemma_assoc_remove(pending_assoc(pre), j as int);
                }
                let (_, key) = self.pending_proofs.remove(j);
                proof {
                    assert(pending_assoc(self.pending_proofs@) =~= pending_assoc(pre).remove(j as int));
                }
                Some(key)
            },
            None => {
                proof {
                    assert(self.pending_view().remove(peer_id@) =~= self.pending_view());
                }
                None
            },
        }
    }

    /// Records an identify report of `peer_id`, given whether it is persistent by
    /// its address and the address to record, as `update_peer` describes.
    fn record_identified(
        &mut self,
        peer_id: PeerId,
        persistent_by_address: bool,
        address: Vec<u8>,
        moniker: Vec<u8>,
        direction: Option<Direction>,
    ) -> (out: PeerType)
        requires
            old(self).wf(),
        ensures
            final(self).wf(),
            final(self).validators_view() == old(self).validators_view(),
            identified(*old(self), *final(self), peer_id@, persistent_by_address, address@, moniker@,
                direction, out),
            final(self).persistent_addrs_view() == old(self).persistent_addrs_view(),
    {
        let in_set = self.persistent_peer_ids.contains(&peer_id);
        let is_persistent = in_set || persistent_by_address;
        if is_persistent {
            self.persistent_peer_ids.insert(peer_id.copy());
        } else {
            assert(self.persistent_peer_ids@ == old(self).persistent_peer_ids@);
        }
        match self.find_peer(&peer_id) {
            Some(i) => {
                proof { lemma_assoc_index(records_assoc(self.peers@), i as int); }
                let ghost pre = self.peers@;
                let mut rec = self.peers.remove(i);
                assert(rec == pre[i as int]);
                let moves = matches!(direction, Some(Direction::Outbound))
                    || !matches!(rec.connection_direction, Some(Direction::Outbound));
                rec.moniker = moniker;
                if moves {
                    rec.address = address;
                    rec.connection_direction = direction;
                }
                let out = rec.peer_type;
                proof { lemma_records_update(pre, i as int, rec); }
                self.peers.insert(i, rec);
                assert(self.peers@ =~= pre.update(i as int, rec));
                out
            },
            None => {
                let ghost pre = self.peers@;
                let rec = PeerRecord {
                    peer_id: peer_id.copy(),
                    moniker,
                    address,
                    consensus_address: None,
                    consensus_public_key: None,
                    peer_type: PeerType::new(is_persistent, false),
                    connection_direction: direction,
                };
                proof {
                    assert(records_assoc(pre.push(rec)) =~= records_assoc(pre).push((rec.peer_id@, record_view(rec))));
                    lemma_assoc_push(records_assoc(pre), rec.peer_id@, record_view(rec));
                }
                self.peers.push(rec);
                let out = match self.take_pending(&peer_id) {
                    Some(key) => {
                        match self.record_verified_proof(&peer_id, key) {
                            Some(t) => t,
                            None => PeerType::new(is_persistent, false),
                        }
                    },
                    None => PeerType::new(is_persistent, false),
                };
                proof {
                    assert(self.peers_view() =~= old(self).peers_view().insert(peer_id@, self.peers_view()[peer_id@]));
                }
                out
            },
        }
    }

    /// Records the identify report of `peer_id`: its moniker and the direction of
    /// its connection, and the address it is recorded with: that of its connection
    /// (`connection_addr`: the address dialed, or the one the connection came from),
    /// else the first address the peer says it listens on, else
    /// `/ip4/0.0.0.0/tcp/0`. The peer is persistent when its id is a persistent one
    /// or when its connection's address is that of a persistent peer once `/p2p/`
    /// components are left out; only the connection's own address counts, so that
    /// a peer cannot pass for a persistent one by the addresses it claims. A known
    /// peer keeps its type and consensus identity and takes the new moniker; it
    /// takes the new address and direction unless it has an outbound connection and
    /// this one is not outbound. A new peer is recorded as a non-validator, then
    /// classified by a proof of it buffered before, if any. Returns the peer's type.
    pub fn update_peer(
        &mut self,
        peer_id: PeerId,
        connection_addr: Option<Vec<u8>>,
        listen_addrs: &Vec<Vec<u8>>,
        moniker: Vec<u8>,
        direction: Option<Direction>,
    ) -> (out: PeerType)
        requires
            old(self).wf(),
        ensures
            final(self).wf(),
            final(self).validators_view() == old(self).validators_view(),
            final(self).persistent_addrs_view() == old(self).persistent_addrs_view(),
            identified(*old(self), *final(self), peer_id@,
                match connection_addr {
                    Some(a) => persistent_by_address(a@, old(self).persistent_addrs_view()),
                    None => false,
                },
                recorded_address(opt_bytes_view(connection_addr), addr_views(listen_addrs@)),
                moniker@, direction, out),
    {
        let by_address = match &connection_addr {
            Some(a) => is_persistent_by_address(a.as_slice(), &self.persistent_peer_addrs),
            None => false,
        };
        proof {
            assert(self.persistent_peer_addrs@.map_values(|a: Vec<u8>| a@) =~= self.persistent_addrs_view());
        }
        let address = match connection_addr {
            Some(a) => a,
            None => {
                if listen_addrs.len() > 0 {
                    let a = listen_addrs[0].clone();
                    assert(a@ =~= listen_addrs@[0]@);
                    a
                } else {
                    let mut a: Vec<u8> = Vec::new();
                    a.push(4u8);
                    a.push(0u8);
                    a.push(0u8);
                    a.push(0u8);
                    a.push(0u8);
                    a.push(6u8);
                    a.push(0u8);
                    a.push(0u8);
                    assert(a@ =~= unspecified_address());
                    a
                }
            },
        };
        self.record_identified(peer_id, by_address, address, moniker, direction)
    }

    /// Takes a new validator set from consensus and re-evaluates each peer with a
    /// verified proof against it: its consensus address becomes that of a validator
    /// with its key, if any, and it is a validator exactly when one has the key.
    /// Returns each peer whose type or consensus address changed, with its new type,
    /// in table order.
    pub fn set_validators(&mut self, validators: Vec<ValidatorInfo>) -> (out: Vec<(PeerId, PeerType)>)
        requires
            old(self).wf(),
        ensures
            final(self).wf(),
            final(self).validators_view() == validators@,
            final(self).pending_view() == old(self).pending_view(),
            final(self).persistent_view() == old(self).persistent_view(),
            final(self).persistent_addrs_view() == old(self).persistent_addrs_view(),
            final(self).peers_view().dom() == old(self).peers_view().dom(),
            forall|id: Seq<u8>| #[trigger] old(self).peers_view().contains_key(id) ==>
                reevaluated(validators@, old(self).peers_view()[id], final(self).peers_view()[id]),
            forall|m: int| 0 <= m < out@.len() ==> {
                &&& old(self).peers_view().contains_key((#[trigger] out@[m]).0@)
                &&& labels_changed(old(self).peers_view()[out@[m].0@], final(self).peers_view()[out@[m].0@])
                &&& out@[m].1 == final(self).peers_view()[out@[m].0@].4
            },
            forall|id: Seq<u8>| #[trigger] old(self).peers_view().contains_key(id)
                && labels_changed(old(self).peers_view()[id], final(self).peers_view()[id])
                ==> exists|m: int| 0 <= m < out@.len() && (#[trigger] out@[m]).0@ == id,
    {
        self.validators = validators;
        let ghost pre = self.peers@;
        let mut out: Vec<(PeerId, PeerType)> = Vec::new();
        let ghost mut js: Seq<int> = Seq::empty();
        let mut i: usize = 0;
        while i < self.peers.len()
            invariant
                0 <= i <= self.peers@.len(),
                self.peers@.len() == pre.len(),
                self.validators@ == validators@,
                self.pending_proofs == old(self).pending_proofs,
                self.persistent_peer_ids == old(self).persistent_peer_ids,
                self.persistent_peer_addrs == old(self).persistent_peer_addrs,
                forall|j: int| 0 <= j < pre.len() ==> (#[trigger] self.peers@[j]).peer_id@ == pre[j].peer_id@,
                forall|j: int| i <= j < pre.len() ==> #[trigger] self.peers@[j] == pre[j],
                forall|j: int| 0 <= j < i ==> reevaluated(validators@, record_view(#[trigger] pre[j]), record_view(self.peers@[j])),
                js.len() == out@.len(),
                forall|m: int| 0 <= m < js.len() ==> {
                    &&& 0 <= #[trigger] js[m] < i
                    &&& out@[m].0@ == pre[js[m]].peer_id@
                    &&& labels_changed(record_view(pre[js[m]]), record_view(self.peers@[js[m]]))
                    &&& out@[m].1 == self.peers@[js[m]].peer_type
                },
                forall|j: int| 0 <= j < i && labels_changed(record_view(#[trigger] pre[j]), record_view(self.peers@[j]))
                    ==> exists|m: int| 0 <= m < js.len() && #[trigger] js[m] == j,
            decreases self.peers@.len() - i,
        {
            let r = &self.peers[i];
            assert(*r == pre[i as int]);
            if r.consensus_public_key.is_some() {
                let rec = reevaluate(r, &self.validators);
                let id = r.peer_id.copy();
                let peer_type = rec.peer_type;
                let changed = labels_differ(r, &rec);
                let ghost before = self.peers@;
                self.peers.set(i, rec);
                if changed {
                    out.push((id, peer_type));
                    proof {
                        let js0 = js;
                        js = js.push(i as int);
                        assert forall|j: int| 0 <= j < i + 1
                            && labels_changed(record_view(#[trigger] pre[j]), record_view(self.peers@[j]))
                            implies exists|m: int| 0 <= m < js.len() && #[trigger] js[m] == j by {
                            if j < i {
                                assert(self.peers@[j] == before[j]);
                                let m = choose|m: int| 0 <= m < js0.len() && #[trigger] js0[m] == j;
                                assert(js[m] == js0[m]);
                            } else {
                                assert(js[js.len() - 1] == j);
                            }
                        }
                    }
                } else {
                    proof {
                        assert forall|j: int| 0 <= j < i + 1
                            && labels_changed(record_view(#[trigger] pre[j]), record_view(self.peers@[j]))
                            implies exists|m: int| 0 <= m < js.len() && #[trigger] js[m] == j by {
                            assert(j != i);
                            assert(self.peers@[j] == before[j]);
                        }
                    }
                }
            } else {
                assert(reevaluated(validators@, record_view(pre[i as int]), record_view(self.peers@[i as int])));
            }
            i += 1;
        }
        proof {
            let post = self.peers@;
            assert forall|a: int, b: int| 0 <= a < b < records_assoc(post).len()
                implies (#[trigger] records_assoc(post)[a]).0 != (#[trigger] records_assoc(post)[b]).0 by {
                assert(records_assoc(post)[a].0 == records_assoc(pre)[a].0);
                assert(records_assoc(post)[b].0 == records_assoc(pre)[b].0);
            }
            assert forall|id: Seq<u8>| #[trigger] has_key(records_assoc(post), id) <==> has_key(records_assoc(pre), id) by {
                if has_key(records_assoc(post), id) {
                    let j = choose|j: int| 0 <= j < records_assoc(post).len() && (#[trigger] records_assoc(post)[j]).0 == id;
                    assert(records_assoc(pre)[j].0 == id);
                }
                if has_key(records_assoc(pre), id) {
                    let j = choose|j: int| 0 <= j < records_assoc(pre).len() && (#[trigger] records_assoc(pre)[j]).0 == id;
                    assert(records_assoc(post)[j].0 == id);
                }
            }
            assert(self.peers_view().dom() =~= old(self).peers_view().dom());
            assert forall|id: Seq<u8>| #[trigger] old(self).peers_view().contains_key(id) implies
                reevaluated(validators@, old(self).peers_view()[id], self.peers_view()[id]) by {
                let j = choose|j: int| 0 <= j < records_assoc(pre).len() && (#[trigger] records_assoc(pre)[j]).0 == id;
                lemma_assoc_index(records_assoc(pre), j);
                lemma_assoc_index(records_assoc(post), j);
                assert(records_assoc(post)[j].0 == id);
                let _ = pre[j];
            }
            assert forall|m: int| 0 <= m < out@.len() implies {
                &&& old(self).peers_view().contains_key((#[trigger] out@[m]).0@)
                &&& labels_changed(old(self).peers_view()[out@[m].0@], self.peers_view()[out@[m].0@])
                &&& out@[m].1 == self.peers_view()[out@[m].0@].4
            } by {
                let j = js[m];
                lemma_assoc_index(records_assoc(pre), j);
                lemma_assoc_index(records_assoc(post), j);
                assert(records_assoc(post)[j].0 == pre[j].peer_id@);
            }
            assert forall|id: Seq<u8>| #[trigger] old(self).peers_view().contains_key(id)
                && labels_changed(old(self).peers_view()[id], self.peers_view()[id])
                implies exists|m: int| 0 <= m < out@.len() && (#[trigger] out@[m]).0@ == id by {
                let j = choose|j: int| 0 <= j < records_assoc(pre).len() && (#[trigger] records_assoc(pre)[j]).0 == id;
                lemma_assoc_index(records_assoc(pre), j);
                lemma_assoc_index(records_assoc(post), j);
                assert(records_assoc(post)[j].0 == id);
                let _ = pre[j];
                let m = choose|m: int| 0 <= m < js.len() && #[trigger] js[m] == j;
                assert(out@[m].0@ == id);
            }
        }
        out
    }

    /// Makes `peer_id` a persistent peer or not, when it is added to or removed
    /// from the persistent peers at runtime; a known peer's type follows, and is
    /// returned.
    pub fn mark_persistent(&mut self, peer_id: &PeerId, is_persistent: bool) -> (out: Option<PeerType>)
        requires
            old(self).wf(),
        ensures
            final(self).wf(),
            final(self).validators_view() == old(self).validators_view(),
            final(self).pending_view() == old(self).pending_view(),
            final(self).persistent_addrs_view() == old(self).persistent_addrs_view(),
            final(self).persistent_view() == if is_persistent {
                old(self).persistent_view().insert(peer_id@)
            } else {
                old(self).persistent_view().remove(peer_id@)
            },
            !old(self).peers_view().contains_key(peer_id@) ==> {
                &&& out is None
                &&& final(self).peers_view() == old(self).peers_view()
            },
            old(self).peers_view().contains_key(peer_id@) ==> {
                let o = old(self).peers_view()[peer_id@];
                let t = PeerType { persistent: is_persistent, ..o.4 };
                &&& final(self).peers_view() == old(self).peers_view().insert(peer_id@, (o.0, o.1, o.2, o.3, t, o.5))
                &&& out == Some(t)
            },
    {
        if is_persistent {
            self.persistent_peer_ids.insert(peer_id.copy());
        } else {
            self.persistent_peer_ids.remove(peer_id);
        }
        match self.find_peer(peer_id) {
            None => {
                proof { assert(!self.peers_view().contains_key(peer_id@)); }
                None
            },
            Some(i) => {
                proof { lemma_assoc_index(records_assoc(self.peers@), i as int); }
                let ghost pre = self.peers@;
                let mut rec = self.peers.remove(i);
                assert(rec == pre[i as int]);
                rec.peer_type = rec.peer_type.with_persistent(is_persistent);
                let out = rec.peer_type;
                proof { lemma_records_update(pre, i as int, rec); }
                self.peers.insert(i, rec);
                assert(self.peers@ =~= pre.update(i as int, rec));
                Some(out)
            },
        }
    }

    /// Adds the persistent peer at `addr` (a binary multiaddress) at runtime,
    /// unless it is one already or names no peer id: the address is appended to
    /// the persistent peers' addresses, the peer id it names becomes a persistent
    /// one, and a known peer with that id becomes persistent.
    pub fn add_persistent_peer(&mut self, addr: Vec<u8>) -> (out: Result<(), PersistentPeerError>)
        requires
            old(self).wf(),
        ensures
            final(self).wf(),
            final(self).validators_view() == old(self).validators_view(),
            final(self).pending_view() == old(self).pending_view(),
            old(self).persistent_addrs_view().contains(addr@) ==> {
                &&& out == Err::<(), PersistentPeerError>(PersistentPeerError::AlreadyExists)
                &&& unchanged(*old(self), *final(self))
            },
            !old(self).persistent_addrs_view().contains(addr@) && multiaddr_peer_id(addr@) is None ==> {
                &&& out == Err::<(), PersistentPeerError>(PersistentPeerError::PeerIdRequired)
                &&& unchanged(*old(self), *final(self))
            },
            !old(self).persistent_addrs_view().contains(addr@) && multiaddr_peer_id(addr@) is Some ==> {
                let id = multiaddr_peer_id(addr@)->0;
                &&& out is Ok
                &&& final(self).persistent_addrs_view() == old(self).persistent_addrs_view().push(addr@)
                &&& final(self).persistent_view() == old(self).persistent_view().insert(id)
                &&& persistent_type_set(*old(self), *final(self), id, true)
            },
    {
        match crate::network::validators::add_persistent_peer(&mut self.persistent_peer_addrs, addr) {
            Err(e) => {
                proof { assert(self.persistent_peer_addrs@ =~= old(self).persistent_peer_addrs@); }
                Err(e)
            },
            Ok(id) => {
                let _ = self.mark_persistent(&id, true);
                Ok(())
            },
        }
    }

    /// Removes the persistent peer at `addr` at runtime, if its address is one of
    /// the persistent peers': its first occurrence leaves them, and when `peer_id`
    /// (the peer id learned for the address when a connection to it succeeded) is
    /// given, that id stops being a persistent one and a known peer with it stops
    /// being persistent.
    pub fn remove_persistent_peer(&mut self, addr: &Vec<u8>, peer_id: Option<PeerId>) -> (out: Result<(), PersistentPeerError>)
        requires
            old(self).wf(),
        ensures
            final(self).wf(),
            final(self).validators_view() == old(self).validators_view(),
            final(self).pending_view() == old(self).pending_view(),
            !old(self).persistent_addrs_view().contains(addr@) ==> {
                &&& out == Err::<(), PersistentPeerError>(PersistentPeerError::NotFound)
                &&& unchanged(*old(self), *final(self))
            },
            old(self).persistent_addrs_view().contains(addr@) ==> {
                &&& out is Ok
                &&& final(self).persistent_addrs_view() == old(self).persistent_addrs_view().remove(
                    first_index(old(self).persistent_addrs_view(), addr@))
                &&& match peer_id {
                    Some(p) => {
                        &&& final(self).persistent_view() == old(self).persistent_view().remove(p@)
                        &&& persistent_type_set(*old(self), *final(self), p@, false)
                    },
                    None => {
                        &&& final(self).persistent_view() == old(self).persistent_view()
                        &&& final(self).peers_view() == old(self).peers_view()
                    },
                }
            },
    {
        match crate::network::validators::remove_persistent_peer(&mut self.persistent_peer_addrs, addr) {
            Err(e) => {
                proof { assert(self.persistent_peer_addrs@ =~= old(self).persistent_peer_addrs@); }
                Err(e)
            },
            Ok(()) => {
                match peer_id {
                    Some(p) => {
                        let _ = self.mark_persistent(&p, false);
                    },
                    None => {},
                }
                Ok(())
            },
        }
    }
}

/// Whichever comes first of a verified validator proof of a peer and the identify
/// report that makes the peer known, the peer ends up the same: both orders
/// classify the identified peer by the proof's key, so its moniker, address, key,
/// type and connection direction agree, and so does whether it has a consensus
/// address; the address itself is the same whenever one validator at most has the
/// key.
pub proof fn lemma_proof_before_or_after_identify(
    validators: Seq<ValidatorInfo>,
    identified: PeerView,
    key: Seq<u8>,
    proof_first: PeerView,
    identify_first: PeerView,
)
    requires
        proved(validators, identified, key, proof_first),
        proved(validators, identified, key, identify_first),
    ensures
        proof_first.0 == identify_first.0,
        proof_first.1 == identify_first.1,
        proof_first.3 == identify_first.3,
        proof_first.4 == identify_first.4,
        proof_first.5 == identify_first.5,
        proof_first.2 is Some <==> identify_first.2 is Some,
        (forall|i: int, j: int| 0 <= i < validators.len() && 0 <= j < validators.len()
            && #[trigger] validators[i].public_key@ == key && #[trigger] validators[j].public_key@ == key ==> i == j)
            ==> proof_first == identify_first,
{
    if forall|i: int, j: int| 0 <= i < validators.len() && 0 <= j < validators.len()
        && #[trigger] validators[i].public_key@ == key && #[trigger] validators[j].public_key@ == key ==> i == j {
        if proof_first.2 is Some {
            let a = proof_first.2->0;
            let b = identify_first.2->0;
            let i = choose|i: int| 0 <= i < validators.len() && #[trigger] validators[i].public_key@ == key
                && validators[i].address@ == a;
            let j = choose|j: int| 0 <= j < validators.len() && #[trigger] validators[j].public_key@ == key
                && validators[j].address@ == b;
            assert(i == j);
        }
    }
}

/// Whether a peer removed from the persistent peers is disconnected: when it is
/// connected, and either only persistent peers are accepted or it has no inbound
/// connection, which would mean it keeps this node as its own persistent peer.
pub fn disconnects_removed_peer(connected: bool, persistent_peers_only: bool, has_inbound: bool) -> (out: bool)
    ensures
        out == (connected && (persistent_peers_only || !has_inbound)),
{
    connected && (persistent_peers_only || !has_inbound)
}

} // verus!
