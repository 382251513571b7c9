//! The validator set as the network layer sees it, and the list of persistent
//! peer addresses.

use vstd::prelude::*;
use crate::peer::PeerId;
use crate::network::addresses::{multiaddr_peer_id, peer_id_of_multiaddr};

verus! {

/// Whether two byte strings are equal.
pub fn bytes_equal(a: &[u8], b: &[u8]) -> (out: bool)
    ensures
        out == (a@ == b@),
{
    if a.len() != b.len() {
        return false;
    }
    let mut i: usize = 0;
    while i < a.len()
        invariant
            0 <= i <= a@.len(),
            a@.len() == b@.len(),
            forall|j: int| 0 <= j < i ==> a@[j] == b@[j],
        decreases a@.len() - i,
    {
        if a[i] != b[i] {
            return false;
        }
        i += 1;
    }
    assert(a@ =~= b@);
    true
}

/// A validator, as consensus describes it to the network layer.
#[derive(Clone, Debug, PartialEq, Eq, Hash)]
pub struct ValidatorInfo {
    /// Consensus address (for matching via the identify protocol).
    pub address: String,
    /// Public key bytes (for matching validator proofs).
    pub public_key: Vec<u8>,
    /// Voting power.
    pub voting_power: u64,
}

impl ValidatorInfo {
    /// The validator's address if its public key is `public_key`.
    pub fn address_for_public_key(&self, public_key: &[u8]) -> (out: Option<&str>)
        ensures
            match out {
                Some(a) => self.public_key@ == public_key@ && a@ == self.address@,
                None => self.public_key@ != public_key@,
            },
    {
        if bytes_equal(self.public_key.as_slice(), public_key) {
            Some(self.address.as_str())
        } else {
            None
        }
    }
}

/// Whether some validator of `validators` has public key `key`.
pub open spec fn has_key(validators: Seq<ValidatorInfo>, key: Seq<u8>) -> bool {
    exists|i: int| 0 <= i < validators.len() && #[trigger] validators[i].public_key@ == key
}

/// The address of a validator whose public key is `public_key`, if any validator
/// has that key.
pub fn validator_address_for_key(validators: &Vec<ValidatorInfo>, public_key: &[u8]) -> (out: Option<String>)
    ensures
        out is None <==> !has_key(validators@, public_key@),
        match out {
            Some(a) => exists|i: int| 0 <= i < validators@.len()
                && #[trigger] validators@[i].public_key@ == public_key@
                && validators@[i].address@ == a@,
            None => true,
        },
{
    let mut i: usize = 0;
    while i < validators.len()
        invariant
            0 <= i <= validators@.len(),
            forall|j: int| 0 <= j < i ==> #[trigger] validators@[j].public_key@ != public_key@,
        decreases validators@.len() - i,
    {
        match validators[i].address_for_public_key(public_key) {
            Some(a) => {
                let out = a.to_string();
                proof {
                    vstd::string::to_string_from_display_ensures_for_str(a, out);
                }
                assert(validators@[i as int].public_key@ == public_key@);
                return Some(out);
            },
            None => {},
        }
        i += 1;
    }
    None
}

/// Whether some validator of `validators` has address `address`.
pub open spec fn has_address(validators: Seq<ValidatorInfo>, address: Seq<char>) -> bool {
    exists|i: int| 0 <= i < validators.len() && #[trigger] validators[i].address@ == address
}

/// Whether the local node, with consensus address `consensus_address` if it has
/// validator credentials, is in the validator set.
pub fn local_node_is_validator(consensus_address: &Option<String>, validators: &Vec<ValidatorInfo>) -> (out: bool)
    ensures
        out == match consensus_address {
            Some(a) => has_address(validators@, a@),
            None => false,
        },
{
    let addr = match consensus_address {
        Some(a) => a,
        None => return false,
    };
    let mut i: usize = 0;
    while i < validators.len()
        invariant
            0 <= i <= validators@.len(),
            *consensus_address == Some(*addr),
            forall|j: int| 0 <= j < i ==> #[trigger] validators@[j].address@ != addr@,
        decreases validators@.len() - i,
    {
        if validators[i].address == *addr {
            assert(validators@[i as int].address@ == addr@);
            assert(has_address(validators@, addr@));
            return true;
        }
        i += 1;
    }
    false
}

/// Why a persistent peer could not be added or removed.
#[derive(Copy, Clone, Debug, PartialEq, Eq)]
pub enum PersistentPeerError {
    /// The address is already a persistent peer.
    AlreadyExists,
    /// The address names no peer id.
    PeerIdRequired,
    /// The address is not a persistent peer.
    NotFound,
}

/// Whether `i` is the index of the first occurrence of `addr` in `addrs`.
pub open spec fn is_first_index(addrs: Seq<Seq<u8>>, addr: Seq<u8>, i: int) -> bool {
    &&& 0 <= i < addrs.len()
    &&& addrs[i] == addr
    &&& forall|j: int| 0 <= j < i ==> #[trigger] addrs[j] != addr
}

/// The index of the first occurrence of `addr` in `addrs`.
pub open spec fn first_index(addrs: Seq<Seq<u8>>, addr: Seq<u8>) -> int {
    choose|i: int| is_first_index(addrs, addr, i)
}

/// The first occurrence is unique, and is the one `first_index` names.
pub proof fn lemma_first_index(addrs: Seq<Seq<u8>>, addr: Seq<u8>, i: int)
    requires
        is_first_index(addrs, addr, i),
    ensures
        first_index(addrs, addr) == i,
{
    let f = first_index(addrs, addr);
    assert(is_first_index(addrs, addr, f));
    if f < i {
        assert(addrs[f] != addr);
    } else if i < f {
        assert(addrs[i] != addr);
    }
}

/// The addresses of a list of encoded addresses.
pub open spec fn addr_views(addrs: Seq<Vec<u8>>) -> Seq<Seq<u8>> {
    addrs.map_values(|a: Vec<u8>| a@)
}

/// Adds `addr` (the binary encoding of a multiaddress) to the persistent peers and
/// returns the peer id it names, unless it is already there or names no peer id.
pub fn add_persistent_peer(addrs: &mut Vec<Vec<u8>>, addr: Vec<u8>) -> (out: Result<PeerId, PersistentPeerError>)
    ensures
        addr_views(old(addrs)@).contains(addr@) ==> {
            &&& out == Err::<PeerId, PersistentPeerError>(PersistentPeerError::AlreadyExists)
            &&& final(addrs)@ == old(addrs)@
        },
        !addr_views(old(addrs)@).contains(addr@) && multiaddr_peer_id(addr@) is None ==> {
            &&& out == Err::<PeerId, PersistentPeerError>(PersistentPeerError::PeerIdRequired)
            &&& final(addrs)@ == old(addrs)@
        },
        !addr_views(old(addrs)@).contains(addr@) && multiaddr_peer_id(addr@) is Some ==> {
            &&& out matches Ok(p) && multiaddr_peer_id(addr@) == Some(p@)
            &&& addr_views(final(addrs)@) == addr_views(old(addrs)@).push(addr@)
        },
{
    let mut i: usize = 0;
    while i < addrs.len()
        invariant
            0 <= i <= addrs@.len(),
            forall|j: int| 0 <= j < i ==> #[trigger] addrs@[j]@ != addr@,
        decreases addrs@.len() - i,
    {
        if bytes_equal(addrs[i].as_slice(), addr.as_slice()) {
            assert(addr_views(addrs@)[i as int] == addr@);
            return Err(PersistentPeerError::AlreadyExists);
        }
        i += 1;
    }
    assert(!addr_views(addrs@).contains(addr@)) by {
        if addr_views(addrs@).contains(addr@) {
            let k = choose|k: int| 0 <= k < addr_views(addrs@).len() && addr_views(addrs@)[k] == addr@;
            assert(addrs@[k]@ == addr@);
        }
    }
    let peer_id = match peer_id_of_multiaddr(addr.as_slice()) {
        Some(p) => p,
        None => return Err(PersistentPeerError::PeerIdRequired),
    };
    let ghost old_v = addr_views(addrs@);
    addrs.push(addr);
    assert(addr_views(addrs@) =~= old_v.push(addr@));
    Ok(peer_id)
}

/// Removes `addr` from the persistent peers, if it is there.
pub fn remove_persistent_peer(addrs: &mut Vec<Vec<u8>>, addr: &Vec<u8>) -> (out: Result<(), PersistentPeerError>)
    ensures
        !addr_views(old(addrs)@).contains(addr@) ==> {
            &&& out == Err::<(), PersistentPeerError>(PersistentPeerError::NotFound)
            &&& final(addrs)@ == old(addrs)@
        },
        addr_views(old(addrs)@).contains(addr@) ==> {
            &&& out is Ok
            &&& addr_views(final(addrs)@) == addr_views(old(addrs)@).remove(
                first_index(addr_views(old(addrs)@), addr@))
        },
{
    let ghost v = addr_views(addrs@);
    let mut i: usize = 0;
    while i < addrs.len()
        invariant
            0 <= i <= addrs@.len(),
            v == addr_views(addrs@),
            addrs@ == old(addrs)@,
            forall|j: int| 0 <= j < i ==> #[trigger] addrs@[j]@ != addr@,
        decreases addrs@.len() - i,
    {
        if bytes_equal(addrs[i].as_slice(), addr.as_slice()) {
            proof {
                assert(v[i as int] == addr@);
                assert(v.contains(addr@));
                assert forall|j: int| 0 <= j < i implies #[trigger] v[j] != addr@ by {
                    assert(v[j] == addrs@[j]@);
                }
                lemma_first_index(v, addr@, i as int);
            }
            addrs.remove(i);
            assert(addr_views(addrs@) =~= v.remove(i as int));
            return Ok(());
        }
        i += 1;
    }
    assert(!v.contains(addr@)) by {
        if v.contains(addr@) {
            let k = choose|k: int| 0 <= k < v.len() && v[k] == addr@;
            assert(addrs@[k]@ == addr@);
        }
    }
    Err(PersistentPeerError::NotFound)
}

/// Adding an address that is not a persistent peer and then removing it leaves the
/// persistent peers as they were.
pub proof fn lemma_add_then_remove(addrs: Seq<Seq<u8>>, addr: Seq<u8>)
    requires
        !addrs.contains(addr),
    ensures
        addrs.push(addr).contains(addr),
        addrs.push(addr).remove(first_index(addrs.push(addr), addr)) == addrs,
{
    let l = addrs.push(addr);
    let n = addrs.len() as int;
    assert(l[n] == addr);
    assert forall|j: int| 0 <= j < n implies #[trigger] l[j] != addr by {
        assert(l[j] == addrs[j]);
    }
    lemma_first_index(l, addr, n);
    assert(l.remove(n) =~= addrs);
}

} // verus!
