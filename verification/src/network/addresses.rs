//! Multiaddresses as the network layer reads them: the peer id they name, the IP
//! address they hold, and whether two of them are the same once their peer ids are
//! left out.

use vstd::prelude::*;
use crate::network::ip_limits::IpAddr;
use crate::peer::PeerId;

verus! {

/// A component of a multiaddress: the binary encoding of the peer id of a `/p2p/`
/// component, an IPv4 or IPv6 address, or the binary encoding of any other
/// component.
#[derive(Debug)]
pub enum AddrComponent {
    PeerId(Vec<u8>),
    Ip4(u32),
    Ip6(u128),
    Other(Vec<u8>),
}

/// A component as the contracts see it.
pub enum ComponentView {
    PeerId(Seq<u8>),
    Ip4(u32),
    Ip6(u128),
    Other(Seq<u8>),
}

/// The view of a component.
pub open spec fn component_view(c: AddrComponent) -> ComponentView {
    match c {
        AddrComponent::PeerId(b) => ComponentView::PeerId(b@),
        AddrComponent::Ip4(a) => ComponentView::Ip4(a),
        AddrComponent::Ip6(a) => ComponentView::Ip6(a),
        AddrComponent::Other(b) => ComponentView::Other(b@),
    }
}

/// The views of a list of components.
pub open spec fn components_view(cs: Seq<AddrComponent>) -> Seq<ComponentView> {
    cs.map_values(|c: AddrComponent| component_view(c))
}

/// The components, in order, of the multiaddress whose binary encoding is
/// `bytes`; `None` when the bytes encode no multiaddress.
pub uninterp spec fn multiaddr_components(bytes: Seq<u8>) -> Option<Seq<ComponentView>>;

/// Decodes a multiaddress with `multiaddr::Multiaddr::try_from` on its bytes and
/// reads its components with `Multiaddr::iter`: a `/p2p/` component as its peer
/// id's bytes (`PeerId::to_bytes`), `/ip4/` and `/ip6/` as the address's number,
/// any other as its own encoding (`Multiaddr::with` on an empty address, then
/// `to_vec`). The contract only names the result: what the bytes decode to is the
/// crate's.
#[verifier::external_body]
fn decode_multiaddr(bytes: &[u8]) -> (out: Option<Vec<AddrComponent>>)
    ensures
        match out {
            Some(c) => multiaddr_components(bytes@) == Some(components_view(c@)),
            None => multiaddr_components(bytes@) is None,
        },
{
    match multiaddr::Multiaddr::try_from(bytes.to_vec()) {
        Ok(addr) => Some(addr.iter().map(|p| match p {
            multiaddr::Protocol::P2p(id) => AddrComponent::PeerId(id.to_bytes()),
            multiaddr::Protocol::Ip4(a) => AddrComponent::Ip4(u32::from(a)),
            multiaddr::Protocol::Ip6(a) => AddrComponent::Ip6(u128::from(a)),
            other => AddrComponent::Other(multiaddr::Multiaddr::empty().with(other).to_vec()),
        }).collect()),
        Err(_) => None,
    }
}

/// The peer id of the first `/p2p/` component of `cs`, if any.
pub open spec fn first_peer_id(cs: Seq<ComponentView>) -> Option<Seq<u8>>
    decreases cs.len(),
{
    if cs.len() == 0 {
        None
    } else if let ComponentView::PeerId(b) = cs[0] {
        Some(b)
    } else {
        first_peer_id(cs.drop_first())
    }
}

/// The peer id that the multiaddress encoded by `bytes` names: that of its first
/// `/p2p/` component; none when it has no such component or the bytes encode no
/// multiaddress.
pub open spec fn multiaddr_peer_id(bytes: Seq<u8>) -> Option<Seq<u8>> {
    match multiaddr_components(bytes) {
        Some(cs) => first_peer_id(cs),
        None => None,
    }
}

/// The peer id named by the multiaddress encoded by `addr`, if any.
pub fn peer_id_of_multiaddr(addr: &[u8]) -> (out: Option<PeerId>)
    ensures
        match out {
            Some(p) => multiaddr_peer_id(addr@) == Some(p@),
            None => multiaddr_peer_id(addr@) is None,
        },
{
    let cs = match decode_multiaddr(addr) {
        Some(cs) => cs,
        None => return None,
    };
    let ghost v = components_view(cs@);
    assert(v.subrange(0, v.len() as int) =~= v);
    let mut i: usize = 0;
    while i < cs.len()
        invariant
            0 <= i <= cs@.len(),
            v == components_view(cs@),
            multiaddr_components(addr@) == Some(v),
            first_peer_id(v) == first_peer_id(v.subrange(i as int, v.len() as int)),
        decreases cs@.len() - i,
    {
        let ghost rest = v.subrange(i as int, v.len() as int);
        assert(rest[0] == component_view(cs@[i as int]));
        match &cs[i] {
            AddrComponent::PeerId(b) => {
                let id = PeerId::new(b.clone());
                assert(id@ =~= b@);
                return Some(id);
            },
            _ => {
                assert(rest.drop_first() =~= v.subrange(i as int + 1, v.len() as int));
            },
        }
        i += 1;
    }
    None
}

/// The first IP address of `cs`, if any.
pub open spec fn first_ip(cs: Seq<ComponentView>) -> Option<IpAddr>
    decreases cs.len(),
{
    if cs.len() == 0 {
        None
    } else {
        match cs[0] {
            ComponentView::Ip4(a) => Some(IpAddr::V4(a)),
            ComponentView::Ip6(a) => Some(IpAddr::V6(a)),
            _ => first_ip(cs.drop_first()),
        }
    }
}

/// The IP address that the multiaddress encoded by `bytes` holds: its first
/// `/ip4/` or `/ip6/` component; none when it has none or the bytes encode no
/// multiaddress.
pub open spec fn multiaddr_ip(bytes: Seq<u8>) -> Option<IpAddr> {
    match multiaddr_components(bytes) {
        Some(cs) => first_ip(cs),
        None => None,
    }
}

/// The IP address held by the multiaddress encoded by `addr`, if any.
pub fn ip_of_multiaddr(addr: &[u8]) -> (out: Option<IpAddr>)
    ensures
        out == multiaddr_ip(addr@),
{
    let cs = match decode_multiaddr(addr) {
        Some(cs) => cs,
        None => return None,
    };
    let ghost v = components_view(cs@);
    assert(v.subrange(0, v.len() as int) =~= v);
    let mut i: usize = 0;
    while i < cs.len()
        invariant
            0 <= i <= cs@.len(),
            v == components_view(cs@),
            multiaddr_components(addr@) == Some(v),
            first_ip(v) == first_ip(v.subrange(i as int, v.len() as int)),
        decreases cs@.len() - i,
    {
        let ghost rest = v.subrange(i as int, v.len() as int);
        assert(rest[0] == component_view(cs@[i as int]));
        match &cs[i] {
            AddrComponent::Ip4(a) => {
                return Some(IpAddr::V4(*a));
            },
            AddrComponent::Ip6(a) => {
                return Some(IpAddr::V6(*a));
            },
            _ => {
                assert(rest.drop_first() =~= v.subrange(i as int + 1, v.len() as int));
            },
        }
        i += 1;
    }
    None
}

/// `cs` without its `/p2p/` components.
pub open spec fn strip_p2p(cs: Seq<ComponentView>) -> Seq<ComponentView>
    decreases cs.len(),
{
    if cs.len() == 0 {
        Seq::empty()
    } else {
        strip_p2p(cs.drop_last()) + if cs.last() is PeerId { Seq::empty() } else { seq![cs.last()] }
    }
}

/// The components of the multiaddress encoded by `bytes` without its `/p2p/`
/// components; `None` when the bytes encode no multiaddress.
pub open spec fn stripped_components(bytes: Seq<u8>) -> Option<Seq<ComponentView>> {
    match multiaddr_components(bytes) {
        Some(cs) => Some(strip_p2p(cs)),
        None => None,
    }
}

/// Whether the multiaddress encoded by `remote` is that of one of `persistent`
/// once their `/p2p/` components are left out.
pub open spec fn persistent_by_address(remote: Seq<u8>, persistent: Seq<Seq<u8>>) -> bool {
    exists|i: int| 0 <= i < persistent.len() && stripped_components(remote) is Some
        && stripped_components(remote) == stripped_components(#[trigger] persistent[i])
}

/// A copy of component `c`.
fn copy_component(c: &AddrComponent) -> (out: AddrComponent)
    ensures
        component_view(out) == component_view(*c),
{
    match c {
        AddrComponent::PeerId(b) => {
            let out = b.clone();
            assert(out@ =~= b@);
            AddrComponent::PeerId(out)
        },
        AddrComponent::Ip4(a) => AddrComponent::Ip4(*a),
        AddrComponent::Ip6(a) => AddrComponent::Ip6(*a),
        AddrComponent::Other(b) => {
            let out = b.clone();
            assert(out@ =~= b@);
            AddrComponent::Other(out)
        },
    }
}

/// Whether two byte strings are equal.
fn same_bytes(a: &Vec<u8>, b: &Vec<u8>) -> (out: bool)
    ensures
        out == (a@ == b@),
{
    if a.len() != b.len() {
        return false;
    }
    let mut i: usize = 0;
    while i < a.len()
        invariant
            0 <= i <= a@.len(),
            a@.len() == b@.len(),
            forall|j: int| 0 <= j < i ==> a@[j] == b@[j],
        decreases a@.len() - i,
    {
        if a[i] != b[i] {
            return false;
        }
        i += 1;
    }
    assert(a@ =~= b@);
    true
}

/// Whether two components are the same.
fn same_component(a: &AddrComponent, b: &AddrComponent) -> (out: bool)
    ensures
        out == (component_view(*a) == component_view(*b)),
{
    match (a, b) {
        (AddrComponent::PeerId(x), AddrComponent::PeerId(y)) => same_bytes(x, y),
        (AddrComponent::Ip4(x), AddrComponent::Ip4(y)) => *x == *y,
        (AddrComponent::Ip6(x), AddrComponent::Ip6(y)) => *x == *y,
        (AddrComponent::Other(x), AddrComponent::Other(y)) => same_bytes(x, y),
        _ => false,
    }
}

/// The components of the multiaddress encoded by `addr` without its `/p2p/`
/// components, if the bytes encode one.
fn stripped(addr: &[u8]) -> (out: Option<Vec<AddrComponent>>)
    ensures
        match out {
            Some(cs) => stripped_components(addr@) == Some(components_view(cs@)),
            None => stripped_components(addr@) is None,
        },
{
    let cs = match decode_multiaddr(addr) {
        Some(cs) => cs,
        None => return None,
    };
    let ghost v = components_view(cs@);
    let mut out: Vec<AddrComponent> = Vec::new();
    let mut i: usize = 0;
    while i < cs.len()
        invariant
            0 <= i <= cs@.len(),
            v == components_view(cs@),
            components_view(out@) == strip_p2p(v.subrange(0, i as int)),
        decreases cs@.len() - i,
    {
        assert(v.subrange(0, i as int + 1).drop_last() =~= v.subrange(0, i as int));
        assert(v.subrange(0, i as int + 1).last() == component_view(cs@[i as int]));
        let ghost before = out@;
        if !matches!(&cs[i], AddrComponent::PeerId(_)) {
            let c = copy_component(&cs[i]);
            out.push(c);
            assert(components_view(out@) =~= components_view(before).push(component_view(c)));
        }
        assert(components_view(out@) =~= strip_p2p(v.subrange(0, i as int + 1)));
        i += 1;
    }
    assert(v.subrange(0, i as int) =~= v);
    Some(out)
}

/// Whether two lists of components are the same.
fn same_components(a: &Vec<AddrComponent>, b: &Vec<AddrComponent>) -> (out: bool)
    ensures
        out == (components_view(a@) == components_view(b@)),
{
    if a.len() != b.len() {
        return false;
    }
    let mut i: usize = 0;
    while i < a.len()
        invariant
            0 <= i <= a@.len(),
            a@.len() == b@.len(),
            forall|j: int| 0 <= j < i ==> component_view(#[trigger] a@[j]) == component_view(b@[j]),
        decreases a@.len() - i,
    {
        if !same_component(&a[i], &b[i]) {
            assert(components_view(a@)[i as int] != components_view(b@)[i as int]);
            return false;
        }
        i += 1;
    }
    assert(components_view(a@) =~= components_view(b@));
    true
}

/// Whether the connection's remote address `remote` is that of a persistent peer:
/// equal to one of `persistent` once the `/p2p/` components of both are left out.
/// Comparing the address the connection really came from, not one the peer
/// claims, keeps a peer from passing for a persistent one.
pub fn is_persistent_by_address(remote: &[u8], persistent: &Vec<Vec<u8>>) -> (out: bool)
    ensures
        out == persistent_by_address(remote@, persistent@.map_values(|a: Vec<u8>| a@)),
{
    let ghost ps = persistent@.map_values(|a: Vec<u8>| a@);
    let r = match stripped(remote) {
        Some(r) => r,
        None => return false,
    };
    let mut i: usize = 0;
    while i < persistent.len()
        invariant
            0 <= i <= persistent@.len(),
            ps == persistent@.map_values(|a: Vec<u8>| a@),
            stripped_components(remote@) == Some(components_view(r@)),
            forall|j: int| 0 <= j < i ==> stripped_components(remote@) != stripped_components(#[trigger] ps[j]),
        decreases persistent@.len() - i,
    {
        assert(ps[i as int] == persistent@[i as int]@);
        match stripped(persistent[i].as_slice()) {
            Some(p) => {
                if same_components(&r, &p) {
                    return true;
                }
            },
            None => {},
        }
        i += 1;
    }
    false
}

} // verus!
