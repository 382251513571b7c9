use malachite::network::addresses::peer_id_of_multiaddr;
use malachite::network::peers::{disconnects_removed_peer, Direction, PeerTable, PeerType};
use malachite::network::validators::{PersistentPeerError, ValidatorInfo};
use malachite::peer::PeerId;

fn id(n: u8) -> PeerId {
    PeerId::new(vec![n])
}

fn validator(address: &str, key: &[u8]) -> ValidatorInfo {
    ValidatorInfo { address: address.to_string(), public_key: key.to_vec(), voting_power: 1 }
}

fn maddr(text: &str) -> Vec<u8> {
    text.parse::<multiaddr::Multiaddr>().expect("valid multiaddr").to_vec()
}

/// A connection address made of the host `n`.
fn conn(n: u8) -> Option<Vec<u8>> {
    Some(maddr(&format!("/ip4/10.0.0.{}/tcp/1000", n)))
}

const PEER_A: &str = "QmYyQSo1c1Ym7orWxLYvCrM2EmxFTANf8wXmmE7DWjhx5N";
const PEER_B: &str = "QmcgpsyWgH8Y8ajJz1Cu72KnS5uo2Aa2LpzU7kinSupNKC";

fn persistent_addr() -> Vec<u8> {
    maddr(&format!("/ip4/10.0.0.200/tcp/26656/p2p/{}", PEER_A))
}

fn peer_a() -> PeerId {
    peer_id_of_multiaddr(&persistent_addr()).unwrap()
}

#[test]
fn new_peer_is_recorded_with_its_type() {
    let mut t = PeerTable::new(vec![persistent_addr()]);
    let none: Vec<Vec<u8>> = vec![];
    let ty = t.update_peer(id(1), conn(1), &none, b"n1".to_vec(), Some(Direction::Inbound));
    assert_eq!(ty, PeerType::new(false, false));
    // Persistent by the peer id its address names.
    let ty = t.update_peer(peer_a(), conn(2), &none, b"n2".to_vec(), None);
    assert_eq!(ty, PeerType::new(true, false));
    // Persistent by the address its connection has.
    let ty = t.update_peer(id(3), Some(maddr("/ip4/10.0.0.200/tcp/26656")), &none, b"n3".to_vec(), None);
    assert!(ty.is_persistent());
    let r = t.peer(&id(1)).unwrap();
    assert_eq!(r.address, conn(1).unwrap());
    assert!(r.consensus_public_key.is_none());
    assert!(t.peer(&id(4)).is_none());
}

#[test]
fn persistence_by_address_uses_the_connection_address() {
    let mut t = PeerTable::new(vec![persistent_addr()]);
    // A peer that only claims the persistent address does not become persistent.
    let claims = vec![maddr("/ip4/10.0.0.200/tcp/26656")];
    assert!(!t.update_peer(id(1), conn(1), &claims, b"n".to_vec(), None).is_persistent());
    // A connection from the persistent address, with another peer id in it, does.
    let from = maddr(&format!("/ip4/10.0.0.200/tcp/26656/p2p/{}", PEER_B));
    assert!(t.update_peer(id(2), Some(from), &claims, b"n".to_vec(), None).is_persistent());
    // Another port is another address.
    let other = Some(maddr("/ip4/10.0.0.200/tcp/26657"));
    assert!(!t.update_peer(id(3), other, &claims, b"n".to_vec(), None).is_persistent());
}

#[test]
fn recorded_address_falls_back_to_listen_addresses() {
    let mut t = PeerTable::new(vec![]);
    let listen = vec![maddr("/ip4/10.0.0.7/tcp/7"), maddr("/ip4/10.0.0.8/tcp/8")];
    t.update_peer(id(1), None, &listen, b"n".to_vec(), None);
    assert_eq!(t.peer(&id(1)).unwrap().address, listen[0]);
    t.update_peer(id(2), conn(9), &listen, b"n".to_vec(), None);
    assert_eq!(t.peer(&id(2)).unwrap().address, conn(9).unwrap());
    let none: Vec<Vec<u8>> = vec![];
    t.update_peer(id(3), None, &none, b"n".to_vec(), None);
    assert_eq!(t.peer(&id(3)).unwrap().address, maddr("/ip4/0.0.0.0/tcp/0"));
}

#[test]
fn runtime_persistent_peers_update_the_table() {
    let mut t = PeerTable::new(vec![]);
    let none: Vec<Vec<u8>> = vec![];
    assert!(!t.update_peer(peer_a(), conn(1), &none, b"n".to_vec(), None).is_persistent());
    assert_eq!(t.add_persistent_peer(persistent_addr()), Ok(()));
    assert_eq!(t.peer(&peer_a()).unwrap().peer_type, PeerType::new(true, false));
    assert_eq!(t.add_persistent_peer(persistent_addr()), Err(PersistentPeerError::AlreadyExists));
    assert_eq!(t.add_persistent_peer(maddr("/ip4/10.0.0.3/tcp/3")), Err(PersistentPeerError::PeerIdRequired));
    // A peer identified later by that id is persistent too.
    let mut u = PeerTable::new(vec![]);
    assert_eq!(u.add_persistent_peer(persistent_addr()), Ok(()));
    assert!(u.update_peer(peer_a(), conn(1), &none, b"n".to_vec(), None).is_persistent());

    assert_eq!(t.remove_persistent_peer(&persistent_addr(), Some(peer_a())), Ok(()));
    assert_eq!(t.peer(&peer_a()).unwrap().peer_type, PeerType::new(false, false));
    assert_eq!(t.remove_persistent_peer(&persistent_addr(), Some(peer_a())), Err(PersistentPeerError::NotFound));
    // Adding it again works once it was removed.
    assert_eq!(t.add_persistent_peer(persistent_addr()), Ok(()));
}

#[test]
fn outbound_address_is_preferred() {
    let mut t = PeerTable::new(vec![]);
    t.update_peer(id(1), Some(b"/out".to_vec()), &vec![], b"a".to_vec(), Some(Direction::Outbound));
    t.update_peer(id(1), Some(b"/in".to_vec()), &vec![], b"b".to_vec(), Some(Direction::Inbound));
    let r = t.peer(&id(1)).unwrap();
    assert_eq!(r.address, b"/out".to_vec());
    assert_eq!(r.connection_direction, Some(Direction::Outbound));
    assert_eq!(r.moniker, b"b".to_vec());
    t.update_peer(id(1), Some(b"/out2".to_vec()), &vec![], b"c".to_vec(), Some(Direction::Outbound));
    assert_eq!(t.peer(&id(1)).unwrap().address, b"/out2".to_vec());

    t.update_peer(id(2), Some(b"/x".to_vec()), &vec![], b"a".to_vec(), Some(Direction::Inbound));
    t.update_peer(id(2), Some(b"/y".to_vec()), &vec![], b"a".to_vec(), None);
    let r = t.peer(&id(2)).unwrap();
    assert_eq!(r.address, b"/y".to_vec());
    assert_eq!(r.connection_direction, None);
}

#[test]
fn proof_of_known_peer_classifies_it() {
    let mut t = PeerTable::new(vec![]);
    t.set_validators(vec![validator("val-a", b"ka")]);
    t.update_peer(id(1), Some(b"/a".to_vec()), &vec![], b"n".to_vec(), None);
    assert_eq!(t.record_verified_proof(&id(1), b"ka".to_vec()), Some(PeerType::new(false, true)));
    let r = t.peer(&id(1)).unwrap();
    assert_eq!(r.consensus_address.as_deref(), Some("val-a"));
    assert_eq!(r.consensus_public_key, Some(b"ka".to_vec()));
    t.update_peer(id(2), Some(b"/b".to_vec()), &vec![], b"n".to_vec(), None);
    // Nothing the peer is labelled with changes: no new type to report.
    assert_eq!(t.record_verified_proof(&id(2), b"kz".to_vec()), None);
    assert!(t.peer(&id(2)).unwrap().consensus_address.is_none());
    assert_eq!(t.peer(&id(2)).unwrap().consensus_public_key, Some(b"kz".to_vec()));
    // The same proof sent again changes nothing either.
    assert_eq!(t.record_verified_proof(&id(1), b"ka".to_vec()), None);
}

#[test]
fn proof_before_identify_is_applied_on_identify() {
    let mut t = PeerTable::new(vec![]);
    t.set_validators(vec![validator("val-a", b"ka")]);
    assert_eq!(t.record_verified_proof(&id(1), b"ka".to_vec()), None);
    assert!(t.peer(&id(1)).is_none());
    let ty = t.update_peer(id(1), Some(b"/a".to_vec()), &vec![], b"n".to_vec(), None);
    assert_eq!(ty, PeerType::new(false, true));
    assert_eq!(t.peer(&id(1)).unwrap().consensus_address.as_deref(), Some("val-a"));
}

#[test]
fn validator_set_change_reclassifies_proved_peers() {
    let mut t = PeerTable::new(vec![]);
    t.set_validators(vec![validator("val-a", b"ka")]);
    t.update_peer(id(1), Some(b"/a".to_vec()), &vec![], b"n".to_vec(), None);
    t.update_peer(id(2), Some(b"/b".to_vec()), &vec![], b"n".to_vec(), None);
    t.record_verified_proof(&id(1), b"ka".to_vec());
    let changed = t.set_validators(vec![validator("val-b", b"kb")]);
    assert_eq!(changed.len(), 1);
    assert_eq!(changed[0].1, PeerType::new(false, false));
    assert!(t.peer(&id(1)).unwrap().consensus_address.is_none());
    let changed = t.set_validators(vec![validator("val-a2", b"ka")]);
    assert_eq!(changed.len(), 1);
    assert_eq!(changed[0].1, PeerType::new(false, true));
    assert!(t.set_validators(vec![validator("val-a2", b"ka")]).is_empty());
    assert_eq!(t.peer(&id(1)).unwrap().consensus_address.as_deref(), Some("val-a2"));
    assert_eq!(t.peer(&id(2)).unwrap().peer_type, PeerType::new(false, false));
}

#[test]
fn persistent_status_follows_runtime_changes() {
    let mut t = PeerTable::new(vec![]);
    t.update_peer(id(1), Some(b"/a".to_vec()), &vec![], b"n".to_vec(), None);
    assert_eq!(t.mark_persistent(&id(1), true), Some(PeerType::new(true, false)));
    assert_eq!(t.mark_persistent(&id(1), false), Some(PeerType::new(false, false)));
    assert_eq!(t.mark_persistent(&id(9), true), None);
    // A listed peer is persistent once identified.
    assert!(t.update_peer(id(9), Some(b"/z".to_vec()), &vec![], b"n".to_vec(), None).is_persistent());
}

#[test]
fn removed_persistent_peer_disconnection() {
    assert!(disconnects_removed_peer(true, true, true));
    assert!(disconnects_removed_peer(true, false, false));
    assert!(!disconnects_removed_peer(true, false, true));
    assert!(!disconnects_removed_peer(false, true, false));
}

#[test]
fn proof_and_identify_commute() {
    let validators = vec![validator("val-a", b"ka")];
    let mut a = PeerTable::new(vec![]);
    a.set_validators(validators.clone());
    a.record_verified_proof(&id(1), b"ka".to_vec());
    let ta = a.update_peer(id(1), Some(b"/a".to_vec()), &vec![], b"n".to_vec(), Some(Direction::Inbound));
    let mut b = PeerTable::new(vec![]);
    b.set_validators(validators);
    let _ = b.update_peer(id(1), Some(b"/a".to_vec()), &vec![], b"n".to_vec(), Some(Direction::Inbound));
    let tb = b.record_verified_proof(&id(1), b"ka".to_vec()).unwrap();
    assert_eq!(ta, tb);
    let (ra, rb) = (a.peer(&id(1)).unwrap(), b.peer(&id(1)).unwrap());
    assert_eq!(ra.consensus_address, rb.consensus_address);
    assert_eq!(ra.consensus_public_key, rb.consensus_public_key);
    assert_eq!(ra.address, rb.address);
    assert_eq!(ra.connection_direction, rb.connection_direction);
}
