use malachite::network::i2p_transport::{I2pTransport, TransportError};
use malachite::network::ip_limits::{Behaviour as IpLimits, IpAddr, IpLimitExceeded};
use malachite::network::validator_proof::{Behaviour, Error, Event, ToSwarm, VerificationResult};
use malachite::network::validators::{
    add_persistent_peer, local_node_is_validator, remove_persistent_peer,
    validator_address_for_key, PersistentPeerError, ValidatorInfo,
};
use malachite::network::addresses::{ip_of_multiaddr, is_persistent_by_address, peer_id_of_multiaddr};
use malachite::peer::PeerId;

fn peer(n: u8) -> PeerId {
    PeerId::new(vec![7, n])
}

fn remote_addr() -> Vec<u8> {
    maddr("/ip4/10.0.0.1/tcp/1234")
}

fn track_pending(b: &mut IpLimits, conn: usize) {
    b.handle_pending_inbound_connection(conn, &remote_addr())
        .expect("connection should be accepted");
}

#[test]
fn counter_decremented_on_connection_closed() {
    let mut b = IpLimits::new(5);
    track_pending(&mut b, 1);
    assert_eq!(b.tracked_ip_count(), 1);
    b.on_connection_closed(1);
    assert_eq!(b.tracked_ip_count(), 0);
    assert_eq!(b.tracked_connection_count(), 0);
}

#[test]
fn counter_decremented_on_listen_failure() {
    let mut b = IpLimits::new(5);
    track_pending(&mut b, 1);
    assert_eq!(b.tracked_ip_count(), 1);
    b.on_listen_failure(1);
    assert_eq!(b.tracked_ip_count(), 0);
    assert_eq!(b.tracked_connection_count(), 0);
}

#[test]
fn connection_allowed_after_listen_failure() {
    let mut b = IpLimits::new(2);
    track_pending(&mut b, 1);
    track_pending(&mut b, 2);
    assert!(b.handle_pending_inbound_connection(3, &remote_addr()).is_err());
    b.on_listen_failure(1);
    assert!(b.handle_pending_inbound_connection(4, &remote_addr()).is_ok());
}

#[test]
fn untrack_unknown_connection_is_noop() {
    let mut b = IpLimits::new(5);
    b.on_listen_failure(999);
    assert_eq!(b.tracked_ip_count(), 0);
    assert_eq!(b.tracked_connection_count(), 0);
}

#[test]
fn limit_is_per_address_and_reports_count() {
    let mut b = IpLimits::new(1);
    track_pending(&mut b, 1);
    let err = b.handle_pending_inbound_connection(2, &remote_addr()).unwrap_err();
    assert_eq!(err, IpLimitExceeded { ip: IpAddr::V4(0x0a00_0001), count: 1 });
    assert!(b.handle_pending_inbound_connection(3, &maddr("/ip6/::1/udp/5/quic-v1")).is_ok());
    assert_eq!(b.connection_count(IpAddr::V6(1)), 1);
    assert_eq!(b.connection_count(IpAddr::V4(0x0a00_0001)), 1);
    // No IP address in the remote address: nothing is tracked.
    assert!(b.handle_pending_inbound_connection(4, &maddr("/dns4/example.com/tcp/5")).is_ok());
    assert_eq!(b.tracked_connection_count(), 2);
    // Closing a connection that another still shares keeps the address tracked.
    let mut c = IpLimits::new(3);
    track_pending(&mut c, 1);
    track_pending(&mut c, 2);
    c.on_connection_closed(1);
    assert_eq!(c.connection_count(IpAddr::V4(0x0a00_0001)), 1);
    assert_eq!(c.tracked_ip_count(), 1);
}

#[test]
fn zero_limit_refuses_everything() {
    let mut b = IpLimits::new(0);
    assert!(b.handle_pending_inbound_connection(1, &remote_addr()).is_err());
    assert_eq!(b.tracked_connection_count(), 0);
}

fn poll_behaviour(b: &mut Behaviour, event: Option<Event>) -> Option<ToSwarm> {
    b.poll(event)
}

#[test]
fn poll_returns_pending_when_no_events() {
    let mut b = Behaviour::with_default_protocol();
    assert!(poll_behaviour(&mut b, None).is_none());
}

#[test]
fn poll_proof_received_emits_event() {
    let mut b = Behaviour::with_default_protocol();
    let p = peer(1);
    let out = poll_behaviour(&mut b, Some(Event::ProofReceived { peer: p.copy(), proof_bytes: b"proof".to_vec() }));
    match out {
        Some(ToSwarm::GenerateEvent(Event::ProofReceived { peer: q, proof_bytes })) => {
            assert_eq!(q.bytes, p.bytes);
            assert_eq!(proof_bytes.as_slice(), b"proof");
        }
        other => panic!("expected GenerateEvent(ProofReceived), got {other:?}"),
    }
    assert!(b.proof_received_from(&p));
}

#[test]
fn poll_duplicate_proof_triggers_disconnect() {
    let mut b = Behaviour::with_default_protocol();
    let p = peer(1);
    let _ = poll_behaviour(&mut b, Some(Event::ProofReceived { peer: p.copy(), proof_bytes: b"proof".to_vec() }));
    match poll_behaviour(&mut b, Some(Event::ProofReceived { peer: p.copy(), proof_bytes: b"proof2".to_vec() })) {
        Some(ToSwarm::CloseConnection(q)) => assert_eq!(q.bytes, p.bytes),
        other => panic!("expected CloseConnection, got {other:?}"),
    }
}

#[test]
fn poll_different_peers_both_accepted() {
    let mut b = Behaviour::with_default_protocol();
    let a = peer(1);
    let c = peer(2);
    assert!(matches!(
        poll_behaviour(&mut b, Some(Event::ProofReceived { peer: a.copy(), proof_bytes: b"a".to_vec() })),
        Some(ToSwarm::GenerateEvent(Event::ProofReceived { .. }))
    ));
    assert!(matches!(
        poll_behaviour(&mut b, Some(Event::ProofReceived { peer: c.copy(), proof_bytes: b"b".to_vec() })),
        Some(ToSwarm::GenerateEvent(Event::ProofReceived { .. }))
    ));
    assert!(b.proof_received_from(&a));
    assert!(b.proof_received_from(&c));
}

#[test]
fn poll_receive_failure_triggers_disconnect() {
    let mut b = Behaviour::with_default_protocol();
    let p = peer(1);
    match poll_behaviour(&mut b, Some(Event::ProofReceiveFailed { peer: p.copy(), error: Error::UnexpectedEof })) {
        Some(ToSwarm::CloseConnection(q)) => assert_eq!(q.bytes, p.bytes),
        other => panic!("expected CloseConnection, got {other:?}"),
    }
}

#[test]
fn poll_send_failure_emits_event() {
    let mut b = Behaviour::with_default_protocol();
    assert!(matches!(
        poll_behaviour(&mut b, Some(Event::ProofSendFailed { peer: peer(1), error: Error::Io("test".to_string()) })),
        Some(ToSwarm::GenerateEvent(Event::ProofSendFailed { .. }))
    ));
}

#[test]
fn poll_proof_sent_emits_event() {
    let mut b = Behaviour::with_default_protocol();
    let p = peer(1);
    match poll_behaviour(&mut b, Some(Event::ProofSent { peer: p.copy() })) {
        Some(ToSwarm::GenerateEvent(Event::ProofSent { peer: q })) => assert_eq!(q.bytes, p.bytes),
        other => panic!("expected GenerateEvent(ProofSent), got {other:?}"),
    }
}

#[test]
fn send_proof_returns_false_without_proof() {
    let b = Behaviour::with_default_protocol();
    assert!(b.send_proof(&peer(1)).is_none());
}

#[test]
fn last_connection_close_clears_proof_state() {
    let mut b = Behaviour::with_default_protocol();
    let p = peer(1);
    let _ = b.on_connection_established(&p, 0);
    b.record_proof_received(p.copy());
    b.on_connection_closed(&p, 0);
    assert!(!b.proof_received_from(&p));
}

#[test]
fn partial_close_preserves_proof_state() {
    let mut b = Behaviour::with_default_protocol();
    let p = peer(1);
    let _ = b.on_connection_established(&p, 0);
    let _ = b.on_connection_established(&p, 1);
    b.record_proof_received(p.copy());
    b.on_connection_closed(&p, 1);
    assert!(b.proof_received_from(&p));
}

#[test]
fn anti_spam_reset_after_full_disconnect() {
    let mut b = Behaviour::with_default_protocol();
    let p = peer(1);
    let _ = b.on_connection_established(&p, 0);
    let _ = poll_behaviour(&mut b, Some(Event::ProofReceived { peer: p.copy(), proof_bytes: b"proof".to_vec() }));
    assert!(b.proof_received_from(&p));
    b.on_connection_closed(&p, 0);
    assert!(!b.proof_received_from(&p));
    let _ = b.on_connection_established(&p, 0);
    assert!(matches!(
        poll_behaviour(&mut b, Some(Event::ProofReceived { peer: p.copy(), proof_bytes: b"proof".to_vec() })),
        Some(ToSwarm::GenerateEvent(Event::ProofReceived { .. }))
    ));
}

#[test]
fn first_connection_sends_proof() {
    let mut b = Behaviour::with_default_protocol();
    b.set_proof(b"proof".to_vec());
    let p = peer(100);
    assert_eq!(b.on_connection_established(&p, 0).map(|v| v.clone()), Some(b"proof".to_vec()));
    assert!(b.has_proof());
}

#[test]
fn later_connections_do_not_resend_proof() {
    let mut b = Behaviour::with_default_protocol();
    b.set_proof(b"proof".to_vec());
    assert!(b.on_connection_established(&peer(1), 1).is_none());
    assert!(b.start_listening());
    assert!(!b.start_listening());
    assert_eq!(b.protocol(), "/malachitebft-validator-proof/v1");
}

#[test]
fn verification_result_is_verified() {
    assert!(VerificationResult::Valid.is_verified());
    assert!(!VerificationResult::Invalid.is_verified());
}

fn validator(address: &str, key: &[u8]) -> ValidatorInfo {
    ValidatorInfo { address: address.to_string(), public_key: key.to_vec(), voting_power: 1 }
}

#[test]
fn address_lookup_by_public_key() {
    let v = validator("addr-a", &[1, 2, 3]);
    assert_eq!(v.address_for_public_key(&[1, 2, 3]), Some("addr-a"));
    assert_eq!(v.address_for_public_key(&[1, 2]), None);
    let set = vec![validator("addr-a", &[1]), validator("addr-b", &[2])];
    assert_eq!(validator_address_for_key(&set, &[2]), Some("addr-b".to_string()));
    assert_eq!(validator_address_for_key(&set, &[3]), None);
    assert!(local_node_is_validator(&Some("addr-b".to_string()), &set));
    assert!(!local_node_is_validator(&Some("addr-c".to_string()), &set));
    assert!(!local_node_is_validator(&None, &set));
}

fn maddr(text: &str) -> Vec<u8> {
    text.parse::<multiaddr::Multiaddr>().expect("valid multiaddr").to_vec()
}

const PEER_A: &str = "QmYyQSo1c1Ym7orWxLYvCrM2EmxFTANf8wXmmE7DWjhx5N";
const PEER_B: &str = "QmcgpsyWgH8Y8ajJz1Cu72KnS5uo2Aa2LpzU7kinSupNKC";

#[test]
fn persistent_peers_add_and_remove() {
    let a1 = maddr(&format!("/ip4/127.0.0.1/tcp/1/p2p/{PEER_A}"));
    let a2 = maddr(&format!("/ip4/127.0.0.1/tcp/2/p2p/{PEER_B}"));
    let mut addrs: Vec<Vec<u8>> = Vec::new();
    let id = add_persistent_peer(&mut addrs, a1.clone()).unwrap();
    let expected: multiaddr::PeerId = PEER_A.parse().unwrap();
    assert_eq!(id.bytes, expected.to_bytes());
    assert_eq!(add_persistent_peer(&mut addrs, a1.clone()).map(|_| ()), Err(PersistentPeerError::AlreadyExists));
    assert!(add_persistent_peer(&mut addrs, a2.clone()).is_ok());
    assert_eq!(addrs.len(), 2);
    assert_eq!(remove_persistent_peer(&mut addrs, &a1), Ok(()));
    assert_eq!(remove_persistent_peer(&mut addrs, &a1), Err(PersistentPeerError::NotFound));
    assert_eq!(addrs, vec![a2]);
}

#[test]
fn test_add_persistent_peer_requires_peer_id() {
    let addr_without_peer_id = maddr("/ip4/127.0.0.1/udp/37001/quic-v1");
    let mut addrs: Vec<Vec<u8>> = Vec::new();
    let result = add_persistent_peer(&mut addrs, addr_without_peer_id);
    assert_eq!(result.map(|_| ()), Err(PersistentPeerError::PeerIdRequired));
    assert!(addrs.is_empty());
    assert_eq!(add_persistent_peer(&mut addrs, b"not a multiaddr".to_vec()).map(|_| ()),
        Err(PersistentPeerError::PeerIdRequired));
}

#[test]
fn i2p_transport_rejects_every_address() {
    let mut t = I2pTransport::new();
    let addr = b"/ip4/127.0.0.1/tcp/1".to_vec();
    assert_eq!(t.listen_on(addr.clone()), Err(TransportError::MultiaddrNotSupported(addr.clone())));
    assert_eq!(t.dial(addr.clone()), Err(TransportError::MultiaddrNotSupported(addr)));
    assert!(!t.remove_listener(0));
}

#[test]
fn peer_id_is_read_from_the_p2p_component() {
    let expected: multiaddr::PeerId = PEER_A.parse().unwrap();
    let id = peer_id_of_multiaddr(&maddr(&format!("/dns4/example.com/tcp/5/p2p/{PEER_A}"))).unwrap();
    assert_eq!(id.bytes, expected.to_bytes());
    assert!(peer_id_of_multiaddr(&maddr("/ip4/10.0.0.1/tcp/5")).is_none());
}

#[test]
fn ip_is_read_from_the_first_ip_component() {
    assert_eq!(ip_of_multiaddr(&maddr("/ip4/10.0.0.1/tcp/5")), Some(IpAddr::V4(0x0a00_0001)));
    assert_eq!(ip_of_multiaddr(&maddr("/ip6/::1/tcp/5")), Some(IpAddr::V6(1)));
    assert_eq!(ip_of_multiaddr(&maddr("/dns4/example.com/tcp/5")), None);
    assert_eq!(ip_of_multiaddr(b"not a multiaddr"), None);
}

#[test]
fn persistence_by_address_ignores_peer_ids() {
    let persistent = vec![maddr(&format!("/ip4/10.0.0.1/tcp/5/p2p/{PEER_A}")), maddr("/ip4/10.0.0.2/tcp/6")];
    assert!(is_persistent_by_address(&maddr("/ip4/10.0.0.1/tcp/5"), &persistent));
    assert!(is_persistent_by_address(&maddr(&format!("/ip4/10.0.0.2/tcp/6/p2p/{PEER_B}")), &persistent));
    assert!(!is_persistent_by_address(&maddr("/ip4/10.0.0.1/tcp/6"), &persistent));
    assert!(!is_persistent_by_address(&maddr("/ip4/10.0.0.3/tcp/5"), &persistent));
    assert!(!is_persistent_by_address(b"junk", &persistent));
}
