//! The validator proof protocol: a validator sends a signed proof of its identity
//! on the first connection to a peer, and a peer accepts at most one proof per
//! peer per session, disconnecting peers that send another or fail to send one.

use vstd::prelude::*;
use crate::peer::{PeerId, peer_views, contains_peer};

verus! {

/// The result of verifying a proof.
#[derive(Copy, Clone, Debug, PartialEq, Eq)]
pub enum VerificationResult {
    /// Proof received and verified successfully.
    Valid,
    /// Proof validation failed (decode, peer id mismatch, or invalid signature).
    Invalid,
}

impl VerificationResult {
    /// Whether the verification succeeded.
    pub fn is_verified(self) -> (out: bool)
        ensures
            out == (self is Valid),
    {
        match self {
            VerificationResult::Valid => true,
            VerificationResult::Invalid => false,
        }
    }
}

/// Errors of the validator proof protocol.
#[derive(Clone, Debug, PartialEq, Eq)]
pub enum Error {
    /// An I/O error, with its message.
    Io(String),
    /// The stream closed before a whole proof was read.
    UnexpectedEof,
}

/// Events of the validator proof protocol.
#[derive(Debug)]
pub enum Event {
    /// Our proof was sent to a peer.
    ProofSent { peer: PeerId },
    /// A proof was received from a peer.
    ProofReceived { peer: PeerId, proof_bytes: Vec<u8> },
    /// Our proof could not be sent to a peer (a later connection may retry).
    ProofSendFailed { peer: PeerId, error: Error },
    /// No valid proof could be read from a peer (the peer is disconnected).
    ProofReceiveFailed { peer: PeerId, error: Error },
}

/// What the protocol asks of the swarm after an event.
#[derive(Debug)]
pub enum ToSwarm {
    /// Report the event to the application.
    GenerateEvent(Event),
    /// Close every connection to the peer.
    CloseConnection(PeerId),
}

/// The default protocol name.
pub const DEFAULT_PROTOCOL: &'static str = "/malachitebft-validator-proof/v1";

/// The state of the validator proof protocol.
pub struct Behaviour {
    /// The protocol name.
    protocol: String,
    /// Our proof, if we are a validator.
    proof_bytes: Option<Vec<u8>>,
    /// The peers that sent a proof since their first connection; each once.
    proofs_received: Vec<PeerId>,
    /// Whether we listen for incoming proofs.
    listening: bool,
}

/// What handling `event` answers, given the peers `received` that already sent a proof.
pub open spec fn poll_outcome(received: Set<Seq<u8>>, event: Event) -> ToSwarm {
    match event {
        Event::ProofReceiveFailed { peer, error: _ } => ToSwarm::CloseConnection(peer),
        Event::ProofReceived { peer, proof_bytes: _ } => if received.contains(peer@) {
            ToSwarm::CloseConnection(peer)
        } else {
            ToSwarm::GenerateEvent(event)
        },
        _ => ToSwarm::GenerateEvent(event),
    }
}

/// The peers that sent a proof once `event` is handled.
pub open spec fn received_after(received: Set<Seq<u8>>, event: Event) -> Set<Seq<u8>> {
    match event {
        Event::ProofReceived { peer, proof_bytes: _ } => received.insert(peer@),
        _ => received,
    }
}

/// The peers that sent a proof once a connection to `peer` closed, with
/// `remaining` connections to it left.
pub open spec fn received_after_close(received: Set<Seq<u8>>, peer: Seq<u8>, remaining: usize) -> Set<Seq<u8>> {
    if remaining == 0 { received.remove(peer) } else { received }
}

impl Behaviour {
    /// The peers that sent a proof in their current session.
    pub closed spec fn received(&self) -> Set<Seq<u8>> {
        peer_views(self.proofs_received@).to_set()
    }

    /// Our proof, if set.
    pub closed spec fn own_proof(&self) -> Option<Seq<u8>> {
        match self.proof_bytes {
            Some(b) => Some(b@),
            None => None,
        }
    }

    /// Whether we listen for incoming proofs.
    pub closed spec fn is_listening(&self) -> bool {
        self.listening
    }

    /// The protocol name.
    pub closed spec fn protocol_name(&self) -> Seq<char> {
        self.protocol@
    }

    /// The state invariant: each peer is recorded at most once.
    pub closed spec fn wf(&self) -> bool {
        peer_views(self.proofs_received@).no_duplicates()
    }

    /// A behaviour for `protocol`, with no proof to send and none received.
    pub fn new(protocol: String) -> (out: Behaviour)
        ensures
            out.wf(),
            out.protocol_name() == protocol@,
            out.own_proof() is None,
            out.received() == Set::<Seq<u8>>::empty(),
            !out.is_listening(),
    {
        let out = Behaviour { protocol, proof_bytes: None, proofs_received: Vec::new(), listening: false };
        assert(out.received() =~= Set::<Seq<u8>>::empty());
        out
    }

    /// A behaviour for the default protocol name.
    pub fn with_default_protocol() -> (out: Behaviour)
        ensures
            out.wf(),
            out.own_proof() is None,
            out.received() == Set::<Seq<u8>>::empty(),
            !out.is_listening(),
    {
        Behaviour::new(DEFAULT_PROTOCOL.to_string())
    }

    /// The protocol name.
    pub fn protocol(&self) -> (out: &String)
        ensures
            out@ == self.protocol_name(),
    {
        &self.protocol
    }

    /// Sets the proof to send to peers.
    pub fn set_proof(&mut self, proof_bytes: Vec<u8>)
        requires
            old(self).wf(),
        ensures
            final(self).wf(),
            final(self).own_proof() == Some(proof_bytes@),
            final(self).received() == old(self).received(),
            final(self).is_listening() == old(self).is_listening(),
            final(self).protocol_name() == old(self).protocol_name(),
    {
        self.proof_bytes = Some(proof_bytes);
    }

    /// Whether we have a proof to send.
    pub fn has_proof(&self) -> (out: bool)
        ensures
            out == (self.own_proof() is Some),
    {
        self.proof_bytes.is_some()
    }

    /// The proof to send to `peer`, if we have one.
    pub fn send_proof(&self, peer_id: &PeerId) -> (out: Option<&Vec<u8>>)
        ensures
            match out {
                Some(b) => self.own_proof() == Some(b@),
                None => self.own_proof() is None,
            },
    {
        match &self.proof_bytes {
            Some(b) => Some(b),
            None => None,
        }
    }

    /// Starts listening for incoming proofs. Returns whether listening started now;
    /// it starts once, however many listen addresses come.
    pub fn start_listening(&mut self) -> (started: bool)
        requires
            old(self).wf(),
        ensures
            final(self).wf(),
            started == !old(self).is_listening(),
            final(self).is_listening(),
            final(self).received() == old(self).received(),
            final(self).own_proof() == old(self).own_proof(),
            final(self).protocol_name() == old(self).protocol_name(),
    {
        if self.listening {
            return false;
        }
        self.listening = true;
        true
    }

    /// Handles a new connection to `peer`, with `other_established` other
    /// connections to it already open. Returns the proof to send: ours, on the
    /// first connection only.
    pub fn on_connection_established(&self, peer_id: &PeerId, other_established: usize) -> (out: Option<&Vec<u8>>)
        ensures
            match out {
                Some(b) => other_established == 0 && self.own_proof() == Some(b@),
                None => other_established > 0 || self.own_proof() is None,
            },
    {
        if other_established > 0 {
            return None;
        }
        self.send_proof(peer_id)
    }

    /// Handles a closed connection to `peer`, with `remaining_established`
    /// connections to it left: when none is left, the peer may send a proof again.
    pub fn on_connection_closed(&mut self, peer_id: &PeerId, remaining_established: usize)
        requires
            old(self).wf(),
        ensures
            final(self).wf(),
            final(self).received() == received_after_close(old(self).received(), peer_id@, remaining_established),
            final(self).own_proof() == old(self).own_proof(),
            final(self).is_listening() == old(self).is_listening(),
            final(self).protocol_name() == old(self).protocol_name(),
    {
        if remaining_established > 0 {
            return;
        }
        let ghost old_v = peer_views(self.proofs_received@);
        let mut i: usize = 0;
        while i < self.proofs_received.len()
            invariant
                0 <= i <= self.proofs_received@.len(),
                *self == *old(self),
                old(self).wf(),
                remaining_established == 0,
                old_v == peer_views(old(self).proofs_received@),
                forall|j: int| 0 <= j < i ==> #[trigger] self.proofs_received@[j]@ != peer_id@,
            decreases self.proofs_received@.len() - i,
        {
            if self.proofs_received[i].same(peer_id) {
                let ghost pre = self.proofs_received@;
                self.proofs_received.remove(i);
                proof {
                    let v = peer_views(self.proofs_received@);
                    assert(self.proofs_received@ == pre.remove(i as int));
                    assert forall|k: int| 0 <= k < v.len() implies v[k] == old_v.remove(i as int)[k] by {
                        let k2 = if k < i { k } else { k + 1 };
                        assert(self.proofs_received@[k] == pre[k2]);
                        assert(old_v[k2] == pre[k2]@);
                    }
                    assert(v =~= old_v.remove(i as int));
                    assert(old_v.no_duplicates());
                    assert(old_v[i as int] == peer_id@);
                    assert forall|a: int, b: int| 0 <= a < b < v.len() implies v[a] != v[b] by {
                        let a2 = if a < i { a } else { a + 1 };
                        let b2 = if b < i { b } else { b + 1 };
                        assert(v[a] == old_v[a2]);
                        assert(v[b] == old_v[b2]);
                        assert(old_v[a2] != old_v[b2]);
                    }
                    assert forall|x: Seq<u8>| v.contains(x) <==> old_v.contains(x) && x != peer_id@ by {
                        if v.contains(x) {
                            let k = choose|k: int| 0 <= k < v.len() && v[k] == x;
                            let k2 = if k < i { k } else { k + 1 };
                            assert(old_v[k2] == x);
                            assert(k2 != i);
                            if k2 < i {
                                assert(old_v[k2] != old_v[i as int]);
                            } else {
                                assert(old_v[i as int] != old_v[k2]);
                            }
                        }
                        if old_v.contains(x) && x != peer_id@ {
                            let k = choose|k: int| 0 <= k < old_v.len() && old_v[k] == x;
                            assert(k != i);
                            let k2 = if k < i { k } else { k - 1 };
                            assert(v[k2] == x);
                        }
                    }
                    assert(v.to_set() =~= old_v.to_set().remove(peer_id@));
                }
                return;
            }
            i += 1;
        }
        proof {
            assert forall|x: Seq<u8>| old_v.contains(x) implies x != peer_id@ by {
                let k = choose|k: int| 0 <= k < old_v.len() && old_v[k] == x;
                assert(old_v[k] == self.proofs_received@[k]@);
            }
            assert(old_v.to_set() =~= old_v.to_set().remove(peer_id@));
        }
    }

    /// Records that `peer` sent a proof in its current session.
    pub fn record_proof_received(&mut self, peer_id: PeerId)
        requires
            old(self).wf(),
        ensures
            final(self).wf(),
            final(self).received() == old(self).received().insert(peer_id@),
            final(self).own_proof() == old(self).own_proof(),
            final(self).is_listening() == old(self).is_listening(),
            final(self).protocol_name() == old(self).protocol_name(),
    {
        let ghost old_v = peer_views(self.proofs_received@);
        if contains_peer(&self.proofs_received, &peer_id) {
            assert(old_v.to_set() =~= old_v.to_set().insert(peer_id@));
            return;
        }
        self.proofs_received.push(peer_id);
        proof {
            let v = peer_views(self.proofs_received@);
            assert(v =~= old_v.push(peer_id@));
            old_v.lemma_push_to_set_commute(peer_id@);
            assert forall|a: int, b: int| 0 <= a < b < v.len() implies v[a] != v[b] by {
                if b == v.len() - 1 {
                    assert(old_v.contains(v[a]));
                }
            }
        }
    }

    /// Whether `peer` sent a proof in its current session.
    pub fn proof_received_from(&self, peer_id: &PeerId) -> (out: bool)
        ensures
            out == self.received().contains(peer_id@),
    {
        contains_peer(&self.proofs_received, peer_id)
    }

    /// Handles an event of the protocol, if one is ready: a failure to receive a proof
    /// closes the connection, and so does a second proof from a peer in the same
    /// session; anything else is reported, and a first proof recorded.
    pub fn poll(&mut self, event: Option<Event>) -> (out: Option<ToSwarm>)
        requires
            old(self).wf(),
        ensures
            final(self).wf(),
            match event {
                None => out is None && final(self).received() == old(self).received(),
                Some(e) => out == Some(poll_outcome(old(self).received(), e))
                    && final(self).received() == received_after(old(self).received(), e),
            },
            final(self).own_proof() == old(self).own_proof(),
            final(self).is_listening() == old(self).is_listening(),
            final(self).protocol_name() == old(self).protocol_name(),
    {
        let event = match event {
            None => return None,
            Some(e) => e,
        };
        match event {
            Event::ProofReceiveFailed { peer, error } => Some(ToSwarm::CloseConnection(peer)),
            Event::ProofReceived { peer, proof_bytes } => {
                if self.proof_received_from(&peer) {
                    assert(self.received().insert(peer@) =~= self.received());
                    return Some(ToSwarm::CloseConnection(peer));
                }
                self.record_proof_received(peer.copy());
                Some(ToSwarm::GenerateEvent(Event::ProofReceived { peer, proof_bytes }))
            },
            other => Some(ToSwarm::GenerateEvent(other)),
        }
    }
}

/// A failure to read a proof from a peer closes the connection to that peer; the
/// first proof of a session, and the outcome of sending our own proof, are reported
/// as they are; only a proof received changes who sent one.
pub proof fn lemma_poll_outcomes(received: Set<Seq<u8>>, event: Event)
    ensures
        event matches Event::ProofReceiveFailed { peer, error: _ }
            ==> poll_outcome(received, event) == ToSwarm::CloseConnection(peer),
        event matches Event::ProofReceived { peer, proof_bytes: _ } && !received.contains(peer@)
            ==> poll_outcome(received, event) == ToSwarm::GenerateEvent(event),
        event is ProofSent || event is ProofSendFailed ==> poll_outcome(received, event) == ToSwarm::GenerateEvent(event),
        event matches Event::ProofReceived { peer, proof_bytes: _ }
            ==> received_after(received, event) == received.insert(peer@),
        !(event is ProofReceived) ==> received_after(received, event) == received,
{
}

/// A peer that sends a second proof in the same session is disconnected, whatever
/// either proof holds.
pub proof fn lemma_duplicate_proof_disconnects(received: Set<Seq<u8>>, peer: PeerId, first: Vec<u8>, second: Vec<u8>)
    ensures
        poll_outcome(
            received_after(received, Event::ProofReceived { peer, proof_bytes: first }),
            Event::ProofReceived { peer, proof_bytes: second },
        ) == ToSwarm::CloseConnection(peer),
{
}

/// Once the last connection to a peer closed, the next proof from that peer is
/// accepted again.
pub proof fn lemma_proof_accepted_after_full_disconnect(received: Set<Seq<u8>>, peer: PeerId, bytes: Vec<u8>)
    ensures
        poll_outcome(received_after_close(received, peer@, 0), Event::ProofReceived { peer, proof_bytes: bytes })
            == ToSwarm::GenerateEvent(Event::ProofReceived { peer, proof_bytes: bytes }),
{
}

/// While another connection to the peer stays open, closing one does not let the
/// peer send a second proof.
pub proof fn lemma_partial_close_keeps_anti_spam(received: Set<Seq<u8>>, peer: PeerId, remaining: usize, bytes: Vec<u8>)
    requires
        received.contains(peer@),
        remaining > 0,
    ensures
        poll_outcome(received_after_close(received, peer@, remaining), Event::ProofReceived { peer, proof_bytes: bytes })
            == ToSwarm::CloseConnection(peer),
{
}

} // verus!
