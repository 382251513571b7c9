//! The consensus actor's bookkeeping around the state machine: its phase, the
//! peers it is connected to, which network messages the payload mode lets through,
//! when the write-ahead log is written, and the timeouts that grow as they elapse.

use vstd::prelude::*;
use crate::engine::consensus::{TimeoutConfig, TimeoutKind, Timeouts, can_increase, increased};
use crate::peer::{PeerId, PeerSet};

verus! {

/// Where the actor stands.
#[derive(Copy, Clone, Debug, PartialEq, Eq)]
pub enum Phase {
    /// No height was started yet.
    Unstarted,
    /// Consensus runs.
    Running,
    /// Entries of the write-ahead log are being replayed.
    Recovering,
}

/// How proposed values travel: as proposal messages, as streamed parts, or both.
#[derive(Copy, Clone, Debug, PartialEq, Eq)]
pub enum ValuePayload {
    ProposalOnly,
    PartsOnly,
    ProposalAndParts,
}

impl ValuePayload {
    /// Whether values travel in proposal messages.
    pub fn include_proposal(&self) -> (out: bool)
        ensures
            out == !(*self is PartsOnly),
    {
        !matches!(self, ValuePayload::PartsOnly)
    }

    /// Whether values travel as streamed parts.
    pub fn include_parts(&self) -> (out: bool)
        ensures
            out == !(*self is ProposalOnly),
    {
        !matches!(self, ValuePayload::ProposalOnly)
    }

    /// Whether values travel as streamed parts alone.
    pub fn parts_only(&self) -> (out: bool)
        ensures
            out == (*self is PartsOnly),
    {
        matches!(self, ValuePayload::PartsOnly)
    }

    /// Whether values travel in proposal messages alone.
    pub fn proposal_only(&self) -> (out: bool)
        ensures
            out == (*self is ProposalOnly),
    {
        matches!(self, ValuePayload::ProposalOnly)
    }
}

/// The consensus actor's own state beside the state machine.
pub struct ActorState {
    pub phase: Phase,
    pub connected_peers: PeerSet,
    pub timeouts: Timeouts,
}

impl ActorState {
    /// The state before any height: no peer, timeouts as configured.
    pub fn new(config: TimeoutConfig) -> (out: ActorState)
        ensures
            out.phase == Phase::Unstarted,
            out.connected_peers.wf(),
            out.connected_peers@ == Set::<Seq<u8>>::empty(),
            out.timeouts.config_spec() == config,
    {
        ActorState {
            phase: Phase::Unstarted,
            connected_peers: PeerSet::new(),
            timeouts: Timeouts::new(config),
        }
    }

    /// A height starts: consensus runs.
    pub fn start_height(&mut self)
        ensures
            final(self).phase == Phase::Running,
            final(self).connected_peers == old(self).connected_peers,
            final(self).timeouts == old(self).timeouts,
    {
        self.phase = Phase::Running;
    }

    /// Entries of the write-ahead log were found for the started height: their
    /// replay begins.
    pub fn begin_replay(&mut self)
        ensures
            final(self).phase == Phase::Recovering,
            final(self).connected_peers == old(self).connected_peers,
            final(self).timeouts == old(self).timeouts,
    {
        self.phase = Phase::Recovering;
    }

    /// The replay of the write-ahead log is over, whether it succeeded or not.
    pub fn end_replay(&mut self)
        ensures
            final(self).phase == Phase::Running,
            final(self).connected_peers == old(self).connected_peers,
            final(self).timeouts == old(self).timeouts,
    {
        self.phase = Phase::Running;
    }

    /// Whether entries are appended to and flushed to the write-ahead log: not while
    /// it is being replayed.
    pub fn writes_wal(&self) -> (out: bool)
        ensures
            out == !(self.phase is Recovering),
    {
        !matches!(self.phase, Phase::Recovering)
    }

    /// A peer connected; `true` when it is new, and only then is it counted.
    pub fn on_peer_connected(&mut self, peer: PeerId) -> (out: bool)
        requires
            old(self).connected_peers.wf(),
        ensures
            final(self).connected_peers.wf(),
            out == !old(self).connected_peers@.contains(peer@),
            final(self).connected_peers@ == old(self).connected_peers@.insert(peer@),
            final(self).phase == old(self).phase,
            final(self).timeouts == old(self).timeouts,
    {
        self.connected_peers.insert(peer)
    }

    /// A peer disconnected; `true` when it was connected.
    pub fn on_peer_disconnected(&mut self, peer: &PeerId) -> (out: bool)
        requires
            old(self).connected_peers.wf(),
        ensures
            final(self).connected_peers.wf(),
            out == old(self).connected_peers@.contains(peer@),
            final(self).connected_peers@ == old(self).connected_peers@.remove(peer@),
            final(self).phase == old(self).phase,
            final(self).timeouts == old(self).timeouts,
    {
        self.connected_peers.remove(peer)
    }

    /// A scheduled timeout elapsed: its step's timeout grows for the next round.
    /// Returns whether the step is one whose expiry is worth reporting with the
    /// state of the round: the prevote and precommit steps and their time limits.
    pub fn on_timeout_elapsed(&mut self, kind: TimeoutKind) -> (out: bool)
        requires
            can_increase(old(self).timeouts.config_spec(), kind),
        ensures
            final(self).timeouts.config_spec() == increased(old(self).timeouts.config_spec(), kind),
            out == (kind is Prevote || kind is Precommit || kind is PrevoteTimeLimit
                || kind is PrecommitTimeLimit),
            final(self).phase == old(self).phase,
            final(self).connected_peers == old(self).connected_peers,
    {
        self.timeouts.increase_timeout(kind);
        matches!(
            kind,
            TimeoutKind::Prevote | TimeoutKind::Precommit | TimeoutKind::PrevoteTimeLimit
                | TimeoutKind::PrecommitTimeLimit
        )
    }
}

/// Whether a proposal message from the network is handled: not when values travel
/// as parts alone.
pub fn accepts_proposal(payload: ValuePayload) -> (out: bool)
    ensures
        out == !(payload is PartsOnly),
{
    !payload.parts_only()
}

/// Whether a streamed proposal part from the network is handed to the host: not
/// when values travel in proposal messages alone.
pub fn accepts_proposal_part(payload: ValuePayload) -> (out: bool)
    ensures
        out == !(payload is ProposalOnly),
{
    !payload.proposal_only()
}

/// A peer that connects and then disconnects leaves the connected set as it was
/// when it was not connected before.
pub proof fn lemma_connect_then_disconnect(peers: Set<Seq<u8>>, peer: Seq<u8>)
    requires
        !peers.contains(peer),
    ensures
        peers.insert(peer).remove(peer) == peers,
{
    assert(peers.insert(peer).remove(peer) =~= peers);
}

} // verus!
