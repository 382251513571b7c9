use malachite::engine::consensus::{TimeoutConfig, TimeoutKind as StepKind, Timeouts as EngineTimeouts};
use malachite::engine::timeouts::{TimeoutKind, Timeouts};
use malachite::engine::driver::{accepts_proposal, accepts_proposal_part, ActorState, Phase, ValuePayload};
use malachite::engine::wal::{keeps_running, replay_entries, wal_action, WalAction, WalRequest};
use malachite::peer::PeerId;

#[test]
fn timeout_durations() {
    let t = Timeouts::default();
    assert_eq!(t.timeout_duration(TimeoutKind::Propose), t.timeout_propose);
    assert_eq!(t.timeout_duration(TimeoutKind::Prevote), t.timeout_prevote);
    assert_eq!(t.timeout_duration(TimeoutKind::Precommit), t.timeout_precommit);
}

#[test]
fn rebroadcast_is_sum_of_steps_and_has_no_delta() {
    let t = Timeouts::default();
    assert_eq!(t.timeout_duration(TimeoutKind::Rebroadcast), 5_000_000_000);
    assert_eq!(t.timeout_rebroadcast, 5_000_000_000);
    assert_eq!(t.delta_duration(TimeoutKind::Rebroadcast), None);
    assert_eq!(t.delta_duration(TimeoutKind::Propose), Some(500_000_000));
}

fn config() -> TimeoutConfig {
    TimeoutConfig {
        timeout_propose: 3_000,
        timeout_propose_delta: 500,
        timeout_prevote: 1_000,
        timeout_prevote_delta: 200,
        timeout_precommit: 1_000,
        timeout_precommit_delta: 300,
        timeout_commit: 50,
        timeout_step: 7_000,
    }
}

#[test]
fn elapsed_timeouts_grow_by_their_delta() {
    let mut t = EngineTimeouts::new(config());
    t.increase_timeout(StepKind::Propose);
    t.increase_timeout(StepKind::Propose);
    t.increase_timeout(StepKind::Prevote);
    t.increase_timeout(StepKind::Commit);
    assert_eq!(t.duration_for(StepKind::Propose), 4_000);
    assert_eq!(t.duration_for(StepKind::Prevote), 1_200);
    assert_eq!(t.duration_for(StepKind::Precommit), 1_000);
    assert_eq!(t.duration_for(StepKind::Commit), 50);
    assert_eq!(t.duration_for(StepKind::PrevoteTimeLimit), 7_000);
    assert_eq!(t.duration_for(StepKind::PrecommitTimeLimit), 7_000);
    t.reset(config());
    assert_eq!(t.duration_for(StepKind::Propose), 3_000);
}

#[test]
fn actor_phase_and_wal_writes() {
    let mut s = ActorState::new(config());
    assert_eq!(s.phase, Phase::Unstarted);
    s.start_height();
    assert!(s.writes_wal());
    s.begin_replay();
    assert!(!s.writes_wal());
    s.end_replay();
    assert_eq!(s.phase, Phase::Running);
}

#[test]
fn connected_peers_counted_once() {
    let mut s = ActorState::new(config());
    assert!(s.on_peer_connected(PeerId::new(vec![1])));
    assert!(!s.on_peer_connected(PeerId::new(vec![1])));
    assert!(s.on_peer_connected(PeerId::new(vec![2])));
    assert_eq!(s.connected_peers.len(), 2);
    assert!(s.on_peer_disconnected(&PeerId::new(vec![1])));
    assert!(!s.on_peer_disconnected(&PeerId::new(vec![1])));
    assert_eq!(s.connected_peers.len(), 1);
    assert!(s.connected_peers.contains(&PeerId::new(vec![2])));
}

#[test]
fn elapsed_timeouts_grow_and_report() {
    let mut s = ActorState::new(config());
    let before = s.timeouts.duration_for(StepKind::Prevote);
    assert!(s.on_timeout_elapsed(StepKind::Prevote));
    assert!(s.timeouts.duration_for(StepKind::Prevote) > before);
    assert!(!s.on_timeout_elapsed(StepKind::Propose));
    assert!(!s.on_timeout_elapsed(StepKind::Commit));
    assert!(s.on_timeout_elapsed(StepKind::PrecommitTimeLimit));
}

#[test]
fn payload_mode_filters_network_messages() {
    assert!(!accepts_proposal(ValuePayload::PartsOnly));
    assert!(accepts_proposal(ValuePayload::ProposalOnly));
    assert!(accepts_proposal(ValuePayload::ProposalAndParts));
    assert!(!accepts_proposal_part(ValuePayload::ProposalOnly));
    assert!(accepts_proposal_part(ValuePayload::PartsOnly));
    assert!(ValuePayload::ProposalAndParts.include_parts());
    assert!(!ValuePayload::ProposalOnly.include_parts());
    assert!(!ValuePayload::PartsOnly.include_proposal());
}

#[test]
fn wal_worker_decisions() {
    assert_eq!(wal_action(WalRequest::StartedHeight(5), 5), WalAction::Replay);
    assert_eq!(wal_action(WalRequest::StartedHeight(6), 5), WalAction::Restart(6));
    assert_eq!(wal_action(WalRequest::Append, 5), WalAction::Append);
    assert_eq!(wal_action(WalRequest::Flush, 5), WalAction::Flush);
    assert_eq!(wal_action(WalRequest::Shutdown, 5), WalAction::Stop);
    assert!(!keeps_running(WalAction::Stop));
    assert!(keeps_running(WalAction::Replay));
    assert_eq!(replay_entries(vec![Some(1), None, Some(3), None]), vec![1, 3]);
    assert!(replay_entries::<u8>(vec![]).is_empty());
}
