use malachite::peer::PeerId;
use malachite::sync::handle::{handle, HeightStartType, Input};
use malachite::sync::ranges::{
    clamp_request_range, find_next_uncovered_height, find_next_uncovered_range_from,
    validate_request_range, validate_value_response_heights, HeightRange, PendingRequest,
    RawDecidedValue, ValueResponse,
};
use malachite::sync::state::{Effect, PeerOutcome, PeerStatus, SyncConfig, SyncState};

fn peer(n: u8) -> PeerId {
    PeerId::new(vec![n, n, n])
}

fn range(start: u64, end: u64) -> HeightRange {
    HeightRange::new(start, end)
}

fn pending(id: u64, start: u64, end: u64, p: PeerId) -> PendingRequest {
    PendingRequest { id, range: range(start, end), peer: p, excluded_peers: Vec::new() }
}

fn pending_from(ranges: &[(u64, u64)]) -> Vec<PendingRequest> {
    ranges
        .iter()
        .enumerate()
        .map(|(i, &(s, e))| pending(i as u64 + 1, s, e, peer(i as u8 + 1)))
        .collect()
}

fn make_raw_value(height: u64) -> RawDecidedValue {
    RawDecidedValue::new(height, b"test".to_vec(), Vec::new())
}

fn make_test_state() -> SyncState {
    let mut state = SyncState::new(42, SyncConfig::default_config());
    state.next_request_id = 100;
    state
}

fn status(p: PeerId, tip: u64, min: u64) -> PeerStatus {
    PeerStatus::new(p, tip, min)
}

fn drive_input(state: &mut SyncState, input: Input) -> Vec<Effect> {
    let mut effects = Vec::new();
    handle(state, input, &mut effects);
    effects
}

fn sync_height_uncovered(state: &SyncState) -> bool {
    state.pending_requests.iter().all(|e| !e.range.contains(state.sync_height))
}

struct RangeTestCase {
    name: &'static str,
    initial_height: u64,
    max_size: u64,
    pending_ranges: &'static [(u64, u64)],
    expected_start: u64,
    expected_end: u64,
}

struct HeightTestCase {
    name: &'static str,
    initial_height: u64,
    pending_ranges: &'static [(u64, u64)],
    expected_height: u64,
}

#[test]
fn test_find_next_uncovered_range_from_table() {
    let test_cases = [
        RangeTestCase { name: "no pending requests", initial_height: 10, max_size: 5, pending_ranges: &[], expected_start: 10, expected_end: 14 },
        RangeTestCase { name: "max size one", initial_height: 10, max_size: 1, pending_ranges: &[], expected_start: 10, expected_end: 10 },
        RangeTestCase { name: "with blocking request", initial_height: 10, max_size: 5, pending_ranges: &[(12, 15)], expected_start: 10, expected_end: 11 },
        RangeTestCase { name: "zero max size becomes one", initial_height: 10, max_size: 0, pending_ranges: &[], expected_start: 10, expected_end: 10 },
        RangeTestCase { name: "range starts immediately after", initial_height: 15, max_size: 5, pending_ranges: &[(16, 20)], expected_start: 15, expected_end: 15 },
        RangeTestCase { name: "height zero with range starting at one", initial_height: 0, max_size: 3, pending_ranges: &[(1, 5)], expected_start: 0, expected_end: 0 },
        RangeTestCase { name: "sync height just at range end", initial_height: 11, max_size: 4, pending_ranges: &[(5, 10)], expected_start: 11, expected_end: 14 },
        RangeTestCase { name: "fill gap between ranges", initial_height: 12, max_size: 6, pending_ranges: &[(5, 10), (20, 25)], expected_start: 12, expected_end: 17 },
    ];
    for case in test_cases {
        let pending_requests = pending_from(case.pending_ranges);
        let result = find_next_uncovered_range_from(case.initial_height, case.max_size, &pending_requests);
        assert_eq!(result, range(case.expected_start, case.expected_end), "Test case '{}' failed", case.name);
    }
}

#[test]
fn test_find_next_uncovered_range_from_recovery_cases() {
    let test_cases = [
        RangeTestCase { name: "initial height inside pending range, recovers past it", initial_height: 12, max_size: 3, pending_ranges: &[(10, 15)], expected_start: 16, expected_end: 18 },
        RangeTestCase { name: "initial height equals range start, recovers past it", initial_height: 15, max_size: 5, pending_ranges: &[(15, 20)], expected_start: 21, expected_end: 25 },
        RangeTestCase { name: "initial height equals range end, recovers past it", initial_height: 15, max_size: 3, pending_ranges: &[(10, 15)], expected_start: 16, expected_end: 18 },
        RangeTestCase { name: "multiple consecutive ranges, recovers past all", initial_height: 16, max_size: 3, pending_ranges: &[(10, 15), (16, 20)], expected_start: 21, expected_end: 23 },
        RangeTestCase { name: "initial height zero inside range starting at zero", initial_height: 0, max_size: 3, pending_ranges: &[(0, 5)], expected_start: 6, expected_end: 8 },
    ];
    for case in test_cases {
        let pending_requests = pending_from(case.pending_ranges);
        let result = find_next_uncovered_range_from(case.initial_height, case.max_size, &pending_requests);
        assert_eq!(result, range(case.expected_start, case.expected_end), "Test case '{}' failed", case.name);
    }
}

#[test]
fn test_find_next_uncovered_height_table() {
    let test_cases = [
        HeightTestCase { name: "no pending requests", initial_height: 10, pending_ranges: &[], expected_height: 10 },
        HeightTestCase { name: "starting height covered", initial_height: 12, pending_ranges: &[(10, 15)], expected_height: 16 },
        HeightTestCase { name: "starting height match request start", initial_height: 10, pending_ranges: &[(10, 15)], expected_height: 16 },
        HeightTestCase { name: "starting height match request end", initial_height: 15, pending_ranges: &[(10, 15)], expected_height: 16 },
        HeightTestCase { name: "starting height just before request start", initial_height: 9, pending_ranges: &[(10, 15)], expected_height: 9 },
        HeightTestCase { name: "multiple consecutive ranges", initial_height: 10, pending_ranges: &[(10, 15), (16, 20)], expected_height: 21 },
        HeightTestCase { name: "multiple consecutive ranges with a gap", initial_height: 10, pending_ranges: &[(10, 15), (16, 20), (24, 30)], expected_height: 21 },
        HeightTestCase { name: "starting height covered multiple", initial_height: 12, pending_ranges: &[(10, 15), (15, 20)], expected_height: 21 },
    ];
    for case in test_cases {
        let pending_requests = pending_from(case.pending_ranges);
        let result = find_next_uncovered_height(case.initial_height, &pending_requests);
        assert_eq!(result, case.expected_height, "Test case '{}' failed", case.name);
    }
}

#[test]
fn test_validate_request_range() {
    let tip_height = 20;
    let batch_size = 5;
    assert!(validate_request_range(&range(15, 19), tip_height, batch_size));
    assert!(!validate_request_range(&range(18, 17), tip_height, batch_size));
    assert!(!validate_request_range(&range(21, 25), tip_height, batch_size));
    assert!(!validate_request_range(&range(10, 16), tip_height, batch_size));
    assert!(!validate_request_range(&range(0, u64::MAX), tip_height, batch_size));
}

#[test]
fn test_clamp_request_range() {
    let tip_height = 20;
    let r = range(15, 18);
    assert_eq!(clamp_request_range(&r, tip_height), r);
    assert_eq!(clamp_request_range(&range(18, 25), tip_height), range(18, tip_height));
    assert_eq!(clamp_request_range(&range(tip_height, 25), tip_height), range(tip_height, tip_height));
}

#[test]
fn test_validate_value_response_heights() {
    let response = ValueResponse::new(5, vec![make_raw_value(5), make_raw_value(6), make_raw_value(7)]);
    assert!(validate_value_response_heights(&response));
    let response = ValueResponse::new(1, vec![make_raw_value(1)]);
    assert!(validate_value_response_heights(&response));
    let response = ValueResponse::new(1, vec![]);
    assert!(validate_value_response_heights(&response));
    let response = ValueResponse::new(1, vec![make_raw_value(1), make_raw_value(2), make_raw_value(5)]);
    assert!(!validate_value_response_heights(&response));
    let response = ValueResponse::new(1, vec![make_raw_value(1), make_raw_value(1), make_raw_value(2)]);
    assert!(!validate_value_response_heights(&response));
    let response = ValueResponse::new(1, vec![make_raw_value(2), make_raw_value(3), make_raw_value(4)]);
    assert!(!validate_value_response_heights(&response));
    let response = ValueResponse::new(1, vec![make_raw_value(3), make_raw_value(2), make_raw_value(1)]);
    assert!(!validate_value_response_heights(&response));
}

#[test]
fn test_non_contiguous_response_rejected_by_sync_handler() {
    let peer_a = peer(1);
    let peer_b = peer(2);
    let mut state = make_test_state();
    state.consensus_height = 1;
    state.tip_height = 0;
    state.sync_height = 11;
    state.started = true;
    state.pending_requests.push(pending(1, 1, 10, peer(1)));
    state.update_status(status(peer(2), 20, 1));

    let heights = [1u64, 2, 5, 6, 7, 8, 9, 10, 11, 12];
    let response = ValueResponse::new(1, heights.iter().map(|&h| make_raw_value(h)).collect());
    let effects = drive_input(&mut state, Input::ValueResponse(1, peer_a, Some(response)));

    let mut saw_send_request = false;
    let mut saw_process_response = false;
    for e in &effects {
        match e {
            Effect::SendValueRequest(_, p, _) => {
                saw_send_request = true;
                assert_eq!(p.bytes, peer_b.bytes);
            }
            Effect::ProcessValueResponse(..) => saw_process_response = true,
            _ => {}
        }
    }
    assert!(saw_send_request, "Expected a re-request to another peer after non-contiguous response");
    assert!(!saw_process_response, "Non-contiguous response should NOT have been forwarded to consensus");
}

#[test]
fn test_on_decided_advances_sync_height_when_equal_to_new_tip() {
    let mut state = make_test_state();
    state.tip_height = 9;
    state.sync_height = 10;
    drive_input(&mut state, Input::Decided(10));
    assert_eq!(state.tip_height, 10);
    assert_eq!(state.sync_height, 11);
}

#[test]
fn test_on_decided_advances_sync_height_when_below_new_tip() {
    let mut state = make_test_state();
    state.tip_height = 9;
    state.sync_height = 8;
    drive_input(&mut state, Input::Decided(10));
    assert_eq!(state.tip_height, 10);
    assert_eq!(state.sync_height, 11);
    assert!(state.sync_height > state.tip_height);
}

#[test]
fn test_on_decided_preserves_sync_height_when_already_ahead() {
    let mut state = make_test_state();
    state.tip_height = 9;
    state.sync_height = 20;
    drive_input(&mut state, Input::Decided(10));
    assert_eq!(state.tip_height, 10);
    assert_eq!(state.sync_height, 20);
}

#[test]
fn test_on_decided_skips_pending_requests() {
    let mut state = make_test_state();
    state.started = true;
    state.tip_height = 109;
    state.sync_height = 110;
    state.pending_requests.push(pending(1, 110, 120, peer(1)));
    drive_input(&mut state, Input::Decided(110));
    drive_input(&mut state, Input::Decided(111));
    drive_input(&mut state, Input::Decided(112));
    assert_eq!(state.tip_height, 112);
    for entry in &state.pending_requests {
        assert!(
            !entry.range.contains(state.sync_height),
            "sync_height ({}) inside pending request range {}..={}",
            state.sync_height,
            entry.range.start,
            entry.range.end,
        );
    }
}

#[test]
fn test_on_started_height_skips_pending_requests() {
    let mut state = make_test_state();
    state.started = true;
    state.tip_height = 99;
    state.sync_height = 121;
    state.pending_requests.push(pending(1, 100, 110, peer(1)));
    state.pending_requests.push(pending(2, 111, 120, peer(2)));
    state.peers.push(status(peer(1), 120, 1));

    drive_input(&mut state, Input::SyncRequestTimedOut(1, peer(1), range(100, 110)));
    for h in 100..=114 {
        drive_input(&mut state, Input::Decided(h));
    }
    drive_input(&mut state, Input::StartedHeight(115, HeightStartType::Start));

    for entry in &state.pending_requests {
        assert!(
            !entry.range.contains(state.sync_height),
            "sync_height ({}) inside pending request range {}..={}",
            state.sync_height,
            entry.range.start,
            entry.range.end,
        );
    }
}

#[test]
fn test_on_started_height_restart_clears_pending_and_resets() {
    let mut state = make_test_state();
    state.started = true;
    state.tip_height = 9;
    state.sync_height = 15;
    state.pending_requests.push(pending(1, 10, 14, peer(1)));
    drive_input(&mut state, Input::StartedHeight(10, HeightStartType::Restart));
    assert_eq!(state.sync_height, 10);
    assert!(state.pending_requests.is_empty());
}

#[test]
fn test_re_request_no_peer_preserves_sync_height_above_tip() {
    let mut state = make_test_state();
    state.started = true;
    state.tip_height = 10;
    state.sync_height = 16;
    state.pending_requests.push(pending(1, 11, 15, peer(1)));
    state.peers.push(status(peer(1), 15, 1));

    drive_input(&mut state, Input::Decided(11));
    drive_input(&mut state, Input::Decided(12));
    assert_eq!(state.tip_height, 12);

    drive_input(&mut state, Input::SyncRequestTimedOut(1, peer(1), range(11, 15)));
    assert!(
        state.sync_height > state.tip_height,
        "sync_height ({}) <= tip_height ({})",
        state.sync_height,
        state.tip_height,
    );
    assert_eq!(state.sync_height, 13);
}

#[test]
fn test_re_request_stops_after_all_peers_exhausted() {
    let mut state = make_test_state();
    state.started = true;
    state.tip_height = 10;
    state.sync_height = 16;
    let peer_a = peer(1);
    let peer_b = peer(2);
    state.peers.push(status(peer(1), 20, 1));
    state.peers.push(status(peer(2), 20, 1));
    state.pending_requests.push(pending(1, 11, 15, peer(1)));

    let effects = drive_input(&mut state, Input::SyncRequestTimedOut(1, peer(1), range(11, 15)));
    assert!(
        effects.iter().any(|e| matches!(e, Effect::SendValueRequest(..))),
        "Expected a new request after peer A timed out"
    );
    assert_eq!(state.pending_requests.len(), 1);
    let entry = &state.pending_requests[0];
    assert_ne!(entry.peer.bytes, peer_a.bytes, "Retry should not go back to peer A");
    assert!(
        entry.excluded_peers.iter().any(|p| p.bytes == peer_a.bytes),
        "Peer A should be in the excluded set"
    );
    let new_req_id = entry.id;

    let effects = drive_input(&mut state, Input::SyncRequestTimedOut(new_req_id, peer_b, range(11, 15)));
    assert!(
        !effects.iter().any(|e| matches!(e, Effect::SendValueRequest(..))),
        "No request should be sent after all peers are exhausted"
    );
    assert!(state.pending_requests.is_empty(), "No pending requests should remain");
    assert_eq!(state.sync_height, 11);
}

fn setup_response_test(range_start: u64, range_end: u64) -> (SyncState, PeerId) {
    let mut state = make_test_state();
    state.peers.push(status(peer(7), range_end + 10, 1));
    state.pending_requests.push(pending(1, range_start, range_end, peer(7)));
    state.tip_height = range_start - 1;
    state.sync_height = range_end + 1;
    (state, peer(7))
}

fn has_process_value_response(effects: &[Effect]) -> bool {
    effects.iter().any(|e| matches!(e, Effect::ProcessValueResponse(..)))
}

fn response_of(start: u64, heights: &[u64]) -> ValueResponse {
    ValueResponse::new(start, heights.iter().map(|&h| make_raw_value(h)).collect())
}

#[test]
fn test_value_response_accepts_sequential_heights() {
    let (mut state, p) = setup_response_test(10, 14);
    let effects = drive_input(&mut state, Input::ValueResponse(1, p, Some(response_of(10, &[10, 11, 12, 13, 14]))));
    assert!(has_process_value_response(&effects), "Response with correct sequential heights should be accepted");
}

#[test]
fn test_value_response_rejects_duplicate_heights() {
    let (mut state, p) = setup_response_test(10, 14);
    let effects = drive_input(&mut state, Input::ValueResponse(1, p, Some(response_of(10, &[10, 10, 10, 10, 14]))));
    assert!(!has_process_value_response(&effects), "Response with duplicate heights should be rejected");
}

#[test]
fn test_value_response_rejects_out_of_order_heights() {
    let (mut state, p) = setup_response_test(10, 14);
    let effects = drive_input(&mut state, Input::ValueResponse(1, p, Some(response_of(10, &[10, 11, 13, 12, 14]))));
    assert!(!has_process_value_response(&effects), "Response with out-of-order heights should be rejected");
}

#[test]
fn test_value_response_rejects_heights_with_gaps() {
    let (mut state, p) = setup_response_test(10, 14);
    let effects = drive_input(&mut state, Input::ValueResponse(1, p, Some(response_of(10, &[10, 11, 12, 14, 15]))));
    assert!(!has_process_value_response(&effects), "Response with gaps in heights should be rejected");
}

#[test]
fn test_value_response_accepts_single_value() {
    let (mut state, p) = setup_response_test(10, 10);
    let effects = drive_input(&mut state, Input::ValueResponse(1, p, Some(response_of(10, &[10]))));
    assert!(
        has_process_value_response(&effects),
        "Response with a single value at the correct height should be accepted"
    );
}

#[test]
fn test_value_response_rejects_wrong_start_height() {
    let (mut state, p) = setup_response_test(10, 14);
    let effects = drive_input(&mut state, Input::ValueResponse(1, p, Some(response_of(5, &[5, 6, 7, 8, 9]))));
    assert!(
        !has_process_value_response(&effects),
        "Response with sequential but wrong-range heights should be rejected"
    );
}

fn extract_value_response(effects: &[Effect]) -> &ValueResponse {
    effects
        .iter()
        .find_map(|e| match e {
            Effect::SendValueResponse(_, response) => Some(response),
            _ => None,
        })
        .expect("expected a SendValueResponse effect")
}

#[test]
fn test_on_got_decided_values_sends_valid_response() {
    let mut state = make_test_state();
    let values = vec![make_raw_value(5), make_raw_value(6), make_raw_value(7)];
    let effects = drive_input(&mut state, Input::GotDecidedValues(1, range(5, 7), values));
    let response = extract_value_response(&effects);
    assert_eq!(response.start_height, 5);
    assert_eq!(response.values.len(), 3);
}

#[test]
fn test_on_got_decided_values_forwards_truncated_response() {
    let mut state = make_test_state();
    let values = vec![make_raw_value(5), make_raw_value(6)];
    let effects = drive_input(&mut state, Input::GotDecidedValues(1, range(5, 7), values));
    let response = extract_value_response(&effects);
    assert_eq!(response.start_height, 5);
    assert_eq!(response.values.len(), 2);
}

#[test]
fn test_on_got_decided_values_truncates_at_wrong_height() {
    let mut state = make_test_state();
    let values = vec![make_raw_value(5), make_raw_value(10), make_raw_value(7)];
    let effects = drive_input(&mut state, Input::GotDecidedValues(1, range(5, 7), values));
    let response = extract_value_response(&effects);
    assert_eq!(response.start_height, 5);
    assert_eq!(response.values.len(), 1, "expected only the valid prefix, got {} values", response.values.len());
}

#[test]
fn test_on_got_decided_values_first_value_wrong_sends_empty() {
    let mut state = make_test_state();
    let values = vec![make_raw_value(10), make_raw_value(6), make_raw_value(7)];
    let effects = drive_input(&mut state, Input::GotDecidedValues(1, range(5, 7), values));
    let response = extract_value_response(&effects);
    assert_eq!(response.start_height, 5);
    assert!(
        response.values.is_empty(),
        "expected empty response when first value is wrong, got {} values",
        response.values.len()
    );
}

// Further scenarios of the handler.

#[test]
fn status_from_peer_ahead_triggers_requests_in_batches() {
    let mut state = make_test_state();
    let effects = drive_input(&mut state, Input::StartedHeight(1, HeightStartType::Start));
    assert!(effects.is_empty());
    assert_eq!(state.sync_height, 1);
    let effects = drive_input(&mut state, Input::Status(status(peer(1), 12, 1)));
    let sent: Vec<(u64, HeightRange)> = effects
        .iter()
        .filter_map(|e| match e {
            Effect::SendValueRequest(id, _, r) => Some((*id, *r)),
            _ => None,
        })
        .collect();
    assert_eq!(sent, vec![(100, range(1, 5)), (101, range(6, 10)), (102, range(11, 12))]);
    assert_eq!(state.pending_requests.len(), 3);
    assert_eq!(state.next_request_id, 103);
    assert_eq!(state.sync_height, 13);
    assert!(sync_height_uncovered(&state));
}

#[test]
fn status_before_start_sends_nothing() {
    let mut state = make_test_state();
    let effects = drive_input(&mut state, Input::Status(status(peer(1), 50, 1)));
    assert!(effects.is_empty());
    assert_eq!(state.peers.len(), 1);
    let effects = drive_input(&mut state, Input::Status(status(peer(1), 60, 1)));
    assert!(effects.is_empty());
    assert_eq!(state.peers.len(), 1);
    assert_eq!(state.peers[0].tip_height, 60);
}

#[test]
fn parallel_requests_are_capped() {
    let mut state = SyncState::new(7, SyncConfig { batch_size: 2, parallel_requests: 2 });
    drive_input(&mut state, Input::StartedHeight(1, HeightStartType::Start));
    let effects = drive_input(&mut state, Input::Status(status(peer(1), 100, 1)));
    assert_eq!(effects.len(), 2);
    assert_eq!(state.pending_requests.len(), 2);
    assert_eq!(state.sync_height, 5);
}

#[test]
fn send_status_update_broadcasts_tip() {
    let mut state = make_test_state();
    state.tip_height = 33;
    let effects = drive_input(&mut state, Input::SendStatusUpdate);
    assert_eq!(effects.len(), 1);
    assert!(matches!(effects[0], Effect::BroadcastStatus(33)));
}

#[test]
fn value_request_is_clamped_or_refused() {
    let mut state = make_test_state();
    state.tip_height = 20;
    let effects = drive_input(&mut state, Input::ValueRequest(9, peer(1), range(18, 22)));
    assert_eq!(effects.len(), 1);
    match &effects[0] {
        Effect::GetDecidedValues(id, r) => {
            assert_eq!(*id, 9);
            assert_eq!(*r, range(18, 20));
        }
        other => panic!("unexpected effect {:?}", other),
    }
    let effects = drive_input(&mut state, Input::ValueRequest(10, peer(1), range(21, 22)));
    match &effects[0] {
        Effect::SendValueResponse(id, resp) => {
            assert_eq!(*id, 10);
            assert_eq!(resp.start_height, 21);
            assert!(resp.values.is_empty());
        }
        other => panic!("unexpected effect {:?}", other),
    }
}

#[test]
fn partial_response_keeps_prefix_and_requests_rest() {
    let (mut state, p) = setup_response_test(10, 14);
    let effects = drive_input(&mut state, Input::ValueResponse(1, p, Some(response_of(10, &[10, 11]))));
    assert!(has_process_value_response(&effects));
    assert_eq!(state.pending_requests.len(), 2);
    assert_eq!(state.pending_requests[0].id, 1);
    assert_eq!(state.pending_requests[0].range, range(10, 11));
    assert_eq!(state.pending_requests[1].range, range(12, 14));
    assert_eq!(state.pending_requests[1].id, 100);
}

#[test]
fn full_response_keeps_request_until_decided() {
    let (mut state, p) = setup_response_test(10, 14);
    drive_input(&mut state, Input::ValueResponse(1, p, Some(response_of(10, &[10, 11, 12, 13, 14]))));
    assert_eq!(state.pending_requests.len(), 1);
    drive_input(&mut state, Input::Decided(14));
    assert!(state.pending_requests.is_empty());
    assert_eq!(state.sync_height, 15);
}

#[test]
fn response_from_unexpected_peer_is_re_requested() {
    let (mut state, _) = setup_response_test(10, 14);
    state.peers.push(status(peer(8), 30, 1));
    let effects = drive_input(&mut state, Input::ValueResponse(1, peer(8), Some(response_of(10, &[10]))));
    assert!(!has_process_value_response(&effects));
    // The answering peer is scored with a failure; both the request's peer and the
    // answering peer are excluded, so nobody is left to ask.
    assert_eq!(effects.len(), 1);
    assert!(matches!(&effects[0], Effect::ScorePeer(p, PeerOutcome::Failure) if p.bytes == peer(8).bytes));
    assert!(state.pending_requests.is_empty());
}

#[test]
fn unknown_response_is_ignored() {
    let (mut state, p) = setup_response_test(10, 14);
    let effects = drive_input(&mut state, Input::ValueResponse(55, p, Some(response_of(10, &[10]))));
    assert!(effects.is_empty());
    assert_eq!(state.pending_requests.len(), 1);
}

#[test]
fn invalid_value_re_requests_covering_request() {
    let (mut state, _) = setup_response_test(10, 14);
    state.peers.push(status(peer(8), 30, 1));
    let effects = drive_input(&mut state, Input::InvalidValue(peer(7), 12));
    assert_eq!(effects.len(), 2);
    assert!(matches!(&effects[0], Effect::ScorePeer(p, PeerOutcome::Failure) if p.bytes == peer(7).bytes));
    match &effects[1] {
        Effect::SendValueRequest(id, p, r) => {
            assert_eq!(*id, 100);
            assert_eq!(p.bytes, peer(8).bytes);
            assert_eq!(*r, range(10, 14));
        }
        other => panic!("unexpected effect {:?}", other),
    }
    let effects = drive_input(&mut state, Input::InvalidValue(peer(7), 40));
    assert_eq!(effects.len(), 1);
    assert!(matches!(&effects[0], Effect::ScorePeer(_, PeerOutcome::Failure)));
}

#[test]
fn processing_error_blames_nobody() {
    let (mut state, _) = setup_response_test(10, 14);
    let effects = drive_input(&mut state, Input::ValueProcessingError(peer(7), 10));
    match &effects[0] {
        Effect::SendValueRequest(_, p, r) => {
            assert_eq!(p.bytes, peer(7).bytes);
            assert_eq!(*r, range(10, 14));
        }
        other => panic!("unexpected effect {:?}", other),
    }
    assert!(state.pending_requests[0].excluded_peers.is_empty());
}

#[test]
fn request_not_sent_is_dropped() {
    let mut state = make_test_state();
    drive_input(&mut state, Input::StartedHeight(1, HeightStartType::Start));
    drive_input(&mut state, Input::Status(status(peer(1), 3, 1)));
    assert_eq!(state.sync_height, 4);
    drive_input(&mut state, Input::RequestNotSent(100));
    assert!(state.pending_requests.is_empty());
    assert_eq!(state.sync_height, 1);
}

#[test]
fn outcomes_are_scored() {
    let (mut state, p) = setup_response_test(10, 14);
    let effects = drive_input(&mut state, Input::ValueResponse(1, p.copy(), Some(response_of(10, &[10, 11]))));
    assert!(matches!(&effects[0], Effect::ScorePeer(q, PeerOutcome::Success(10)) if q.bytes == p.bytes));
    assert!(matches!(&effects[1], Effect::ProcessValueResponse(..)));
    let (mut state, p) = setup_response_test(10, 14);
    let effects = drive_input(&mut state, Input::SyncRequestTimedOut(1, p.copy(), range(10, 14)));
    assert!(matches!(&effects[0], Effect::ScorePeer(q, PeerOutcome::Timeout) if q.bytes == p.bytes));
    let (mut state, p) = setup_response_test(10, 14);
    let effects = drive_input(&mut state, Input::ValueResponse(1, p.copy(), None));
    assert!(matches!(&effects[0], Effect::ScorePeer(_, PeerOutcome::Failure)));
}

#[test]
fn decided_height_next_to_the_largest_is_handled() {
    let mut state = make_test_state();
    drive_input(&mut state, Input::Decided(u64::MAX - 1));
    assert_eq!(state.tip_height, u64::MAX - 1);
    assert_eq!(state.sync_height, u64::MAX);
}

#[test]
fn requests_stop_where_a_batch_would_pass_the_largest_height() {
    let m = u64::MAX;
    let mut state = make_test_state();
    drive_input(&mut state, Input::StartedHeight(m - 11, HeightStartType::Start));
    assert_eq!(state.sync_height, m - 11);
    let effects = drive_input(&mut state, Input::Status(status(peer(1), m, 1)));
    let sent: Vec<(u64, HeightRange)> = effects
        .iter()
        .filter_map(|e| match e {
            Effect::SendValueRequest(id, _, r) => Some((*id, *r)),
            _ => None,
        })
        .collect();
    assert_eq!(sent, vec![(100, range(m - 11, m - 7)), (101, range(m - 6, m - 2))]);
    assert_eq!(state.sync_height, m - 1);
    assert!(sync_height_uncovered(&state));
}
