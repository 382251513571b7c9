use malachite::host_stream::{
    decide, decided_transactions, receive_proposal_part, resign_parts, start_height, stream_known_proposal,
    stream_new_proposal,
};
use malachite::peer::PeerId;
use malachite::streaming::{PartStreamsMap, ProposalInit, ProposalPart, StreamContent, StreamMessage};

fn init(height: u64, round: i64) -> ProposalInit {
    ProposalInit { block_number: height, proposal_round: round, valid_round: -1, proposer: vec![1] }
}

#[test]
fn start_height_follows_last_block() {
    assert_eq!(start_height(None), 1);
    assert_eq!(start_height(Some(0)), 1);
    assert_eq!(start_height(Some(41)), 42);
}

#[test]
fn new_proposal_stream_numbers_parts_and_closes() {
    let parts = vec![
        ProposalPart::Init(init(3, 0)),
        ProposalPart::Transactions(vec![vec![1]]),
        ProposalPart::Fin(vec![9]),
    ];
    let msgs = stream_new_proposal(5, parts, true);
    assert_eq!(msgs.len(), 4);
    for (i, m) in msgs.iter().enumerate() {
        assert_eq!(m.stream_id, 5);
        assert_eq!(m.sequence, i as u64);
    }
    assert!(matches!(msgs[1].content, StreamContent::Data(ProposalPart::Transactions(_))));
    assert!(matches!(msgs[3].content, StreamContent::Fin(true)));
    assert!(stream_new_proposal(5, vec![ProposalPart::BlockProof(vec![1])], false).is_empty());
}

#[test]
fn known_proposal_is_resigned_and_streamed_without_closing() {
    let parts = vec![
        ProposalPart::Init(init(3, 0)),
        ProposalPart::BlockProof(vec![7]),
        ProposalPart::Fin(vec![1]),
    ];
    let resigned = resign_parts(parts, &init(3, 4), &vec![2, 2]);
    match &resigned[0] {
        ProposalPart::Init(i) => assert_eq!(i.proposal_round, 4),
        _ => panic!("expected the opening part"),
    }
    assert!(matches!(&resigned[1], ProposalPart::BlockProof(p) if p == &vec![7]));
    assert!(matches!(&resigned[2], ProposalPart::Fin(s) if s == &vec![2, 2]));
    let msgs = stream_known_proposal(8, resigned, true);
    assert_eq!(msgs.len(), 3);
    assert_eq!(msgs[2].sequence, 2);
    assert!(matches!(msgs[2].content, StreamContent::Data(ProposalPart::Fin(_))));
    assert!(stream_known_proposal(8, vec![ProposalPart::BlockProof(vec![1])], false).is_empty());
}

#[test]
fn outdated_proposals_are_ignored() {
    let mut streams = PartStreamsMap::new();
    let old = StreamMessage::new(1, 0, StreamContent::Data(ProposalPart::Init(init(3, 0))));
    assert!(receive_proposal_part(&mut streams, 4, PeerId::new(vec![1]), old).is_none());
    let current = StreamMessage::new(2, 0, StreamContent::Data(ProposalPart::Init(init(4, 0))));
    let out = receive_proposal_part(&mut streams, 4, PeerId::new(vec![1]), current).unwrap();
    assert_eq!((out.0, out.1, out.2.len()), (4, 0, 1));
}

#[test]
fn decided_block_gathers_transactions_in_order() {
    let parts = vec![
        ProposalPart::Init(init(3, 0)),
        ProposalPart::Transactions(vec![vec![1], vec![2]]),
        ProposalPart::BlockProof(vec![0]),
        ProposalPart::Transactions(vec![vec![3]]),
        ProposalPart::Fin(vec![]),
    ];
    assert_eq!(decided_transactions(&parts), vec![vec![1], vec![2], vec![3]]);
    assert!(decided_transactions(&[]).is_empty());
}

#[test]
fn decision_prunes_below_and_starts_next_height() {
    let parts = vec![
        ProposalPart::Transactions(vec![vec![1]]),
        ProposalPart::BlockProof(vec![0]),
        ProposalPart::Transactions(vec![vec![2], vec![3]]),
    ];
    let d = decide(7, &parts);
    assert_eq!(d.transactions, vec![vec![1], vec![2], vec![3]]);
    assert_eq!(d.prune_below, 7);
    assert_eq!(d.next_height, 8);
}
