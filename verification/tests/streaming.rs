use malachite::peer::PeerId;
use malachite::streaming::{MinHeap, PartStreamsMap, ProposalInit, ProposalPart, StreamContent, StreamMessage};

fn init(height: u64, round: i64) -> ProposalPart {
    ProposalPart::Init(ProposalInit { block_number: height, proposal_round: round, valid_round: -1, proposer: vec![1] })
}

fn data(seq: u64, byte: u8) -> StreamMessage<ProposalPart> {
    StreamMessage::new(1, seq, StreamContent::Data(ProposalPart::BlockProof(vec![byte])))
}

fn proofs(parts: &[ProposalPart]) -> Vec<u8> {
    parts
        .iter()
        .filter_map(|p| match p {
            ProposalPart::BlockProof(b) => Some(b[0]),
            _ => None,
        })
        .collect()
}

#[test]
fn min_heap_pops_in_sequence_order() {
    let mut h: MinHeap<u8> = MinHeap::new();
    assert!(h.peek().is_none());
    h.push(StreamMessage::new(0, 5, StreamContent::Data(5)));
    h.push(StreamMessage::new(0, 2, StreamContent::Data(2)));
    h.push(StreamMessage::new(0, 9, StreamContent::Fin(true)));
    assert_eq!(h.len(), 3);
    assert_eq!(h.peek().map(|m| m.sequence), Some(2));
    assert_eq!(h.pop().map(|m| m.sequence), Some(2));
    assert_eq!(h.pop().map(|m| m.sequence), Some(5));
    let last = h.pop().unwrap();
    assert!(last.is_fin());
    assert!(h.pop().is_none());
}

#[test]
fn parts_released_in_order_once_contiguous() {
    let mut m = PartStreamsMap::new();
    let p = PeerId::new(vec![1]);
    assert!(m.insert(p.copy(), data(2, 20)).is_none());
    assert!(m.insert(p.copy(), data(3, 30)).is_none());
    let out = m.insert(p.copy(), StreamMessage::new(1, 0, StreamContent::Data(init(7, 2)))).unwrap();
    assert_eq!((out.0, out.1), (7, 2));
    assert_eq!(out.2.len(), 1);
    assert!(matches!(out.2[0], ProposalPart::Init(_)));
    let out = m.insert(p.copy(), data(1, 10)).unwrap();
    assert_eq!((out.0, out.1), (7, 2));
    assert_eq!(proofs(&out.2), vec![10, 20, 30]);
    // The end of the stream releases no data.
    assert!(m.insert(p.copy(), StreamMessage::new(1, 4, StreamContent::Fin(true))).is_none());
}

#[test]
fn first_message_releases_buffered_followers() {
    let mut m = PartStreamsMap::new();
    let p = PeerId::new(vec![1]);
    assert!(m.insert(p.copy(), data(1, 10)).is_none());
    let out = m.insert(p.copy(), StreamMessage::new(1, 0, StreamContent::Data(init(3, 0)))).unwrap();
    assert_eq!(out.2.len(), 2);
    assert_eq!(proofs(&out.2), vec![10]);
}

#[test]
fn streams_of_different_peers_are_separate() {
    let mut m = PartStreamsMap::new();
    let a = PeerId::new(vec![1]);
    let b = PeerId::new(vec![2]);
    m.insert(a.copy(), StreamMessage::new(1, 0, StreamContent::Data(init(1, 0))));
    // Peer b's stream with the same id has not started: nothing is released.
    assert!(m.insert(b.copy(), data(1, 10)).is_none());
    let out = m.insert(a.copy(), data(1, 11)).unwrap();
    assert_eq!(proofs(&out.2), vec![11]);
}
