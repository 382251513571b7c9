//! The host's part in proposal streaming: the height to start from, the stream of
//! messages for a proposal it built or proposes again, which reassembled
//! proposals it processes, and the transactions of a decided block.

use vstd::prelude::*;
use crate::peer::PeerId;
use crate::streaming::{
    PartStreamsMap, ProposalInit, ProposalPart, StreamContent, StreamMessage, acceptable,
    copy_init, init_view, inserted, stream_or_fresh,
};

verus! {

/// The height consensus starts at: the one after the last stored block, or the
/// first height when no block is stored.
pub fn start_height(last_height: Option<u64>) -> (out: u64)
    requires
        last_height matches Some(h) ==> h < u64::MAX,
    ensures
        out == match last_height {
            Some(h) => h + 1,
            None => 1,
        },
{
    match last_height {
        Some(h) => h + 1,
        None => 1,
    }
}

/// Whether `out` is the message of stream `stream_id` at `sequence` carrying `part`.
pub open spec fn data_message(out: StreamMessage<ProposalPart>, stream_id: u64, sequence: int, part: ProposalPart) -> bool {
    &&& out.stream_id == stream_id
    &&& out.sequence == sequence
    &&& out.content == StreamContent::Data(part)
}

/// The messages of stream `stream_id` that carry `parts`, numbered from zero.
fn data_messages(stream_id: u64, parts: Vec<ProposalPart>) -> (out: Vec<StreamMessage<ProposalPart>>)
    requires
        parts@.len() <= u64::MAX,
    ensures
        out@.len() == parts@.len(),
        forall|i: int| 0 <= i < parts@.len() ==> data_message(#[trigger] out@[i], stream_id, i, parts@[i]),
{
    let ghost all = parts@;
    let mut rest = parts;
    let mut out: Vec<StreamMessage<ProposalPart>> = Vec::new();
    let mut sequence: u64 = 0;
    while rest.len() > 0
        invariant
            sequence == out@.len(),
            all.len() <= u64::MAX,
            out@.len() + rest@.len() == all.len(),
            rest@ == all.subrange(sequence as int, all.len() as int),
            forall|i: int| 0 <= i < out@.len() ==> data_message(#[trigger] out@[i], stream_id, i, all[i]),
        decreases rest@.len(),
    {
        let part = rest.remove(0);
        assert(part == all[sequence as int]);
        out.push(StreamMessage { stream_id, sequence, content: StreamContent::Data(part) });
        sequence = sequence + 1;
        assert(rest@ =~= all.subrange(sequence as int, all.len() as int));
    }
    out
}

/// The messages that broadcast a proposal the host just built: one per part, in
/// order and numbered from zero, then the closing message. Nothing when parts are
/// not broadcast.
pub fn stream_new_proposal(stream_id: u64, parts: Vec<ProposalPart>, include_parts: bool) -> (out: Vec<StreamMessage<ProposalPart>>)
    requires
        parts@.len() < u64::MAX,
    ensures
        !include_parts ==> out@.len() == 0,
        include_parts ==> {
            &&& out@.len() == parts@.len() + 1
            &&& forall|i: int| 0 <= i < parts@.len() ==> data_message(#[trigger] out@[i], stream_id, i, parts@[i])
            &&& out@.last() == StreamMessage::<ProposalPart> {
                stream_id,
                sequence: parts@.len() as u64,
                content: StreamContent::Fin(true),
            }
        },
{
    if !include_parts {
        return Vec::new();
    }
    let n = parts.len() as u64;
    let mut out = data_messages(stream_id, parts);
    out.push(StreamMessage { stream_id, sequence: n, content: StreamContent::Fin(true) });
    out
}

/// Whether `out` is part `p` of a known proposal as proposed again with opening
/// `init` and signature `signature`: the opening and the closing part are replaced,
/// the others kept.
pub open spec fn resigned(p: ProposalPart, init: ProposalInit, signature: Seq<u8>, out: ProposalPart) -> bool {
    match p {
        ProposalPart::Init(_) => out matches ProposalPart::Init(i) && init_view(i) == init_view(init),
        ProposalPart::Fin(_) => out matches ProposalPart::Fin(s) && s@ == signature,
        _ => out == p,
    }
}

/// A re-signed part depends only on the new opening and signature where it is the
/// opening or the closing part: an opening part becomes exactly `init` (block
/// number, proposal round, valid round and proposer), whatever the replaced part
/// held; a closing part carries exactly `signature`; any other part is kept.
pub proof fn lemma_resigned_parts(p: ProposalPart, init: ProposalInit, signature: Seq<u8>, out: ProposalPart)
    requires
        resigned(p, init, signature, out),
    ensures
        p is Init ==> out is Init && out->Init_0.block_number == init.block_number
            && out->Init_0.proposal_round == init.proposal_round
            && out->Init_0.valid_round == init.valid_round
            && out->Init_0.proposer@ == init.proposer@,
        p is Fin ==> out is Fin && out->Fin_0@ == signature,
        !(p is Init) && !(p is Fin) ==> out == p,
{
}

/// The parts of a known proposal as the host proposes it again in a new round:
/// its opening part becomes `init` and its closing part carries `signature`.
pub fn resign_parts(parts: Vec<ProposalPart>, init: &ProposalInit, signature: &Vec<u8>) -> (out: Vec<ProposalPart>)
    ensures
        out@.len() == parts@.len(),
        forall|i: int| 0 <= i < parts@.len() ==> resigned(parts@[i], *init, signature@, #[trigger] out@[i]),
        forall|i: int| 0 <= i < parts@.len() && parts@[i] is Init ==> {
            &&& #[trigger] out@[i] is Init
            &&& out@[i]->Init_0.block_number == init.block_number
            &&& out@[i]->Init_0.proposal_round == init.proposal_round
            &&& out@[i]->Init_0.valid_round == init.valid_round
            &&& out@[i]->Init_0.proposer@ == init.proposer@
        },
        forall|i: int| 0 <= i < parts@.len() && parts@[i] is Fin ==> {
            &&& #[trigger] out@[i] is Fin
            &&& out@[i]->Fin_0@ == signature@
        },
        forall|i: int| 0 <= i < parts@.len() && !(parts@[i] is Init) && !(parts@[i] is Fin)
            ==> #[trigger] out@[i] == parts@[i],
{
    let ghost all = parts@;
    let mut rest = parts;
    let mut out: Vec<ProposalPart> = Vec::new();
    while rest.len() > 0
        invariant
            out@.len() + rest@.len() == all.len(),
            rest@ == all.subrange(out@.len() as int, all.len() as int),
            forall|i: int| 0 <= i < out@.len() ==> resigned(all[i], *init, signature@, #[trigger] out@[i]),
        decreases rest@.len(),
    {
        let ghost k = out@.len();
        let part = rest.remove(0);
        assert(part == all[k as int]);
        let new_part = match part {
            ProposalPart::Init(_) => ProposalPart::Init(copy_init(init)),
            ProposalPart::Fin(_) => {
                let s = signature.clone();
                assert(s@ =~= signature@);
                ProposalPart::Fin(s)
            },
            other => other,
        };
        out.push(new_part);
        assert(rest@ =~= all.subrange(out@.len() as int, all.len() as int));
    }
    out
}

/// The messages that broadcast a known proposal again: one per part, in order and
/// numbered from zero, with no closing message. Nothing when parts are not
/// broadcast.
pub fn stream_known_proposal(stream_id: u64, parts: Vec<ProposalPart>, include_parts: bool) -> (out: Vec<StreamMessage<ProposalPart>>)
    requires
        parts@.len() <= u64::MAX,
    ensures
        !include_parts ==> out@.len() == 0,
        include_parts ==> {
            &&& out@.len() == parts@.len()
            &&& forall|i: int| 0 <= i < parts@.len() ==> data_message(#[trigger] out@[i], stream_id, i, parts@[i])
        },
{
    if !include_parts {
        return Vec::new();
    }
    data_messages(stream_id, parts)
}

/// Hands a proposal part streamed by `from` to the reassembly, and returns the
/// parts it releases, with the height and round of their proposal, unless that
/// height is below `current_height`: such a proposal is outdated and ignored.
pub fn receive_proposal_part(
    streams: &mut PartStreamsMap,
    current_height: u64,
    from: PeerId,
    msg: StreamMessage<ProposalPart>,
) -> (out: Option<(u64, i64, Vec<ProposalPart>)>)
    requires
        old(streams).wf(),
        acceptable(msg),
    ensures
        final(streams).wf(),
        final(streams).streams_view().dom() == old(streams).streams_view().dom().insert((from@, msg.stream_id)),
        forall|k: (Seq<u8>, u64)| k != (from@, msg.stream_id) && #[trigger] old(streams).streams_view().contains_key(k)
            ==> final(streams).streams_view()[k] == old(streams).streams_view()[k],
        exists|e: Seq<StreamMessage<ProposalPart>>, released: Option<(u64, i64, Vec<ProposalPart>)>| {
            &&& inserted(stream_or_fresh(old(streams).streams_view(), (from@, msg.stream_id)),
                msg, e, released, final(streams).streams_view()[(from@, msg.stream_id)])
            &&& out == match released {
                Some(r) => if r.0 < current_height { None } else { Some(r) },
                None => None,
            }
        },
{
    let ghost key = (from@, msg.stream_id);
    let ghost old_view = streams.streams_view();
    let released = streams.insert(from, msg);
    let ghost r = released;
    let out = match released {
        Some(r) => if r.0 < current_height { None } else { Some(r) },
        None => None,
    };
    proof {
        let e = choose|e: Seq<StreamMessage<ProposalPart>>| inserted(
            stream_or_fresh(old_view, key), msg, e, r, streams.streams_view()[key]);
        assert(inserted(stream_or_fresh(old_view, key), msg, e, r, streams.streams_view()[key]));
    }
    out
}

/// The transactions of the transaction parts of `parts`, part after part.
pub open spec fn decided_txs(parts: Seq<ProposalPart>) -> Seq<Seq<u8>>
    decreases parts.len(),
{
    if parts.len() == 0 {
        Seq::empty()
    } else {
        decided_txs(parts.drop_last()) + match parts.last() {
            ProposalPart::Transactions(txs) => txs@.map_values(|t: Vec<u8>| t@),
            _ => Seq::empty(),
        }
    }
}

/// The transactions of a decided block: those of its transaction parts, in order.
pub fn decided_transactions(parts: &[ProposalPart]) -> (out: Vec<Vec<u8>>)
    ensures
        out@.map_values(|t: Vec<u8>| t@) == decided_txs(parts@),
{
    let mut out: Vec<Vec<u8>> = Vec::new();
    let mut i: usize = 0;
    while i < parts.len()
        invariant
            0 <= i <= parts@.len(),
            out@.map_values(|t: Vec<u8>| t@) == decided_txs(parts@.subrange(0, i as int)),
        decreases parts@.len() - i,
    {
        assert(parts@.subrange(0, i as int + 1).drop_last() =~= parts@.subrange(0, i as int));
        assert(parts@.subrange(0, i as int + 1).last() == parts@[i as int]);
        if let ProposalPart::Transactions(txs) = &parts[i] {
            let ghost before = out@.map_values(|t: Vec<u8>| t@);
            let mut j: usize = 0;
            while j < txs.len()
                invariant
                    0 <= j <= txs@.len(),
                    out@.map_values(|t: Vec<u8>| t@) == before + txs@.subrange(0, j as int).map_values(|t: Vec<u8>| t@),
                decreases txs@.len() - j,
            {
                let ghost pre = out@;
                let t = txs[j].clone();
                assert(t@ =~= txs@[j as int]@);
                out.push(t);
                assert(out@.map_values(|t: Vec<u8>| t@) =~= pre.map_values(|t: Vec<u8>| t@).push(t@));
                assert(txs@.subrange(0, j as int + 1).map_values(|t: Vec<u8>| t@)
                    =~= txs@.subrange(0, j as int).map_values(|t: Vec<u8>| t@).push(txs@[j as int]@));
                j += 1;
            }
            assert(txs@.subrange(0, j as int) =~= txs@);
        } else {
            assert(out@.map_values(|t: Vec<u8>| t@) =~= decided_txs(parts@.subrange(0, i as int + 1)));
        }
        i += 1;
    }
    assert(parts@.subrange(0, i as int) =~= parts@);
    out
}

/// What the host does once a value is decided at `height`: it sends the
/// transactions of the block to the mempool for removal, prunes the parts of the
/// heights below `prune_below`, and starts `next_height`.
pub struct Decision {
    pub transactions: Vec<Vec<u8>>,
    pub prune_below: u64,
    pub next_height: u64,
}

/// The host's decision once the block of `parts` is decided while it is at height
/// `current_height`: the block's transactions in order, pruning below the current
/// height, and the next height.
pub fn decide(current_height: u64, parts: &[ProposalPart]) -> (out: Decision)
    requires
        current_height < u64::MAX,
    ensures
        out.transactions@.map_values(|t: Vec<u8>| t@) == decided_txs(parts@),
        out.prune_below == current_height,
        out.next_height == current_height + 1,
{
    Decision {
        transactions: decided_transactions(parts),
        prune_below: current_height,
        next_height: current_height + 1,
    }
}

} // verus!
