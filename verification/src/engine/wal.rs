//! What the write-ahead log's worker does with each request: replay the log when
//! it already belongs to the started height, restart it otherwise, append, flush,
//! or stop; and which stored entries are handed back for replay.

use vstd::prelude::*;

verus! {

/// A request to the write-ahead log's worker.
#[derive(Copy, Clone, Debug, PartialEq, Eq)]
pub enum WalRequest {
    /// Consensus started the height with this number.
    StartedHeight(u64),
    /// An encoded entry is to be appended.
    Append,
    /// The log is to be written to disk.
    Flush,
    /// The worker is to stop.
    Shutdown,
}

/// What the worker does with a request.
#[derive(Copy, Clone, Debug, PartialEq, Eq)]
pub enum WalAction {
    /// Read back the entries of the log, which belongs to the started height.
    Replay,
    /// Start the log over at this sequence number; there is nothing to replay.
    Restart(u64),
    Append,
    Flush,
    /// Stop the worker.
    Stop,
}

/// The action for `request`, given the sequence number the log is at.
pub fn wal_action(request: WalRequest, log_sequence: u64) -> (out: WalAction)
    ensures
        out == match request {
            WalRequest::StartedHeight(h) => if h == log_sequence { WalAction::Replay } else { WalAction::Restart(h) },
            WalRequest::Append => WalAction::Append,
            WalRequest::Flush => WalAction::Flush,
            WalRequest::Shutdown => WalAction::Stop,
        },
{
    match request {
        WalRequest::StartedHeight(h) => if h == log_sequence {
            WalAction::Replay
        } else {
            WalAction::Restart(h)
        },
        WalRequest::Append => WalAction::Append,
        WalRequest::Flush => WalAction::Flush,
        WalRequest::Shutdown => WalAction::Stop,
    }
}

/// Whether the worker goes on taking requests after `action`.
pub fn keeps_running(action: WalAction) -> (out: bool)
    ensures
        out == !(action is Stop),
{
    !matches!(action, WalAction::Stop)
}

/// The entries that were read back and decoded, in log order.
pub open spec fn kept_entries<T>(entries: Seq<Option<T>>) -> Seq<T>
    decreases entries.len(),
{
    if entries.len() == 0 {
        Seq::empty()
    } else {
        kept_entries(entries.drop_last()) + match entries.last() {
            Some(e) => seq![e],
            None => Seq::empty(),
        }
    }
}

/// The entries handed back for replay: of the stored entries, each one that could
/// be read back and decoded (`Some`), in log order; the others are skipped.
pub fn replay_entries<T>(entries: Vec<Option<T>>) -> (out: Vec<T>)
    ensures
        out@ == kept_entries(entries@),
{
    let ghost all = entries@;
    let n = entries.len();
    let mut rest = entries;
    let mut out: Vec<T> = Vec::new();
    let mut i: usize = 0;
    while rest.len() > 0
        invariant
            i + rest@.len() == all.len(),
            all.len() == n,
            rest@ == all.subrange(i as int, all.len() as int),
            out@ == kept_entries(all.subrange(0, i as int)),
        decreases rest@.len(),
    {
        let e = rest.remove(0);
        assert(e == all[i as int]);
        assert(all.subrange(0, i as int + 1).drop_last() =~= all.subrange(0, i as int));
        assert(all.subrange(0, i as int + 1).last() == e);
        match e {
            Some(v) => {
                out.push(v);
            },
            None => {},
        }
        i += 1;
        assert(out@ =~= kept_entries(all.subrange(0, i as int)));
        assert(rest@ =~= all.subrange(i as int, all.len() as int));
    }
    assert(all.subrange(0, i as int) =~= all);
    out
}

} // verus!
