//! Step timeouts of a consensus round and their per-round increments.

use vstd::prelude::*;

verus! {

/// The longest duration, in nanoseconds: `u64::MAX` seconds and 999999999 nanoseconds.
pub const MAX_DURATION_NANOS: u128 = 18_446_744_073_709_551_615_999_999_999;

/// The timeout of a step.
#[derive(Copy, Clone, Debug, PartialEq, Eq)]
pub enum TimeoutKind {
    Propose,
    Prevote,
    Precommit,
    /// Waiting, after entering a round, before rebroadcasting for liveness.
    Rebroadcast,
}

/// Step timeouts, in nanoseconds.
#[derive(Copy, Clone, Debug, PartialEq, Eq)]
pub struct Timeouts {
    /// How long we wait for a proposal block before prevoting nil.
    pub timeout_propose: u128,
    /// How much `timeout_propose` increases with each round.
    pub timeout_propose_delta: u128,
    /// How long we wait after receiving +2/3 prevotes for anything.
    pub timeout_prevote: u128,
    /// How much `timeout_prevote` increases with each round.
    pub timeout_prevote_delta: u128,
    /// How long we wait after receiving +2/3 precommits for anything.
    pub timeout_precommit: u128,
    /// How much `timeout_precommit` increases with each round.
    pub timeout_precommit_delta: u128,
    /// How long we wait after entering a round before starting the rebroadcast
    /// liveness protocol.
    pub timeout_rebroadcast: u128,
}

/// The duration of the timeout of `step`.
pub open spec fn timeout_duration_spec(t: Timeouts, step: TimeoutKind) -> int {
    match step {
        TimeoutKind::Propose => t.timeout_propose as int,
        TimeoutKind::Prevote => t.timeout_prevote as int,
        TimeoutKind::Precommit => t.timeout_precommit as int,
        TimeoutKind::Rebroadcast => t.timeout_propose + t.timeout_prevote + t.timeout_precommit,
    }
}

/// Each step waits for its own timeout: the propose, prevote and precommit steps
/// for the field of the same name, and the rebroadcast step for the three together,
/// which is longer than each of them.
pub proof fn lemma_step_durations(t: Timeouts)
    ensures
        timeout_duration_spec(t, TimeoutKind::Propose) == t.timeout_propose,
        timeout_duration_spec(t, TimeoutKind::Prevote) == t.timeout_prevote,
        timeout_duration_spec(t, TimeoutKind::Precommit) == t.timeout_precommit,
        timeout_duration_spec(t, TimeoutKind::Rebroadcast)
            == t.timeout_propose + t.timeout_prevote + t.timeout_precommit,
        timeout_duration_spec(t, TimeoutKind::Rebroadcast) >= timeout_duration_spec(t, TimeoutKind::Propose),
        timeout_duration_spec(t, TimeoutKind::Rebroadcast) >= timeout_duration_spec(t, TimeoutKind::Prevote),
        timeout_duration_spec(t, TimeoutKind::Rebroadcast) >= timeout_duration_spec(t, TimeoutKind::Precommit),
{
}

impl Timeouts {
    /// The duration of the timeout of `step`; that of the rebroadcast timeout is
    /// the sum of the three step timeouts.
    pub fn timeout_duration(&self, step: TimeoutKind) -> (out: u128)
        requires
            step is Rebroadcast ==> self.timeout_propose + self.timeout_prevote + self.timeout_precommit
                <= MAX_DURATION_NANOS,
        ensures
            out == timeout_duration_spec(*self, step),
            step is Propose ==> out == self.timeout_propose,
            step is Prevote ==> out == self.timeout_prevote,
            step is Precommit ==> out == self.timeout_precommit,
            step is Rebroadcast ==> out == self.timeout_propose + self.timeout_prevote + self.timeout_precommit,
    {
        match step {
            TimeoutKind::Propose => self.timeout_propose,
            TimeoutKind::Prevote => self.timeout_prevote,
            TimeoutKind::Precommit => self.timeout_precommit,
            TimeoutKind::Rebroadcast => self.timeout_propose + self.timeout_prevote + self.timeout_precommit,
        }
    }

    /// How much the timeout of `step` increases with each round; the rebroadcast
    /// timeout does not increase.
    pub fn delta_duration(&self, step: TimeoutKind) -> (out: Option<u128>)
        ensures
            out == match step {
                TimeoutKind::Propose => Some(self.timeout_propose_delta),
                TimeoutKind::Prevote => Some(self.timeout_prevote_delta),
                TimeoutKind::Precommit => Some(self.timeout_precommit_delta),
                TimeoutKind::Rebroadcast => None::<u128>,
            },
            step is Propose ==> out == Some(self.timeout_propose_delta),
            step is Prevote ==> out == Some(self.timeout_prevote_delta),
            step is Precommit ==> out == Some(self.timeout_precommit_delta),
            step is Rebroadcast ==> out is None,
    {
        match step {
            TimeoutKind::Propose => Some(self.timeout_propose_delta),
            TimeoutKind::Prevote => Some(self.timeout_prevote_delta),
            TimeoutKind::Precommit => Some(self.timeout_precommit_delta),
            TimeoutKind::Rebroadcast => None,
        }
    }
}

impl Default for Timeouts {
    /// Three seconds to propose, one to prevote and one to precommit, each growing
    /// by half a second per round; rebroadcast after the sum of the three.
    fn default() -> (out: Timeouts)
        ensures
            out.timeout_propose == 3_000_000_000,
            out.timeout_propose_delta == 500_000_000,
            out.timeout_prevote == 1_000_000_000,
            out.timeout_prevote_delta == 500_000_000,
            out.timeout_precommit == 1_000_000_000,
            out.timeout_precommit_delta == 500_000_000,
            out.timeout_rebroadcast == 5_000_000_000,
    {
        let timeout_propose: u128 = 3_000_000_000;
        let timeout_prevote: u128 = 1_000_000_000;
        let timeout_precommit: u128 = 1_000_000_000;
        Timeouts {
            timeout_propose,
            timeout_propose_delta: 500_000_000,
            timeout_prevote,
            timeout_prevote_delta: 500_000_000,
            timeout_precommit,
            timeout_precommit_delta: 500_000_000,
            timeout_rebroadcast: timeout_propose + timeout_prevote + timeout_precommit,
        }
    }
}

} // verus!
