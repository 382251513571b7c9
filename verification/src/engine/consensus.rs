//! The timeouts the consensus engine schedules, and how they grow each time one
//! elapses.

use vstd::prelude::*;
use crate::engine::timeouts::MAX_DURATION_NANOS;

verus! {

/// The timeout of a step, as the engine schedules it.
#[derive(Copy, Clone, Debug, PartialEq, Eq)]
pub enum TimeoutKind {
    Propose,
    Prevote,
    Precommit,
    Commit,
    /// The time limit of the prevote step.
    PrevoteTimeLimit,
    /// The time limit of the precommit step.
    PrecommitTimeLimit,
}

/// Timeout configuration, in nanoseconds.
#[derive(Copy, Clone, Debug, PartialEq, Eq)]
pub struct TimeoutConfig {
    pub timeout_propose: u128,
    pub timeout_propose_delta: u128,
    pub timeout_prevote: u128,
    pub timeout_prevote_delta: u128,
    pub timeout_precommit: u128,
    pub timeout_precommit_delta: u128,
    pub timeout_commit: u128,
    /// The time limit of the prevote and precommit steps.
    pub timeout_step: u128,
}

/// The timeouts in force, starting from a configuration and growing as timeouts
/// elapse.
pub struct Timeouts {
    config: TimeoutConfig,
}

/// The duration of the timeout of `step` under `c`.
pub open spec fn duration_spec(c: TimeoutConfig, step: TimeoutKind) -> u128 {
    match step {
        TimeoutKind::Propose => c.timeout_propose,
        TimeoutKind::Prevote => c.timeout_prevote,
        TimeoutKind::Precommit => c.timeout_precommit,
        TimeoutKind::Commit => c.timeout_commit,
        TimeoutKind::PrevoteTimeLimit => c.timeout_step,
        TimeoutKind::PrecommitTimeLimit => c.timeout_step,
    }
}

/// Whether the timeout of `step` can grow once more under `c` without going past
/// the longest duration.
pub open spec fn can_increase(c: TimeoutConfig, step: TimeoutKind) -> bool {
    match step {
        TimeoutKind::Propose => c.timeout_propose + c.timeout_propose_delta <= MAX_DURATION_NANOS,
        TimeoutKind::Prevote => c.timeout_prevote + c.timeout_prevote_delta <= MAX_DURATION_NANOS,
        TimeoutKind::Precommit => c.timeout_precommit + c.timeout_precommit_delta <= MAX_DURATION_NANOS,
        _ => true,
    }
}

/// The configuration once the timeout of `step` elapsed: the propose, prevote and
/// precommit timeouts grow by their delta, the others stay as they are.
pub open spec fn increased(c: TimeoutConfig, step: TimeoutKind) -> TimeoutConfig {
    match step {
        TimeoutKind::Propose => TimeoutConfig { timeout_propose: (c.timeout_propose + c.timeout_propose_delta) as u128, ..c },
        TimeoutKind::Prevote => TimeoutConfig { timeout_prevote: (c.timeout_prevote + c.timeout_prevote_delta) as u128, ..c },
        TimeoutKind::Precommit => TimeoutConfig { timeout_precommit: (c.timeout_precommit + c.timeout_precommit_delta) as u128, ..c },
        _ => c,
    }
}

impl Timeouts {
    /// The configuration in force.
    pub closed spec fn config_spec(&self) -> TimeoutConfig {
        self.config
    }

    /// Timeouts starting from `config`.
    pub fn new(config: TimeoutConfig) -> (out: Timeouts)
        ensures
            out.config_spec() == config,
    {
        Timeouts { config }
    }

    /// Starts over from `config`.
    pub fn reset(&mut self, config: TimeoutConfig)
        ensures
            final(self).config_spec() == config,
    {
        self.config = config;
    }

    /// The duration of the timeout of `step`.
    pub fn duration_for(&self, step: TimeoutKind) -> (out: u128)
        ensures
            out == duration_spec(self.config_spec(), step),
            step is Propose ==> out == self.config_spec().timeout_propose,
            step is Prevote ==> out == self.config_spec().timeout_prevote,
            step is Precommit ==> out == self.config_spec().timeout_precommit,
            step is Commit ==> out == self.config_spec().timeout_commit,
            step is PrevoteTimeLimit || step is PrecommitTimeLimit ==> out == self.config_spec().timeout_step,
    {
        match step {
            TimeoutKind::Propose => self.config.timeout_propose,
            TimeoutKind::Prevote => self.config.timeout_prevote,
            TimeoutKind::Precommit => self.config.timeout_precommit,
            TimeoutKind::Commit => self.config.timeout_commit,
            TimeoutKind::PrevoteTimeLimit => self.config.timeout_step,
            TimeoutKind::PrecommitTimeLimit => self.config.timeout_step,
        }
    }

    /// Lengthens the timeout of `step` for the next round, once it elapsed.
    pub fn increase_timeout(&mut self, step: TimeoutKind)
        requires
            can_increase(old(self).config_spec(), step),
        ensures
            final(self).config_spec() == increased(old(self).config_spec(), step),
            ({
                let c0 = old(self).config_spec();
                let c1 = final(self).config_spec();
                &&& c1.timeout_propose == if step is Propose {
                    c0.timeout_propose + c0.timeout_propose_delta
                } else {
                    c0.timeout_propose as int
                }
                &&& c1.timeout_prevote == if step is Prevote {
                    c0.timeout_prevote + c0.timeout_prevote_delta
                } else {
                    c0.timeout_prevote as int
                }
                &&& c1.timeout_precommit == if step is Precommit {
                    c0.timeout_precommit + c0.timeout_precommit_delta
                } else {
                    c0.timeout_precommit as int
                }
                &&& c1.timeout_propose_delta == c0.timeout_propose_delta
                &&& c1.timeout_prevote_delta == c0.timeout_prevote_delta
                &&& c1.timeout_precommit_delta == c0.timeout_precommit_delta
                &&& c1.timeout_commit == c0.timeout_commit
                &&& c1.timeout_step == c0.timeout_step
            }),
    {
        match step {
            TimeoutKind::Propose => {
                self.config.timeout_propose = self.config.timeout_propose + self.config.timeout_propose_delta;
            },
            TimeoutKind::Prevote => {
                self.config.timeout_prevote = self.config.timeout_prevote + self.config.timeout_prevote_delta;
            },
            TimeoutKind::Precommit => {
                self.config.timeout_precommit = self.config.timeout_precommit + self.config.timeout_precommit_delta;
            },
            TimeoutKind::Commit => {},
            TimeoutKind::PrevoteTimeLimit => {},
            TimeoutKind::PrecommitTimeLimit => {},
        }
    }
}

/// Each scheduled step waits for the configured timeout of that step: propose,
/// prevote, precommit and commit for the field of the same name, and both step time
/// limits for the step timeout.
pub proof fn lemma_durations_are_the_configured_ones(c: TimeoutConfig)
    ensures
        duration_spec(c, TimeoutKind::Propose) == c.timeout_propose,
        duration_spec(c, TimeoutKind::Prevote) == c.timeout_prevote,
        duration_spec(c, TimeoutKind::Precommit) == c.timeout_precommit,
        duration_spec(c, TimeoutKind::Commit) == c.timeout_commit,
        duration_spec(c, TimeoutKind::PrevoteTimeLimit) == c.timeout_step,
        duration_spec(c, TimeoutKind::PrecommitTimeLimit) == c.timeout_step,
{
}

/// Timeouts never shrink: once the timeout of `elapsed` grew, the duration of every
/// step is at least what it was, that of `elapsed` grew by exactly its delta when it
/// has one, and that of every other step is unchanged.
pub proof fn lemma_timeouts_grow(c: TimeoutConfig, elapsed: TimeoutKind, step: TimeoutKind)
    requires
        can_increase(c, elapsed),
    ensures
        duration_spec(increased(c, elapsed), step) >= duration_spec(c, step),
        step == elapsed && (step is Propose || step is Prevote || step is Precommit) ==>
            duration_spec(increased(c, elapsed), step) == duration_spec(c, step) + match step {
                TimeoutKind::Propose => c.timeout_propose_delta,
                TimeoutKind::Prevote => c.timeout_prevote_delta,
                _ => c.timeout_precommit_delta,
            },
        step != elapsed ==> duration_spec(increased(c, elapsed), step) == duration_spec(c, step),
{
}

} // verus!
