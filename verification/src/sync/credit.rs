//! Credit-based peer scoring: each peer holds an integer credit that fast
//! successes raise and failures and timeouts lower, kept within configured bounds.

use vstd::prelude::*;

verus! {

/// The outcome of a request to a peer, as scoring sees it.
#[derive(Copy, Clone, Debug, PartialEq, Eq)]
pub enum SyncResult {
    /// The peer answered, after this many nanoseconds.
    Success(u128),
    /// The peer answered with something unusable.
    Failure,
    /// The peer did not answer in time.
    Timeout,
}

/// Configuration of credit-based scoring.
#[derive(Copy, Clone, Debug, PartialEq, Eq)]
pub struct CreditConfig {
    /// Nanoseconds under which a success counts as fast.
    pub slow_threshold: u128,
    /// Credit delta for a fast success.
    pub credit_fast_success: i32,
    /// Credit delta for a success that is not fast.
    pub credit_slow_success: i32,
    /// Credit delta for a failure.
    pub credit_failure: i32,
    /// Credit delta for a timeout.
    pub credit_timeout: i32,
    /// Minimum credit (worst score).
    pub min_credit: i32,
    /// Maximum credit (best score).
    pub max_credit: i32,
}

impl Default for CreditConfig {
    /// Fast below half a second; +2 for a fast success, 0 for a slow one, -2 for a
    /// failure, -4 for a timeout; credit within -20..=20.
    fn default() -> (out: CreditConfig)
        ensures
            out.slow_threshold == 500_000_000,
            out.credit_fast_success == 2,
            out.credit_slow_success == 0,
            out.credit_failure == -2,
            out.credit_timeout == -4,
            out.min_credit == -20,
            out.max_credit == 20,
    {
        CreditConfig {
            slow_threshold: 500_000_000,
            credit_fast_success: 2,
            credit_slow_success: 0,
            credit_failure: -2,
            credit_timeout: -4,
            min_credit: -20,
            max_credit: 20,
        }
    }
}

/// Credit-based scoring strategy.
#[derive(Copy, Clone, Debug)]
pub struct Credit {
    config: CreditConfig,
}

/// `c` clamped to `lo..=hi`.
pub open spec fn clamp_spec(c: int, lo: int, hi: int) -> int {
    if c < lo { lo } else if c > hi { hi } else { c }
}

/// The credit delta a result earns under `config`.
pub open spec fn delta_for(config: CreditConfig, result: SyncResult) -> int {
    match result {
        SyncResult::Success(t) => if t < config.slow_threshold {
            config.credit_fast_success as int
        } else {
            config.credit_slow_success as int
        },
        SyncResult::Failure => config.credit_failure as int,
        SyncResult::Timeout => config.credit_timeout as int,
    }
}

/// The credit an update starts from: `credit`, or the midpoint of the credit
/// bounds for a fresh peer, whose credit is zero.
pub open spec fn starting_credit(config: CreditConfig, credit: i32) -> int {
    if credit == 0 {
        config.min_credit + (config.max_credit - config.min_credit) / 2
    } else {
        credit as int
    }
}

/// Each result moves the credit by the delta configured for it: a failure by
/// `credit_failure`, a timeout by `credit_timeout`, and a success by
/// `credit_fast_success` when faster than the slow threshold and by
/// `credit_slow_success` otherwise.
pub proof fn lemma_result_deltas(config: CreditConfig, response_time: u128)
    ensures
        delta_for(config, SyncResult::Failure) == config.credit_failure,
        delta_for(config, SyncResult::Timeout) == config.credit_timeout,
        response_time < config.slow_threshold
            ==> delta_for(config, SyncResult::Success(response_time)) == config.credit_fast_success,
        response_time >= config.slow_threshold
            ==> delta_for(config, SyncResult::Success(response_time)) == config.credit_slow_success,
{
}

/// Credit updates are monotone: from the same credit, a result with a larger delta
/// never leaves less credit, and the credit always ends within the bounds.
pub proof fn lemma_update_monotone(start: int, d1: int, d2: int, lo: int, hi: int)
    requires
        d1 <= d2,
        lo <= hi,
    ensures
        clamp_spec(saturating_add_i32(start, d1), lo, hi) <= clamp_spec(saturating_add_i32(start, d2), lo, hi),
        lo <= clamp_spec(saturating_add_i32(start, d1), lo, hi) <= hi,
{
}

/// `a + b` saturated to the range of `i32`.
pub open spec fn saturating_add_i32(a: int, b: int) -> int {
    clamp_spec(a + b, i32::MIN as int, i32::MAX as int)
}

impl Credit {
    /// The configuration this strategy was built with.
    pub closed spec fn spec_config(&self) -> CreditConfig {
        self.config
    }

    /// A scoring strategy with `config`, whose slow threshold must be positive and
    /// whose credit bounds must be ordered.
    pub fn new(config: CreditConfig) -> (out: Credit)
        requires
            config.slow_threshold > 0,
            config.min_credit < config.max_credit,
        ensures
            out.spec_config() == config,
    {
        Credit { config }
    }

    /// The configuration this strategy was built with.
    pub fn config(&self) -> (out: CreditConfig)
        ensures
            out == self.spec_config(),
    {
        self.config
    }

    /// The neutral credit a peer starts from: the midpoint of the credit bounds,
    /// rounded towards the lower bound.
    pub fn initial_credit(&self) -> (out: i32)
        requires
            self.spec_config().min_credit <= self.spec_config().max_credit,
            self.spec_config().max_credit - self.spec_config().min_credit <= i32::MAX,
        ensures
            out == self.spec_config().min_credit
                + (self.spec_config().max_credit - self.spec_config().min_credit) / 2,
    {
        self.config.min_credit + (self.config.max_credit - self.config.min_credit) / 2
    }

    /// `c` clamped to the credit bounds.
    pub fn clamp_credit(&self, c: i32) -> (out: i32)
        requires
            self.spec_config().min_credit <= self.spec_config().max_credit,
        ensures
            out == clamp_spec(c as int, self.spec_config().min_credit as int,
                self.spec_config().max_credit as int),
    {
        if c < self.config.min_credit {
            self.config.min_credit
        } else if c > self.config.max_credit {
            self.config.max_credit
        } else {
            c
        }
    }

    /// The score of `credit` as an exact fraction `(numerator, denominator)` in
    /// `[0, 1]`: the credit, clamped to the credit bounds, less the lower bound, over
    /// the width of the bounds.
    pub fn credit_to_score(&self, credit: i32) -> (out: (u32, u32))
        requires
            self.spec_config().min_credit < self.spec_config().max_credit,
        ensures
            out.1 == self.spec_config().max_credit - self.spec_config().min_credit,
            out.0 == clamp_spec(credit as int, self.spec_config().min_credit as int,
                self.spec_config().max_credit as int) - self.spec_config().min_credit,
            out.0 <= out.1,
    {
        let c = self.clamp_credit(credit);
        let num: i64 = c as i64 - self.config.min_credit as i64;
        let den: i64 = self.config.max_credit as i64 - self.config.min_credit as i64;
        (num as u32, den as u32)
    }

    /// Whether a response that took `response_time` nanoseconds was fast.
    pub fn is_fast(&self, response_time: u128) -> (out: bool)
        ensures
            out == (response_time < self.spec_config().slow_threshold),
    {
        response_time < self.config.slow_threshold
    }

    /// Updates a peer's credit after `result`. A credit of zero is the value a fresh
    /// peer starts with and is first replaced by the initial credit. The delta for the
    /// result is then added, saturating at the bounds of `i32`, and the sum clamped to
    /// the credit bounds.
    pub fn update_credit(&self, credit: &mut i32, result: SyncResult)
        requires
            self.spec_config().min_credit < self.spec_config().max_credit,
            *old(credit) == 0 ==> self.spec_config().max_credit - self.spec_config().min_credit <= i32::MAX,
        ensures
            *final(credit) == clamp_spec(
                saturating_add_i32(
                    (if *old(credit) == 0 {
                        self.spec_config().min_credit
                            + (self.spec_config().max_credit - self.spec_config().min_credit) / 2
                    } else {
                        *old(credit) as int
                    }),
                    delta_for(self.spec_config(), result),
                ),
                self.spec_config().min_credit as int,
                self.spec_config().max_credit as int,
            ),
            self.spec_config().min_credit <= *final(credit) <= self.spec_config().max_credit,
            result is Failure ==> *final(credit) == clamp_spec(
                saturating_add_i32(starting_credit(self.spec_config(), *old(credit)),
                    self.spec_config().credit_failure as int),
                self.spec_config().min_credit as int, self.spec_config().max_credit as int),
            result is Timeout ==> *final(credit) == clamp_spec(
                saturating_add_i32(starting_credit(self.spec_config(), *old(credit)),
                    self.spec_config().credit_timeout as int),
                self.spec_config().min_credit as int, self.spec_config().max_credit as int),
            result matches SyncResult::Success(t) ==> *final(credit) == clamp_spec(
                saturating_add_i32(starting_credit(self.spec_config(), *old(credit)),
                    if t < self.spec_config().slow_threshold {
                        self.spec_config().credit_fast_success as int
                    } else {
                        self.spec_config().credit_slow_success as int
                    }),
                self.spec_config().min_credit as int, self.spec_config().max_credit as int),
    {
        if *credit == 0 {
            *credit = self.initial_credit();
        }
        let delta = match result {
            SyncResult::Success(rt) => {
                if self.is_fast(rt) {
                    self.config.credit_fast_success
                } else {
                    self.config.credit_slow_success
                }
            },
            SyncResult::Failure => self.config.credit_failure,
            SyncResult::Timeout => self.config.credit_timeout,
        };
        let wide: i64 = *credit as i64 + delta as i64;
        let sum: i32 = if wide > i32::MAX as i64 {
            i32::MAX
        } else if wide < i32::MIN as i64 {
            i32::MIN
        } else {
            wide as i32
        };
        *credit = self.clamp_credit(sum);
    }
}

} // verus!
