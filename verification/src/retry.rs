//! Bounded-retry policy for digest fetches.
//!
//! A fetch is attempted up to `max_retries` times. After the `k`-th failed
//! attempt, if budget remains, the caller waits `k * 500` milliseconds before
//! the next attempt (linearly increasing backoff); after the last allowed
//! attempt the fetch gives up with the last observed error. The waiting and
//! the network call belong to the caller; this module holds the decisions.

use vstd::prelude::*;

verus! {

/// Milliseconds of base delay; the wait before retry `k + 1` is `k` times this.
pub const BASE_DELAY_MS: u64 = 500;

/// What to do after a failed fetch attempt: wait `delay_ms` and try again,
/// or give up and surface the last error.
#[derive(Clone, Copy, Debug, PartialEq, Eq, Structural)]
pub enum RetryDecision {
    Retry { delay_ms: u64 },
    GiveUp,
}

/// Backoff in milliseconds after the `attempts_made`-th attempt has failed.
pub open spec fn spec_backoff_ms(attempts_made: u32) -> u64 {
    (500 * attempts_made) as u64
}

/// Whether another attempt may be started once `attempts_made` attempts
/// are already spent out of a budget of `max_retries`.
pub open spec fn spec_may_attempt(attempts_made: u32, max_retries: u32) -> bool {
    attempts_made < max_retries
}

/// The decision owed after a failure, once `attempts_made` attempts are spent:
/// retry with linear backoff while budget remains, otherwise give up.
pub open spec fn spec_failure_decision(attempts_made: u32, max_retries: u32) -> RetryDecision {
    if attempts_made < max_retries {
        RetryDecision::Retry { delay_ms: spec_backoff_ms(attempts_made) }
    } else {
        RetryDecision::GiveUp
    }
}

/// Retry bookkeeping for one fetch invocation. Nothing is shared across
/// fetches: every probe starts from a fresh state.
pub struct RetryState {
    /// Attempts already started (and, when `on_failure` is called, failed).
    pub attempts_made: u32,
    /// Total attempts allowed.
    pub max_retries: u32,
}

impl RetryState {
    /// Fresh state with the whole budget unspent.
    pub fn new(max_retries: u32) -> (r: RetryState)
        ensures
            r.attempts_made == 0,
            r.max_retries == max_retries,
    {
        RetryState { attempts_made: 0, max_retries }
    }

    /// True while the budget allows starting another attempt.
    pub fn may_attempt(&self) -> (r: bool)
        ensures
            r == spec_may_attempt(self.attempts_made, self.max_retries),
    {
        self.attempts_made < self.max_retries
    }

    /// Record that the attempt just started has failed, and decide what
    /// follows: a retry after `attempts_made * 500` ms while attempts remain,
    /// or giving up after the last one. No wait follows the final attempt.
    pub fn on_failure(&mut self) -> (d: RetryDecision)
        requires
            spec_may_attempt(old(self).attempts_made, old(self).max_retries),
        ensures
            final(self).max_retries == old(self).max_retries,
            final(self).attempts_made == old(self).attempts_made + 1,
            d == spec_failure_decision(final(self).attempts_made, final(self).max_retries),
    {
        self.attempts_made = self.attempts_made + 1;
        if self.attempts_made < self.max_retries {
            RetryDecision::Retry { delay_ms: 500 * (self.attempts_made as u64) }
        } else {
            RetryDecision::GiveUp
        }
    }
}

/// With a budget of three attempts, a failing fetch is attempted exactly
/// three times: the waits between consecutive attempts are 500 ms and
/// 1000 ms, no wait follows the third attempt, and no fourth attempt is
/// allowed.
pub proof fn lemma_retry_schedule_of_three()
    ensures
        spec_failure_decision(1, 3) == (RetryDecision::Retry { delay_ms: 500u64 }),
        spec_failure_decision(2, 3) == (RetryDecision::Retry { delay_ms: 1000u64 }),
        spec_failure_decision(3, 3) == RetryDecision::GiveUp,
        forall|k: u32| k >= 3 ==> !spec_may_attempt(k, 3),
{
}

} // verus!
