//! Bounded retry with a fixed backoff.
//!
//! The surrounding service wraps one upstream operation in this policy: on a
//! failure it sleeps the fixed delay and tries again until the budget is
//! spent, then surfaces the last error. The decision deliberately ignores
//! the error's kind — even a terminal failure is retried within the budget —
//! a simplicity tradeoff kept on purpose. The sleep and the call itself
//! happen outside the library.

use vstd::prelude::*;

verus! {

/// What to do after a failed attempt.
#[derive(Clone, Copy, Debug, PartialEq, Eq, Structural)]
pub enum RetryDecision {
    /// Sleep this many milliseconds, then try again.
    RetryAfter(u64),
    /// The budget is spent: surface the last error.
    GiveUp,
}

/// A fixed number of retries, each after the same fixed delay.
#[derive(Clone, Copy, Debug, PartialEq, Eq, Structural)]
pub struct RetryPolicy {
    pub max_retries: u32,
    pub delay_ms: u64,
}

impl RetryPolicy {
    /// The decision after `failures` failed attempts.
    pub open spec fn decision(self, failures: u32) -> RetryDecision {
        if failures < self.max_retries {
            RetryDecision::RetryAfter(self.delay_ms)
        } else {
            RetryDecision::GiveUp
        }
    }

    pub fn new(max_retries: u32, delay_ms: u64) -> (r: Self)
        ensures
            r.max_retries == max_retries,
            r.delay_ms == delay_ms,
    {
        RetryPolicy { max_retries, delay_ms }
    }

    /// Decide after one more failure, `failures` being how many attempts
    /// have failed so far; any kind of failure counts the same.
    pub fn on_failure(&self, failures: u32) -> (d: RetryDecision)
        ensures
            d == self.decision(failures),
    {
        if failures < self.max_retries {
            RetryDecision::RetryAfter(self.delay_ms)
        } else {
            RetryDecision::GiveUp
        }
    }
}

/// The retry budget is hard: once `max_retries` attempts have failed, the
/// policy always gives up, so an operation runs at most `max_retries + 1`
/// times.
pub proof fn lemma_retry_budget(p: RetryPolicy, failures: u32)
    requires
        failures >= p.max_retries,
    ensures
        p.decision(failures) == RetryDecision::GiveUp,
{
}

} // verus!
