//! Bounded retry with exponential backoff.
//!
//! The schedule is a pure state machine: callers perform an attempt, report
//! a failure, and are told either to wait `2^attempt` seconds and retry
//! (attempt index starting at zero) or that the attempt budget is spent.
//! No sleep happens after the final attempt.

use vstd::prelude::*;
use vstd::arithmetic::power2::pow2;

verus! {

/// Failure of a member-metadata lookup, including exhaustion of its
/// retry budget.
#[derive(Debug, Clone)]
pub enum MemberError {
    NotFound(String),
    ApiError(String),
    RetryExhausted(String),
}

impl MemberError {
    /// A human-readable description: a fixed prefix naming the failure
    /// kind, followed by the carried detail.
    pub fn message(&self) -> (r: String)
        ensures
            r@ == match self {
                MemberError::NotFound(msg) => "Member not found: "@ + msg@,
                MemberError::ApiError(msg) => "API error: "@ + msg@,
                MemberError::RetryExhausted(msg) => "Retry attempts exhausted: "@ + msg@,
            },
    {
        match self {
            MemberError::NotFound(msg) => String::from_str("Member not found: ").concat(
                msg.as_str(),
            ),
            MemberError::ApiError(msg) => String::from_str("API error: ").concat(msg.as_str()),
            MemberError::RetryExhausted(msg) => String::from_str(
                "Retry attempts exhausted: ",
            ).concat(msg.as_str()),
        }
    }
}

/// What to do after a failed attempt: wait the given number of seconds
/// and try again, or give up because the budget is spent.
#[derive(Clone, Copy, Debug, PartialEq, Eq, Structural)]
pub enum RetryDecision {
    RetryAfter(u64),
    Exhausted,
}

/// Total seconds slept by a run that fails `n` attempts in a row:
/// `2^0 + 2^1 + ... + 2^(n-2)` (no sleep after the last attempt).
pub open spec fn spec_backoff_sum(n: nat) -> nat
    decreases n,
{
    if n <= 1 { 0 } else { spec_backoff_sum((n - 1) as nat) + pow2((n - 2) as nat) }
}

/// The backoff schedule of a bounded retry loop. `attempts_made` counts
/// attempts whose failure has been reported.
pub struct RetrySchedule {
    pub max_attempts: u32,
    pub attempts_made: u32,
    pub backoff_secs: u64,
}

impl RetrySchedule {
    /// The attempt budget is positive and small enough that every backoff
    /// fits in whole seconds of a `u64`, and the next backoff is
    /// `2^attempts_made` seconds.
    pub open spec fn wf(self) -> bool {
        &&& 1 <= self.max_attempts <= 63
        &&& self.attempts_made <= self.max_attempts
        &&& self.backoff_secs == pow2(self.attempts_made as nat)
    }

    /// A fresh schedule: no attempt made yet, first backoff one second.
    pub fn new(max_attempts: u32) -> (r: RetrySchedule)
        requires
            1 <= max_attempts <= 63,
        ensures
            r.wf(),
            r.max_attempts == max_attempts,
            r.attempts_made == 0,
    {
        proof {
            vstd::arithmetic::power2::lemma_pow2_unfold(1);
            vstd::arithmetic::power2::lemma2_to64();
        }
        RetrySchedule { max_attempts, attempts_made: 0, backoff_secs: 1 }
    }

    /// Whether another attempt may still be made.
    pub fn can_attempt(&self) -> (r: bool)
        ensures
            r == (self.attempts_made < self.max_attempts),
    {
        self.attempts_made < self.max_attempts
    }

    /// Reports that one more attempt has failed. Answers with the backoff
    /// to sleep before the next attempt — `2^k` seconds after the failure
    /// of attempt index `k` — or `Exhausted` exactly when the failed
    /// attempt was the last one allowed.
    pub fn record_failure(&mut self) -> (r: RetryDecision)
        requires
            old(self).wf(),
            old(self).attempts_made < old(self).max_attempts,
        ensures
            final(self).wf(),
            final(self).max_attempts == old(self).max_attempts,
            final(self).attempts_made == old(self).attempts_made + 1,
            r == if old(self).attempts_made + 1 == old(self).max_attempts {
                RetryDecision::Exhausted
            } else {
                RetryDecision::RetryAfter(pow2(old(self).attempts_made as nat) as u64)
            },
    {
        proof {
            vstd::arithmetic::power2::lemma_pow2_strictly_increases(
                (self.attempts_made + 1) as nat,
                64,
            );
            vstd::arithmetic::power2::lemma_pow2_unfold((self.attempts_made + 1) as nat);
            vstd::arithmetic::power2::lemma2_to64();
        }
        let wait = self.backoff_secs;
        self.attempts_made = self.attempts_made + 1;
        self.backoff_secs = wait * 2;
        if self.attempts_made == self.max_attempts {
            RetryDecision::Exhausted
        } else {
            RetryDecision::RetryAfter(wait)
        }
    }
}

/// An operation that fails on every attempt is attempted exactly
/// `max_attempts` times, and the backoffs slept between the attempts —
/// `2^0, 2^1, ..., 2^(max_attempts - 2)` seconds, none after the final
/// attempt — add up to `2^(max_attempts - 1) - 1` seconds.
pub proof fn lemma_retry_exhaustion_backoff(max_attempts: nat)
    requires
        1 <= max_attempts,
    ensures
        spec_backoff_sum(max_attempts) == pow2((max_attempts - 1) as nat) - 1,
    decreases max_attempts,
{
    if max_attempts == 1 {
        vstd::arithmetic::power2::lemma2_to64();
    } else {
        lemma_retry_exhaustion_backoff((max_attempts - 1) as nat);
        vstd::arithmetic::power2::lemma_pow2_unfold((max_attempts - 1) as nat);
    }
}

} // verus!
