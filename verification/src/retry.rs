//! When a call to the remote service is tried again, and after how long.

use vstd::arithmetic::power2::{lemma2_to64, lemma_pow2_strictly_increases, pow2};
use vstd::prelude::*;

verus! {

/// The most attempts that one call is given.
pub const MAX_ATTEMPTS: u32 = 5;

/// The wait before the second attempt, in milliseconds.
pub const BASE_DELAY_MILLIS: u64 = 250;

/// The longest wait between two attempts, in milliseconds.
pub const MAX_DELAY_MILLIS: u64 = 10_000;

/// How an attempt ended.
#[derive(Debug, Clone, Copy, PartialEq, Eq)]
pub enum AttemptOutcome {
    /// The service answered with this HTTP status.
    Status(u16),
    /// No answer came: the connection failed or timed out.
    NetworkFailure,
}

/// What follows an attempt.
#[derive(Debug, Clone, Copy, PartialEq, Eq)]
pub enum RetryDecision {
    /// Wait this many milliseconds, then try again.
    RetryAfter { millis: u64 },
    /// Hand the response to the caller, whatever its status.
    Return,
    /// Hand the network error to the caller.
    Propagate,
}

/// The wait after the attempt numbered `attempt` (the first is 0), in
/// milliseconds: 250 doubled `attempt` times, and no more than 10 seconds.
pub open spec fn backoff(attempt: nat) -> nat {
    if 250 * pow2(attempt) < 10_000 {
        250 * pow2(attempt)
    } else {
        10_000
    }
}

/// A status that asks for another attempt: 429 or one of 500 to 599.
pub open spec fn retryable_status(status: u16) -> bool {
    status == 429 || 500 <= status <= 599
}

/// Whether the attempt numbered `attempt` is the last that a call is given.
pub open spec fn last_attempt(attempt: u32) -> bool {
    attempt + 1 >= MAX_ATTEMPTS
}

/// What follows the attempt numbered `attempt` that ended in `outcome`.
pub open spec fn decision(attempt: u32, outcome: AttemptOutcome) -> RetryDecision {
    match outcome {
        AttemptOutcome::Status(status) => if retryable_status(status) && !last_attempt(attempt) {
            RetryDecision::RetryAfter { millis: backoff(attempt as nat) as u64 }
        } else {
            RetryDecision::Return
        },
        AttemptOutcome::NetworkFailure => if last_attempt(attempt) {
            RetryDecision::Propagate
        } else {
            RetryDecision::RetryAfter { millis: backoff(attempt as nat) as u64 }
        },
    }
}

/// The wait after the attempt numbered `attempt`, in milliseconds.
pub fn backoff_millis(attempt: u32) -> (r: u64)
    ensures
        r == backoff(attempt as nat),
        BASE_DELAY_MILLIS <= r <= MAX_DELAY_MILLIS,
{
    proof {
        lemma2_to64();
        if attempt > 6 {
            lemma_pow2_strictly_increases(6, attempt as nat);
        }
    }
    if attempt >= 6 {
        MAX_DELAY_MILLIS
    } else {
        let mut delay: u64 = BASE_DELAY_MILLIS;
        let mut i: u32 = 0;
        while i < attempt
            invariant
                i <= attempt < 6,
                delay == 250 * pow2(i as nat),
                delay <= 8000,
            decreases attempt - i,
        {
            proof {
                lemma2_to64();
            }
            delay = delay * 2;
            i += 1;
        }
        delay
    }
}

/// Whether `status` asks for another attempt.
pub fn is_retryable(status: u16) -> (r: bool)
    ensures
        r == retryable_status(status),
{
    status == 429 || (500 <= status && status <= 599)
}

/// What follows the attempt numbered `attempt` (the first is 0) that ended
/// in `outcome`.
pub fn decide(attempt: u32, outcome: AttemptOutcome) -> (r: RetryDecision)
    ensures
        r == decision(attempt, outcome),
{
    let last = attempt >= MAX_ATTEMPTS - 1;
    match outcome {
        AttemptOutcome::Status(status) => {
            if is_retryable(status) && !last {
                RetryDecision::RetryAfter { millis: backoff_millis(attempt) }
            } else {
                RetryDecision::Return
            }
        },
        AttemptOutcome::NetworkFailure => {
            if last {
                RetryDecision::Propagate
            } else {
                RetryDecision::RetryAfter { millis: backoff_millis(attempt) }
            }
        },
    }
}

/// A call is never tried more than five times: the attempt numbered 4 and
/// any later one ends the call.
pub proof fn law_attempts_bounded(attempt: u32, outcome: AttemptOutcome)
    requires
        attempt >= 4,
    ensures
        !(decision(attempt, outcome) is RetryAfter),
{
}

/// A response that is neither 429 nor a server fault goes back to the
/// caller at once.
pub proof fn law_other_status_returns(attempt: u32, status: u16)
    requires
        !retryable_status(status),
    ensures
        decision(attempt, AttemptOutcome::Status(status)) == RetryDecision::Return,
{
}

} // verus!
