//! How often a failed operation is tried again, and how long to wait in between.

use vstd::arithmetic::power2::{
    lemma2_to64, lemma_pow2_strictly_increases, lemma_pow2_unfold, pow2,
};
use vstd::prelude::*;

verus! {

/// The longest wait before the first retry, in milliseconds.
pub const BASE_BACKOFF_MS: u64 = 50;

/// The longest wait before any retry, in milliseconds.
pub const MAX_BACKOFF_MS: u64 = 1_000;

/// Why an operation is not tried again.
#[derive(Debug, Clone, Copy, PartialEq, Eq, Structural)]
pub enum RetryStopReason {
    /// Its error will not go away.
    NonRetriable,
    /// It has been tried as often as allowed.
    Exhausted,
}

/// The end of an operation that never succeeded.
#[derive(Debug)]
pub struct RetryFailure<E> {
    pub error: E,
    pub attempts: usize,
    pub reason: RetryStopReason,
}

/// What to do after an attempt.
#[derive(Debug)]
pub enum RetryStep<T, E> {
    /// Stop: the operation succeeded on this attempt.
    Succeeded { value: T, attempts: usize },
    /// Stop: the operation failed for good.
    Failed(RetryFailure<E>),
    /// Wait as long as this retry asks for, and try again.
    Wait { retry_number: usize },
}

/// How often an operation may be run in all.
pub open spec fn attempts_allowed(max_retries: usize) -> usize {
    if max_retries < usize::MAX {
        (max_retries + 1) as usize
    } else {
        usize::MAX
    }
}

/// How an attempt can end.
pub enum AttemptEnd {
    Success,
    TransientError,
    LastingError,
}

/// How an attempt ended.
pub open spec fn end_of<T, E>(outcome: Result<T, E>, retriable: bool) -> AttemptEnd {
    match outcome {
        Ok(_) => AttemptEnd::Success,
        Err(_) => if retriable {
            AttemptEnd::TransientError
        } else {
            AttemptEnd::LastingError
        },
    }
}

/// Whether no further attempt follows one that ended like this.
pub open spec fn stops(attempt: int, max_attempts: int, end: AttemptEnd) -> bool {
    attempt >= max_attempts || !(end is TransientError)
}

/// Where a retried operation stands.
#[derive(Debug, Clone, Copy, PartialEq, Eq, Structural)]
pub struct RetryProgress {
    /// The number of the attempt that is due, from 1 on.
    pub attempt: usize,
    /// How often the operation may be run in all.
    pub max_attempts: usize,
}

impl RetryProgress {
    /// Whether the attempt that is due is allowed.
    pub open spec fn well_formed(self) -> bool {
        1 <= self.attempt <= self.max_attempts
    }

    /// Before the first attempt.
    pub fn new(max_retries: usize) -> (progress: Self)
        ensures
            progress.well_formed(),
            progress.attempt == 1,
            progress.max_attempts == attempts_allowed(max_retries),
    {
        RetryProgress { attempt: 1, max_attempts: max_retries.saturating_add(1) }
    }

    /// What to do after the attempt that was due: a success ends the operation, an error that
    /// will not go away or the last allowed attempt ends it too, and after any other error it is
    /// tried again.
    pub fn step<T, E>(&mut self, outcome: Result<T, E>, retriable: bool) -> (step: RetryStep<T, E>)
        requires
            old(self).well_formed(),
        ensures
            final(self).well_formed(),
            final(self).max_attempts == old(self).max_attempts,
            step is Wait <==> !stops(
                old(self).attempt as int,
                old(self).max_attempts as int,
                end_of(outcome, retriable),
            ),
            match outcome {
                Ok(value) => {
                    &&& step == (RetryStep::<T, E>::Succeeded {
                        value,
                        attempts: old(self).attempt,
                    })
                    &&& *final(self) == *old(self)
                },
                Err(error) => if !retriable || old(self).attempt == old(self).max_attempts {
                    &&& step == RetryStep::<T, E>::Failed(
                        RetryFailure {
                            error,
                            attempts: old(self).attempt,
                            reason: if !retriable {
                                RetryStopReason::NonRetriable
                            } else {
                                RetryStopReason::Exhausted
                            },
                        },
                    )
                    &&& *final(self) == *old(self)
                } else {
                    &&& step == (RetryStep::<T, E>::Wait { retry_number: old(self).attempt })
                    &&& final(self).attempt == old(self).attempt + 1
                },
            },
    {
        let attempts: usize = self.attempt;
        match outcome {
            Ok(value) => RetryStep::Succeeded { value, attempts },
            Err(error) => {
                if !retriable {
                    return RetryStep::Failed(
                        RetryFailure { error, attempts, reason: RetryStopReason::NonRetriable },
                    );
                }
                if attempts == self.max_attempts {
                    return RetryStep::Failed(
                        RetryFailure { error, attempts, reason: RetryStopReason::Exhausted },
                    );
                }
                self.attempt = attempts + 1;
                RetryStep::Wait { retry_number: attempts }
            },
        }
    }
}

/// How many attempts are made, from attempt `attempt` on, when attempt `n` would end as
/// `ends(n)`.
pub open spec fn attempts_made(
    ends: spec_fn(int) -> AttemptEnd,
    attempt: int,
    max_attempts: int,
) -> int
    decreases max_attempts - attempt,
{
    if stops(attempt, max_attempts, ends(attempt)) {
        attempt
    } else {
        attempts_made(ends, attempt + 1, max_attempts)
    }
}

/// An operation runs once and is retried at most as often as allowed; it stops at the first
/// attempt that does not end in a transient error, and before that only when no retry is left.
pub proof fn retries_are_bounded(
    ends: spec_fn(int) -> AttemptEnd,
    attempt: int,
    max_attempts: int,
)
    requires
        1 <= attempt <= max_attempts,
    ensures
        ({
            let made = attempts_made(ends, attempt, max_attempts);
            &&& attempt <= made <= max_attempts
            &&& ends(made) is TransientError ==> made == max_attempts
            &&& forall|n: int| attempt <= n < made ==> #[trigger] ends(n) is TransientError
        }),
    decreases max_attempts - attempt,
{
    if attempt < max_attempts && ends(attempt) is TransientError {
        retries_are_bounded(ends, attempt + 1, max_attempts);
    }
}

/// The longest wait before a retry: it doubles with each retry, up to a limit.
pub open spec fn backoff_cap(retry_number: nat) -> nat {
    let exponent: nat = if retry_number == 0 {
        0
    } else {
        (retry_number - 1) as nat
    };
    let doubled = BASE_BACKOFF_MS as nat * pow2(exponent);
    if doubled < MAX_BACKOFF_MS {
        doubled
    } else {
        MAX_BACKOFF_MS as nat
    }
}

/// An operation is run once more than it may be retried.
pub proof fn every_retry_is_one_more_attempt(max_retries: usize)
    requires
        max_retries < usize::MAX,
    ensures
        attempts_allowed(max_retries) == max_retries + 1,
{
}

/// Only an error that may go away, before the last allowed attempt, is followed by another one.
pub proof fn only_transient_errors_are_retried<T, E>(
    attempt: int,
    max_attempts: int,
    outcome: Result<T, E>,
    retriable: bool,
)
    ensures
        stops(attempt, max_attempts, end_of(outcome, retriable)) <==> outcome is Ok || !retriable
            || attempt >= max_attempts,
{
}

/// The first retry waits up to 50 milliseconds, and each further one up to twice as long as the
/// one before, but never longer than a second.
pub proof fn backoff_cap_doubles(retry_number: nat)
    requires
        retry_number >= 1,
    ensures
        backoff_cap(0) == 50,
        backoff_cap(1) == 50,
        backoff_cap(retry_number + 1) == (if 2 * backoff_cap(retry_number) < 1000 {
            2 * backoff_cap(retry_number)
        } else {
            1000
        }),
{
    lemma2_to64();
    lemma_pow2_unfold(retry_number);
}

/// `rand::random_range` picks a number from a range; of the range from 0 to `cap` it can be any.
#[verifier::external_body]
fn random_up_to(cap: u64) -> (n: u64)
    ensures
        n <= cap,
{
    rand::random_range(0..=cap)
}

/// How long the wait before a retry may be, in milliseconds.
pub fn longest_backoff(retry_number: usize) -> (cap: u64)
    ensures
        cap == backoff_cap(retry_number as nat),
{
    let exponent: usize = retry_number.saturating_sub(1);
    let mut cap: u64 = BASE_BACKOFF_MS;
    let mut n: usize = 0;
    proof {
        lemma2_to64();
    }
    while n < exponent && cap < MAX_BACKOFF_MS
        invariant
            n <= exponent,
            cap == BASE_BACKOFF_MS * pow2(n as nat),
        decreases exponent - n,
    {
        proof {
            lemma_pow2_unfold((n + 1) as nat);
        }
        cap = cap * 2;
        n += 1;
    }
    proof {
        if n < exponent {
            lemma_pow2_strictly_increases(n as nat, exponent as nat);
        }
    }
    if cap < MAX_BACKOFF_MS {
        cap
    } else {
        MAX_BACKOFF_MS
    }
}

/// A random wait before a retry, in milliseconds: up to 50 before the first, up to twice as
/// long before each further one, never above a second.
pub fn full_jitter_backoff(retry_number: usize) -> (millis: u64)
    ensures
        millis <= backoff_cap(retry_number as nat),
{
    random_up_to(longest_backoff(retry_number))
}

} // verus!
