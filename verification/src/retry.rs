//! Retry and backoff policies applied when an action execution fails.
//!
//! A [`RetryStrategy`] pairs a [`RetryPolicy`] (whether another attempt is
//! allowed after a number of failures) with a [`BackoffPolicy`] (how many
//! milliseconds to wait before that attempt).

use vstd::prelude::*;

verus! {

/// Decides whether an action is attempted again after `failed_attempts`
/// failures.
#[derive(Debug, Clone)]
pub enum RetryPolicy {
    /// No retry: only the first attempt is performed.
    NoRetry,
    /// Retry up to `retries` times, so at most `retries + 1` attempts.
    MaxRetries { retries: u32 },
    /// Retry without bound.
    Infinite,
}

/// Decides how long to wait before the next attempt after
/// `failed_attempts` failures.
#[derive(Debug, Clone)]
pub enum BackoffPolicy {
    /// Never wait.
    NoBackoff,
    /// Wait a fixed amount of milliseconds between attempts; zero means no
    /// wait.
    Fixed { ms: u32 },
    /// Wait `ms[i - 1]` milliseconds after the i-th failure; after more
    /// failures than entries, the last entry is used. A zero entry or an
    /// empty vector means no wait.
    Variable { ms: Vec<u32> },
}

/// The strategy applied when an action execution fails.
#[derive(Debug, Clone)]
pub struct RetryStrategy {
    pub retry_policy: RetryPolicy,
    pub backoff_policy: BackoffPolicy,
}

/// Whether `policy` allows one more attempt after `failed_attempts`
/// failures. Before the first attempt (zero failures) the answer is
/// always yes.
pub open spec fn spec_should_retry(policy: RetryPolicy, failed_attempts: u32) -> bool {
    if failed_attempts == 0 {
        true
    } else {
        match policy {
            RetryPolicy::NoRetry => false,
            RetryPolicy::Infinite => true,
            RetryPolicy::MaxRetries { retries } => failed_attempts < retries + 1,
        }
    }
}

/// The wait in milliseconds prescribed by `policy` after `failed_attempts`
/// failures; `None` means no wait.
pub open spec fn spec_should_wait(policy: BackoffPolicy, failed_attempts: u32) -> Option<u64> {
    if failed_attempts == 0 {
        None
    } else {
        match policy {
            BackoffPolicy::NoBackoff => None,
            BackoffPolicy::Fixed { ms } => if ms > 0 {
                Some(ms as u64)
            } else {
                None
            },
            BackoffPolicy::Variable { ms } => {
                let index = failed_attempts - 1;
                let wait = if index < ms@.len() {
                    Some(ms@[index as int])
                } else if ms@.len() > 0 {
                    Some(ms@.last())
                } else {
                    None
                };
                match wait {
                    Some(w) => if w > 0 {
                        Some(w as u64)
                    } else {
                        None
                    },
                    None => None,
                }
            },
        }
    }
}

impl RetryPolicy {
    /// Whether one more attempt is allowed after `failed_attempts` failures.
    pub fn should_retry(&self, failed_attempts: u32) -> (r: bool)
        ensures
            r == spec_should_retry(*self, failed_attempts),
    {
        if failed_attempts == 0 {
            true
        } else {
            match self {
                RetryPolicy::NoRetry => false,
                RetryPolicy::Infinite => true,
                RetryPolicy::MaxRetries { retries } => {
                    failed_attempts <= *retries
                },
            }
        }
    }
}

impl BackoffPolicy {
    /// The wait in milliseconds before the next attempt, if any.
    pub fn should_wait(&self, failed_attempts: u32) -> (r: Option<u64>)
        ensures
            r == spec_should_wait(*self, failed_attempts),
    {
        if failed_attempts == 0 {
            None
        } else {
            match self {
                BackoffPolicy::NoBackoff => None,
                BackoffPolicy::Fixed { ms } => {
                    if *ms > 0 {
                        Some(*ms as u64)
                    } else {
                        None
                    }
                },
                BackoffPolicy::Variable { ms } => {
                    let index = (failed_attempts - 1) as usize;
                    let wait_ms: Option<u32> = if index < ms.len() {
                        Some(ms[index])
                    } else if ms.len() > 0 {
                        Some(ms[ms.len() - 1])
                    } else {
                        None
                    };
                    match wait_ms {
                        Some(w) => {
                            if w > 0 {
                                Some(w as u64)
                            } else {
                                None
                            }
                        },
                        None => None,
                    }
                },
            }
        }
    }
}

impl RetryStrategy {
    /// Whether a retry attempt should be performed, and the optional wait
    /// in milliseconds before it.
    pub fn should_retry(&self, failed_attempts: u32) -> (r: (bool, Option<u64>))
        ensures
            r.0 == spec_should_retry(self.retry_policy, failed_attempts),
            r.1 == spec_should_wait(self.backoff_policy, failed_attempts),
    {
        (self.retry_policy.should_retry(failed_attempts), self.backoff_policy.should_wait(
            failed_attempts,
        ))
    }
}

impl RetryStrategy {
    /// Whether the failed attempt is tried again, and the wait before
    /// the retry. A fatal failure — one whose error says it cannot be
    /// retried — is never tried again, whatever the policy.
    pub fn next_attempt(&self, can_retry: bool, failed_attempts: u32) -> (r: (bool, Option<u64>))
        ensures
            !can_retry ==> !r.0,
            can_retry ==> r.0 == spec_should_retry(self.retry_policy, failed_attempts),
            r.1 == spec_should_wait(self.backoff_policy, failed_attempts),
    {
        let decision = self.should_retry(failed_attempts);
        (can_retry && decision.0, decision.1)
    }
}

impl Default for RetryStrategy {
    /// The default strategy performs a single attempt and never waits.
    fn default() -> (r: Self)
        ensures
            r.retry_policy is NoRetry,
            r.backoff_policy is NoBackoff,
    {
        RetryStrategy { retry_policy: RetryPolicy::NoRetry, backoff_policy: BackoffPolicy::NoBackoff }
    }
}

/// With `MaxRetries { retries: 0 }` exactly one attempt is performed: the
/// first attempt is always allowed, and no retry is allowed after any
/// number of failures.
pub proof fn lemma_max_retries_zero_single_attempt(failed_attempts: u32)
    ensures
        spec_should_retry(RetryPolicy::MaxRetries { retries: 0 }, 0),
        failed_attempts > 0 ==> !spec_should_retry(
            RetryPolicy::MaxRetries { retries: 0 },
            failed_attempts,
        ),
{
}

/// With `Variable { ms: [] }` no wait is ever prescribed between attempts.
pub proof fn lemma_variable_empty_no_wait(ms: Vec<u32>, failed_attempts: u32)
    requires
        ms@.len() == 0,
    ensures
        spec_should_wait(BackoffPolicy::Variable { ms }, failed_attempts) is None,
{
}

} // verus!
