//! The resilient external-call pattern: a query to the external client that
//! may fail transiently is attempted up to a fixed bound, with a fixed sleep
//! between attempts, and degrades to a documented fallback value on
//! exhaustion.  The decision logic lives here; the caller performs the
//! attempts and the sleeping.

use vstd::prelude::*;

verus! {

/// A bounded retry policy: how many attempts to make and how long to wait
/// between them, in milliseconds.
#[derive(Clone, Copy, Debug, PartialEq, Eq, Structural)]
pub struct RetryPolicy {
    pub max_attempts: u32,
    pub interval_ms: u32,
}

/// The policy the external-client queries use: ten attempts, a quarter of
/// a second apart.
pub fn default_policy() -> (p: RetryPolicy)
    ensures
        p.max_attempts == 10,
        p.interval_ms == 250,
{
    RetryPolicy { max_attempts: 10, interval_ms: 250 }
}

/// What to do after one attempt.
#[derive(Clone, Copy, Debug, PartialEq, Eq, Structural)]
pub enum RetryStep {
    /// The attempt succeeded: use its value.
    Done,
    /// The attempt failed and tries remain: sleep this many milliseconds,
    /// then try again.
    Sleep(u32),
    /// The attempt failed and the bound is reached: log one exhaustion
    /// diagnostic and return the documented fallback value.
    Fallback,
}

/// The decision after the zero-based attempt `attempt` has succeeded or
/// failed.
pub open spec fn spec_retry_step(policy: RetryPolicy, attempt: u32, succeeded: bool) -> RetryStep {
    if succeeded {
        RetryStep::Done
    } else if attempt + 1 < policy.max_attempts {
        RetryStep::Sleep(policy.interval_ms)
    } else {
        RetryStep::Fallback
    }
}

/// Decides what follows one attempt: success ends the loop, a failure with
/// tries remaining sleeps the policy's interval, and a failure at the bound
/// falls back.
pub fn retry_step(policy: &RetryPolicy, attempt: u32, succeeded: bool) -> (r: RetryStep)
    requires
        attempt < policy.max_attempts,
    ensures
        r == spec_retry_step(*policy, attempt, succeeded),
{
    if succeeded {
        RetryStep::Done
    } else if attempt + 1 < policy.max_attempts {
        RetryStep::Sleep(policy.interval_ms)
    } else {
        RetryStep::Fallback
    }
}

/// The outcome of driving a whole retry loop: the attempt that succeeded,
/// if any, and how many attempts were made.
#[derive(Clone, Copy, Debug, PartialEq, Eq, Structural)]
pub struct RetryRun {
    pub succeeded_at: Option<u32>,
    pub attempts: u32,
}

/// The first attempt in `[i, max)` that the script marks successful.
pub open spec fn first_success_before(script: Seq<bool>, i: int, max: int) -> Option<int>
    decreases max - i,
{
    if i < 0 || i >= max || i >= script.len() {
        None
    } else if script[i] {
        Some(i)
    } else {
        first_success_before(script, i + 1, max)
    }
}

/// Drives the retry policy against a script of attempt outcomes — the
/// testable form of the bounded-retry loop: attempts run in order until one
/// succeeds or the bound is exhausted.
#[verifier::loop_isolation(false)]
pub fn run_with_policy(policy: &RetryPolicy, script: &Vec<bool>) -> (r: RetryRun)
    requires
        script@.len() >= policy.max_attempts,
    ensures
        match first_success_before(script@, 0, policy.max_attempts as int) {
            Some(i) => r.succeeded_at == Some(i as u32) && r.attempts == i + 1,
            None => r.succeeded_at is None && r.attempts == policy.max_attempts,
        },
{
    let mut attempt: u32 = 0;
    while attempt < policy.max_attempts
        invariant
            attempt <= policy.max_attempts,
            first_success_before(script@, 0, policy.max_attempts as int) == first_success_before(
                script@,
                attempt as int,
                policy.max_attempts as int,
            ),
        decreases policy.max_attempts - attempt,
    {
        let succeeded = script[attempt as usize];
        match retry_step(policy, attempt, succeeded) {
            RetryStep::Done => {
                return RetryRun { succeeded_at: Some(attempt), attempts: attempt + 1 };
            },
            RetryStep::Sleep(_) => {
                attempt = attempt + 1;
            },
            RetryStep::Fallback => {
                proof {
                    assert(first_success_before(
                        script@,
                        attempt as int,
                        policy.max_attempts as int,
                    ) == first_success_before(
                        script@,
                        attempt as int + 1,
                        policy.max_attempts as int,
                    ));
                }
                return RetryRun { succeeded_at: None, attempts: policy.max_attempts };
            },
        }
    }
    RetryRun { succeeded_at: None, attempts: policy.max_attempts }
}

/// Retry exhaustion: against a script that fails every attempt, the loop
/// reports no success, so the caller returns the documented fallback value,
/// after exactly the policy's bound of attempts.
pub proof fn lemma_retry_exhaustion(script: Seq<bool>, i: int, max: int)
    requires
        forall|j: int| 0 <= j < script.len() ==> !script[j],
        0 <= i,
    ensures
        first_success_before(script, i, max) is None,
    decreases max - i,
{
    if !(i < 0 || i >= max || i >= script.len()) {
        lemma_retry_exhaustion(script, i + 1, max);
    }
}

} // verus!
