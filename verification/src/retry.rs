//! The retry policy: wraps one logical operation with bounded
//! exponential-backoff retries. The policy only decides; the caller's worker
//! loop performs the attempt and the sleep, then reports the attempt's
//! settled result back through [`RetryPolicy::after_attempt`].
use vstd::prelude::*;

verus! {

/// Multiplication capped at `u64::MAX`, the arithmetic of backoff delays.
pub open spec fn sat_mul(a: nat, b: nat) -> nat {
    if a * b > u64::MAX as nat {
        u64::MAX as nat
    } else {
        a * b
    }
}

/// Bounded exponential backoff: before attempt `k + 1`, the worker sleeps
/// `base_delay_ms * factor^(k - 1)` milliseconds (capped at `u64::MAX`);
/// after `max_attempts` attempts the last failure is surfaced as the
/// target's final outcome.
pub struct RetryPolicy {
    pub base_delay_ms: u64,
    pub factor: u64,
    pub max_attempts: u8,
}

/// The delay slept after attempt `attempt` fails (and so before attempt
/// `attempt + 1`): `base_delay_ms * factor^(attempt - 1)`, capped.
pub open spec fn spec_delay(p: RetryPolicy, attempt: nat) -> nat
    decreases attempt,
{
    if attempt <= 1 {
        p.base_delay_ms as nat
    } else {
        sat_mul(spec_delay(p, (attempt - 1) as nat), p.factor as nat)
    }
}

/// What the policy tells the worker to do once an attempt has settled.
pub enum RetryDecision {
    /// Sleep this many milliseconds, then attempt again.
    RetryAfter(u64),
    /// Surface the attempt's result as the target's final outcome.
    Settle,
}

impl RetryPolicy {
    /// A usable policy: retries at least once overall and never shrinks a
    /// delay.
    pub open spec fn wf(&self) -> bool {
        self.factor >= 1 && self.max_attempts >= 1
    }

    /// Builds a policy from the configuration surface: `retries` is the
    /// maximum attempt count per target.
    pub fn new(base_delay_ms: u64, factor: u64, retries: u8) -> (p: RetryPolicy)
        requires
            factor >= 1,
            retries >= 1,
        ensures
            p.wf(),
            p.base_delay_ms == base_delay_ms,
            p.factor == factor,
            p.max_attempts == retries,
    {
        RetryPolicy { base_delay_ms, factor, max_attempts: retries }
    }

    /// The delay slept after attempt `attempt` fails.
    pub fn delay_after_attempt(&self, attempt: u8) -> (d: u64)
        requires
            self.wf(),
            1 <= attempt,
        ensures
            d == spec_delay(*self, attempt as nat),
    {
        let mut d: u64 = self.base_delay_ms;
        let mut k: u8 = 1;
        while k < attempt
            invariant
                self.wf(),
                1 <= k <= attempt,
                d == spec_delay(*self, k as nat),
            decreases attempt - k,
        {
            d = match d.checked_mul(self.factor) {
                Some(m) => m,
                None => u64::MAX,
            };
            k += 1;
        }
        d
    }

    /// The policy's decision once attempt number `attempts_done` has
    /// settled: retry exactly when the attempt failed and attempts are
    /// still left, sleeping the backoff delay first.
    pub fn after_attempt(&self, attempts_done: u8, failed: bool) -> (d: RetryDecision)
        requires
            self.wf(),
            1 <= attempts_done <= self.max_attempts,
        ensures
            d is RetryAfter <==> (failed && attempts_done < self.max_attempts),
            d matches RetryDecision::RetryAfter(w) ==> w == spec_delay(
                *self,
                attempts_done as nat,
            ),
    {
        if failed && attempts_done < self.max_attempts {
            RetryDecision::RetryAfter(self.delay_after_attempt(attempts_done))
        } else {
            RetryDecision::Settle
        }
    }
}

/// Every backoff delay fits in a `u64`.
pub proof fn lemma_delay_bounded(p: RetryPolicy, attempt: nat)
    ensures
        spec_delay(p, attempt) <= u64::MAX as nat,
    decreases attempt,
{
    if attempt > 1 {
        lemma_delay_bounded(p, (attempt - 1) as nat);
    }
}

/// Backoff law: inter-attempt delays never decrease across the attempts of
/// one target.
pub proof fn lemma_delay_monotonic(p: RetryPolicy, a: nat, b: nat)
    requires
        p.wf(),
        1 <= a <= b,
    ensures
        spec_delay(p, a) <= spec_delay(p, b),
    decreases b,
{
    if a < b {
        lemma_delay_monotonic(p, a, (b - 1) as nat);
        let prev = spec_delay(p, (b - 1) as nat);
        lemma_delay_bounded(p, (b - 1) as nat);
        assert(prev * p.factor as nat >= prev * 1) by (nonlinear_arith)
            requires
                p.factor >= 1,
                prev >= 0,
        ;
    }
}

/// The number of attempts the worker loop has made for one target when its
/// run settles, given that every attempt fails: starting from `done`
/// attempts already made, the loop attempts again exactly while the policy
/// answers `RetryAfter`.
pub open spec fn attempts_when_all_fail(p: RetryPolicy, done: nat) -> nat
    decreases p.max_attempts - done,
{
    if done >= p.max_attempts {
        done
    } else {
        attempts_when_all_fail(p, done + 1)
    }
}

/// Retry-bound law: a target whose operation always fails is attempted
/// exactly `max_attempts` times — never indefinitely, and the failure is
/// never dropped early.
pub proof fn lemma_retry_bound(p: RetryPolicy, done: nat)
    requires
        p.wf(),
        done <= p.max_attempts,
    ensures
        attempts_when_all_fail(p, done) == p.max_attempts,
    decreases p.max_attempts - done,
{
    if done < p.max_attempts {
        lemma_retry_bound(p, done + 1);
    }
}

} // verus!
