//! Exponential backoff for retried remote calls.

use vstd::prelude::*;

verus! {

/// Longest delay between two attempts, in milliseconds.
pub const MAX_DELAY_MS: u64 = 60_000;

/// `2^n`.
pub open spec fn pow2(n: nat) -> nat
    decreases n,
{
    if n == 0 { 1 } else { 2 * pow2((n - 1) as nat) }
}

/// Delay before attempt number `attempt` (from 0): the base delay doubled
/// per attempt, capped.
pub open spec fn delay_for(base_ms: nat, attempt: nat) -> nat {
    if base_ms * pow2(attempt) < MAX_DELAY_MS { base_ms * pow2(attempt) } else { MAX_DELAY_MS as nat }
}

/// Delays of a bounded number of retries.
pub struct ExponentialBackoff {
    base_delay_ms: u64,
    max_attempts: u32,
    current_attempt: u32,
}

proof fn lemma_pow2_grows(a: nat, b: nat, base: nat)
    requires
        a <= b,
    ensures
        base * pow2(a) <= base * pow2(b),
    decreases b - a,
{
    if a < b {
        lemma_pow2_grows(a, (b - 1) as nat, base);
        assert(base * pow2(b) == 2 * (base * pow2((b - 1) as nat))) by (nonlinear_arith)
            requires pow2(b) == 2 * pow2((b - 1) as nat);
    }
}

impl ExponentialBackoff {
    pub closed spec fn base(&self) -> nat {
        self.base_delay_ms as nat
    }

    pub closed spec fn max_attempts(&self) -> nat {
        self.max_attempts as nat
    }

    pub closed spec fn attempt(&self) -> nat {
        self.current_attempt as nat
    }

    /// Backoff from `base_delay_ms` for at most `max_attempts` attempts.
    pub fn new(base_delay_ms: u64, max_attempts: u32) -> (r: Self)
        ensures
            r.base() == base_delay_ms,
            r.max_attempts() == max_attempts,
            r.attempt() == 0,
    {
        ExponentialBackoff { base_delay_ms, max_attempts, current_attempt: 0 }
    }

    /// The delay in milliseconds before the next attempt, or none when the
    /// attempts are used up.
    pub fn next_delay(&mut self) -> (r: Option<u64>)
        ensures
            old(self).attempt() >= old(self).max_attempts() ==> r.is_none() && *final(self) == *old(self),
            old(self).attempt() < old(self).max_attempts() ==> r == Some(delay_for(old(self).base(), old(self).attempt()) as u64)
                && final(self).attempt() == old(self).attempt() + 1
                && final(self).base() == old(self).base()
                && final(self).max_attempts() == old(self).max_attempts(),
    {
        if self.current_attempt >= self.max_attempts {
            return None;
        }
        let attempt = self.current_attempt;
        let base = self.base_delay_ms;
        let mut d: u64 = base;
        let mut i: u32 = 0;
        proof {
            assert(pow2(0) == 1);
        }
        while i < attempt && d < MAX_DELAY_MS
            invariant
                i <= attempt,
                d < MAX_DELAY_MS ==> d == base * pow2(i as nat),
                d >= MAX_DELAY_MS ==> base * pow2(i as nat) >= MAX_DELAY_MS,
                d <= 2 * MAX_DELAY_MS || d == base,
            decreases attempt - i,
        {
            d = d * 2;
            i = i + 1;
            proof {
                assert(pow2(i as nat) == 2 * pow2((i - 1) as nat));
                assert(base * pow2(i as nat) == 2 * (base * pow2((i - 1) as nat))) by (nonlinear_arith)
                    requires pow2(i as nat) == 2 * pow2((i - 1) as nat);
            }
        }
        proof {
            if d >= MAX_DELAY_MS {
                lemma_pow2_grows(i as nat, attempt as nat, base as nat);
            }
        }
        self.current_attempt = attempt + 1;
        if d < MAX_DELAY_MS { Some(d) } else { Some(MAX_DELAY_MS) }
    }

    /// Starts counting attempts afresh.
    pub fn reset(&mut self)
        ensures
            final(self).attempt() == 0,
            final(self).base() == old(self).base(),
            final(self).max_attempts() == old(self).max_attempts(),
    {
        self.current_attempt = 0;
    }

    /// Whether an attempt is left.
    pub fn has_attempts(&self) -> (r: bool)
        ensures
            r == (self.attempt() < self.max_attempts()),
    {
        self.current_attempt < self.max_attempts
    }
}

} // verus!
