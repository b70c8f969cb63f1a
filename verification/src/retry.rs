//! Retry decisions with capped exponential back-off. The jitter applied on
//! top of the nominal delay and the sleeping itself belong to the caller.

use vstd::prelude::*;

verus! {

/// How often and how patiently an operation is retried.
#[derive(Debug, Clone, Copy)]
pub struct RetryConfig {
    /// Attempts in all, the first included (0 counts as 1).
    pub max_attempts: u32,
    pub base_delay_ms: u64,
    pub max_delay_ms: u64,
}

/// `2^n`.
pub open spec fn pow2(n: nat) -> nat
    decreases n,
{
    if n == 0 {
        1
    } else {
        2 * pow2((n - 1) as nat)
    }
}

/// The number of attempts a configuration allows.
pub open spec fn attempt_budget(max_attempts: u32) -> nat {
    if max_attempts == 0 { 1 } else { max_attempts as nat }
}

/// After attempt number `attempt` (counted from 0) failed: retry exactly
/// when the failure is transient and the budget is not spent.
pub fn should_retry(cfg: &RetryConfig, attempt: u32, transient: bool) -> (r: bool)
    ensures
        r == (transient && attempt + 1 < attempt_budget(cfg.max_attempts)),
        r ==> attempt + 1 < attempt_budget(cfg.max_attempts),
{
    let max: u32 = if cfg.max_attempts == 0 { 1 } else { cfg.max_attempts };
    let last = attempt as u64 + 1 >= max as u64;
    !last && transient
}

/// The nominal delay before retry number `attempt + 1`: the base delay
/// doubled `attempt` times, capped at the maximum delay.
pub open spec fn nominal_backoff_ms(base: u64, max: u64, attempt: nat) -> nat {
    let exp = base * pow2(attempt);
    if exp <= max { exp as nat } else { max as nat }
}

proof fn lemma_pow2_monotone(a: nat, b: nat)
    requires
        a <= b,
    ensures
        pow2(a) <= pow2(b),
        pow2(a) >= 1,
    decreases b,
{
    if b > a {
        lemma_pow2_monotone(a, (b - 1) as nat);
    } else if a > 0 {
        lemma_pow2_monotone((a - 1) as nat, (a - 1) as nat);
    }
}

/// The nominal back-off delay, in milliseconds.
pub fn backoff_delay_ms(cfg: &RetryConfig, attempt: u32) -> (r: u64)
    ensures
        r == nominal_backoff_ms(cfg.base_delay_ms, cfg.max_delay_ms, attempt as nat),
{
    let max = cfg.max_delay_ms;
    let base = cfg.base_delay_ms;
    let mut v: u64 = base;
    let mut over: bool = base > max;
    let mut i: u32 = 0;
    assert(pow2(0) == 1);
    while i < attempt
        invariant
            i <= attempt,
            max == cfg.max_delay_ms,
            base == cfg.base_delay_ms,
            !over ==> v == base * pow2(i as nat) && v <= max,
            over ==> base * pow2(i as nat) > max,
        decreases attempt - i,
    {
        proof {
            assert(pow2((i + 1) as nat) == 2 * pow2(i as nat));
            assert(base * pow2((i + 1) as nat) == 2 * (base * pow2(i as nat))) by (nonlinear_arith)
                requires
                    pow2((i + 1) as nat) == 2 * pow2(i as nat),
            ;
        }
        if !over {
            if v > max / 2 {
                over = true;
            } else {
                v = v * 2;
            }
        }
        i = i + 1;
    }
    if over {
        max
    } else {
        v
    }
}

/// Delays never shrink from one retry to the next and never exceed the cap.
pub proof fn law_backoff_monotone_and_capped(base: u64, max: u64, a: nat, b: nat)
    requires
        a <= b,
    ensures
        nominal_backoff_ms(base, max, a) <= nominal_backoff_ms(base, max, b),
        nominal_backoff_ms(base, max, b) <= max,
{
    lemma_pow2_monotone(a, b);
    assert(base * pow2(a) <= base * pow2(b)) by (nonlinear_arith)
        requires
            pow2(a) <= pow2(b),
    ;
}

} // verus!
