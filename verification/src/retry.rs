//! Retry with exponential backoff and jitter, and a circuit breaker.
//!
//! The randomness for the jitter and the clock for the breaker are
//! injected values, so every delay and every transition is checkable; a
//! driver performs the waiting and hands the drawn values in.

use vstd::prelude::*;

verus! {

/// Settings of the backoff schedule.
pub struct RetryConfig {
    pub max_attempts: u32,
    pub base_delay_ms: u64,
    pub max_delay_ms: u64,
    pub exponential_base: u32,
}

impl Default for RetryConfig {
    /// Three attempts, half a second growing twofold, half a minute cap.
    fn default() -> (r: RetryConfig)
        ensures
            r.max_attempts == 3,
            r.base_delay_ms == 500,
            r.max_delay_ms == 30000,
            r.exponential_base == 2,
    {
        RetryConfig { max_attempts: 3, base_delay_ms: 500, max_delay_ms: 30000, exponential_base: 2 }
    }
}

/// `b` to the power `e`.
pub open spec fn spec_pow(b: int, e: nat) -> int
    decreases e,
{
    if e == 0 {
        1
    } else {
        b * spec_pow(b, (e - 1) as nat)
    }
}

proof fn lemma_pow_pos(b: int, e: nat)
    requires
        b >= 1,
    ensures
        spec_pow(b, e) >= 1,
    decreases e,
{
    if e > 0 {
        lemma_pow_pos(b, (e - 1) as nat);
        assert(b * spec_pow(b, (e - 1) as nat) >= 1) by (nonlinear_arith)
            requires
                b >= 1,
                spec_pow(b, (e - 1) as nat) >= 1,
        ;
    }
}

proof fn lemma_pow_split(b: int, e1: nat, e2: nat)
    ensures
        spec_pow(b, e1 + e2) == spec_pow(b, e1) * spec_pow(b, e2),
    decreases e2,
{
    if e2 == 0 {
        assert(spec_pow(b, e1 + 0) == spec_pow(b, e1) * 1);
    } else {
        lemma_pow_split(b, e1, (e2 - 1) as nat);
        assert((e1 + e2 - 1) as nat + 1 == e1 + e2);
        assert(spec_pow(b, e1 + e2) == b * spec_pow(b, (e1 + e2 - 1) as nat));
        assert(spec_pow(b, e1) * (b * spec_pow(b, (e2 - 1) as nat)) == b * (spec_pow(b, e1)
            * spec_pow(b, (e2 - 1) as nat))) by (nonlinear_arith);
    }
}

proof fn lemma_pow_zero_base(e: nat)
    requires
        e >= 1,
    ensures
        spec_pow(0, e) == 0,
{
    assert(spec_pow(0, e) == 0 * spec_pow(0, (e - 1) as nat));
}

/// The raw exponential delay before attempt `attempt + 1`: the base delay
/// grown `attempt - 1` times.
pub open spec fn spec_raw_delay(config: RetryConfig, attempt: u32) -> int {
    config.base_delay_ms * spec_pow(config.exponential_base as int, (attempt - 1) as nat)
}

/// The delay slept after failed attempt `attempt`: the raw exponential
/// delay, shifted by up to a quarter either way as the drawn value says,
/// and never over the configured maximum.
pub open spec fn spec_backoff_delay(config: RetryConfig, attempt: u32, rand: u64) -> int {
    let raw = spec_raw_delay(config, attempt);
    let jitter = raw / 4;
    let jittered = raw + (rand as int) % (2 * jitter + 1) - jitter;
    if jittered > config.max_delay_ms {
        config.max_delay_ms as int
    } else {
        jittered
    }
}

/// The jittered delay once the raw delay is known exactly.
fn jittered_delay(raw: u128, max_delay_ms: u64, rand: u64) -> (d: u64)
    requires
        raw <= u128::MAX / 4,
    ensures
        ({
            let jitter = raw as int / 4;
            let jittered = raw + (rand as int) % (2 * jitter + 1) - jitter;
            d as int == if jittered > max_delay_ms {
                max_delay_ms as int
            } else {
                jittered
            }
        }),
{
    let jitter: u128 = raw / 4;
    let m: u128 = 2 * jitter + 1;
    proof {
        assert(jitter <= raw / 4);
        assert((rand as u128) % m < m);
        assert(raw + (rand as u128) % m >= jitter);
    }
    let jt: u128 = raw + (rand as u128) % m - jitter;
    if jt > max_delay_ms as u128 {
        max_delay_ms
    } else {
        jt as u64
    }
}

/// Delay with jitter for the given failed attempt, from a drawn value.
pub fn calculate_delay_from(config: &RetryConfig, attempt: u32, rand: u64) -> (d: u64)
    requires
        attempt >= 1,
    ensures
        d as int == spec_backoff_delay(*config, attempt, rand),
{
    let steps = attempt - 1;
    if config.exponential_base == 0 {
        if steps == 0 {
            proof {
                assert(spec_pow(0, 0) == 1);
            }
            return jittered_delay(config.base_delay_ms as u128, config.max_delay_ms, rand);
        } else {
            proof {
                lemma_pow_zero_base(steps as nat);
                assert(spec_raw_delay(*config, attempt) == 0);
            }
            return jittered_delay(0, config.max_delay_ms, rand);
        }
    }
    let base: u128 = config.exponential_base as u128;
    let limit: u128 = (config.max_delay_ms as u128) * 2 + 1;
    let mut p: u128 = config.base_delay_ms as u128;
    let mut k: u32 = 0;
    while k < steps && p < limit
        invariant
            k <= steps,
            base >= 1,
            base == config.exponential_base as int,
            p == config.base_delay_ms * spec_pow(config.exponential_base as int, k as nat),
            limit == config.max_delay_ms as int * 2 + 1,
            p <= limit * base || p <= u64::MAX,
        decreases steps - k,
    {
        proof {
            lemma_pow_pos(base as int, k as nat);
            assert(p < limit);
            assert(p * base <= limit * base) by (nonlinear_arith)
                requires
                    0 <= p <= limit,
                    base >= 1,
            ;
            assert(limit * base <= (2 * (u64::MAX as int) + 1) * (u32::MAX as int))
                by (nonlinear_arith)
                requires
                    0 <= limit <= 2 * (u64::MAX as int) + 1,
                    0 <= base <= u32::MAX as int,
            ;
            assert(p * base == config.base_delay_ms * (spec_pow(
                config.exponential_base as int,
                k as nat,
            ) * base)) by (nonlinear_arith)
                requires
                    p == config.base_delay_ms * spec_pow(config.exponential_base as int, k as nat),
            ;
            assert(spec_pow(config.exponential_base as int, (k + 1) as nat) == spec_pow(
                config.exponential_base as int,
                k as nat,
            ) * base) by {
                lemma_pow_split(config.exponential_base as int, k as nat, 1);
                assert(spec_pow(config.exponential_base as int, 0) == 1);
                assert(spec_pow(config.exponential_base as int, 1) == config.exponential_base
                    as int * spec_pow(config.exponential_base as int, 0));
            }
        }
        p = p * base;
        k = k + 1;
    }
    if k == steps {
        proof {
            assert(limit * base <= (2 * (u64::MAX as int) + 1) * (u32::MAX as int))
                by (nonlinear_arith)
                requires
                    0 <= limit <= 2 * (u64::MAX as int) + 1,
                    0 <= base <= u32::MAX as int,
            ;
            assert(p <= u128::MAX / 4);
        }
        return jittered_delay(p, config.max_delay_ms, rand);
    }
    // The partial product already tops twice the cap; with a growth base of
    // at least one the full delay can only be larger, so the cap is hit.
    proof {
        lemma_pow_split(config.exponential_base as int, k as nat, (steps - k) as nat);
        lemma_pow_pos(config.exponential_base as int, (steps - k) as nat);
        lemma_pow_pos(config.exponential_base as int, k as nat);
        let pk = spec_pow(config.exponential_base as int, k as nat);
        let pr = spec_pow(config.exponential_base as int, (steps - k) as nat);
        let raw = spec_raw_delay(*config, attempt);
        assert(raw == config.base_delay_ms * (pk * pr));
        assert(config.base_delay_ms * (pk * pr) >= config.base_delay_ms * pk) by (nonlinear_arith)
            requires
                pr >= 1,
                pk >= 0,
                config.base_delay_ms >= 0,
        ;
        assert(raw >= p);
        assert(p >= limit);
        let jitter = raw / 4;
        let md = config.max_delay_ms as int;
        assert(4 * jitter <= raw);
        assert(raw - jitter > md) by {
            assert(4 * (raw - jitter) >= 3 * raw);
            assert(3 * raw >= 3 * (2 * md + 1));
        }
        assert((rand as int) % (2 * jitter + 1) >= 0);
        assert(spec_backoff_delay(*config, attempt, rand) == md);
    }
    config.max_delay_ms
}

// --- retry plans ---

/// Whether an error is worth another attempt.
pub enum RetryDecision {
    Retry,
    Abort,
}

/// What one attempt of an operation came to.
pub enum AttemptOutcome {
    Success,
    Failure(RetryDecision),
}

/// How a whole retry run ends.
#[derive(PartialEq, Eq, Structural)]
pub enum RetryVerdict {
    Succeeded,
    Aborted,
    Exhausted,
}

/// First index at or after `i` where the outcome is a success; the length
/// when none is.
pub open spec fn spec_first_success(outcomes: Seq<bool>, i: int) -> int
    decreases outcomes.len() - i,
{
    if i < 0 || i >= outcomes.len() {
        outcomes.len() as int
    } else if outcomes[i] {
        i
    } else {
        spec_first_success(outcomes, i + 1)
    }
}

pub proof fn lemma_first_success_bounds(outcomes: Seq<bool>, i: int)
    requires
        0 <= i <= outcomes.len(),
    ensures
        i <= spec_first_success(outcomes, i) <= outcomes.len(),
        spec_first_success(outcomes, i) < outcomes.len() ==> outcomes[spec_first_success(
            outcomes,
            i,
        )],
    decreases outcomes.len() - i,
{
    if i < outcomes.len() && !outcomes[i] {
        lemma_first_success_bounds(outcomes, i + 1);
    }
}

/// How many attempts a backoff-driven retry makes when attempt `i + 1`
/// succeeds exactly when `outcomes[i]` is true: one per failure, stopping
/// at the first success, never more than allowed.
pub open spec fn spec_retry_attempts(outcomes: Seq<bool>, max_attempts: u32) -> int {
    let f = spec_first_success(outcomes, 0);
    if f < max_attempts {
        f + 1
    } else {
        max_attempts as int
    }
}

/// The run succeeds exactly when a success lies within the allowed
/// attempts.
pub open spec fn spec_retry_succeeds(outcomes: Seq<bool>, max_attempts: u32) -> bool {
    spec_first_success(outcomes, 0) < max_attempts
}

/// Replay a backoff retry against the attempt outcomes an operation would
/// produce: attempt `i + 1` succeeds exactly when `outcomes[i]` holds.
/// Returns how many attempts were made and whether one succeeded.
pub fn run_retry(config: &RetryConfig, outcomes: &Vec<bool>) -> (r: (u32, bool))
    requires
        config.max_attempts >= 1,
        outcomes@.len() >= config.max_attempts,
    ensures
        r.0 as int == spec_retry_attempts(outcomes@, config.max_attempts),
        r.1 == spec_retry_succeeds(outcomes@, config.max_attempts),
{
    let max = config.max_attempts;
    let mut attempt: u32 = 0;
    proof {
        lemma_first_success_bounds(outcomes@, 0);
    }
    while attempt < max
        invariant
            attempt <= max,
            max == config.max_attempts,
            outcomes@.len() >= max,
            spec_first_success(outcomes@, 0) == spec_first_success(outcomes@, attempt as int),
            spec_first_success(outcomes@, 0) >= attempt,
        decreases max - attempt,
    {
        proof {
            lemma_first_success_bounds(outcomes@, attempt as int);
        }
        if outcomes[attempt as usize] {
            proof {
                assert(spec_first_success(outcomes@, attempt as int) == attempt);
            }
            return (attempt + 1, true);
        }
        attempt = attempt + 1;
    }
    proof {
        assert(spec_first_success(outcomes@, 0) >= max);
    }
    (max, false)
}

/// With every attempt failing, a backoff retry invokes the operation
/// exactly as many times as attempts are allowed, and does not succeed.
pub proof fn lemma_retry_exhausts_attempts(outcomes: Seq<bool>, max_attempts: u32)
    requires
        max_attempts >= 1,
        outcomes.len() >= max_attempts,
        forall|i: int| 0 <= i < outcomes.len() ==> !outcomes[i],
    ensures
        spec_retry_attempts(outcomes, max_attempts) == max_attempts,
        !spec_retry_succeeds(outcomes, max_attempts),
{
    lemma_first_success_none(outcomes, 0);
}

proof fn lemma_first_success_none(outcomes: Seq<bool>, i: int)
    requires
        0 <= i <= outcomes.len(),
        forall|j: int| 0 <= j < outcomes.len() ==> !outcomes[j],
    ensures
        spec_first_success(outcomes, i) == outcomes.len(),
    decreases outcomes.len() - i,
{
    if i < outcomes.len() {
        lemma_first_success_none(outcomes, i + 1);
    }
}

/// First index at or after `i` where the outcome is a success or an abort;
/// the length when none is.
pub open spec fn spec_first_stop(outcomes: Seq<AttemptOutcome>, i: int) -> int
    decreases outcomes.len() - i,
{
    if i < 0 || i >= outcomes.len() {
        outcomes.len() as int
    } else if !(outcomes[i] is Failure && outcomes[i]->Failure_0 is Retry) {
        i
    } else {
        spec_first_stop(outcomes, i + 1)
    }
}

/// The verdict of a policy-driven retry run.
pub proof fn lemma_first_stop_bounds(outcomes: Seq<AttemptOutcome>, i: int)
    requires
        0 <= i <= outcomes.len(),
    ensures
        i <= spec_first_stop(outcomes, i) <= outcomes.len(),
    decreases outcomes.len() - i,
{
    if i < outcomes.len() && outcomes[i] is Failure && outcomes[i]->Failure_0 is Retry {
        lemma_first_stop_bounds(outcomes, i + 1);
    }
}

pub open spec fn spec_policy_verdict(outcomes: Seq<AttemptOutcome>, max_attempts: u32) -> RetryVerdict {
    let f = spec_first_stop(outcomes, 0);
    if f < max_attempts {
        if outcomes[f] is Success {
            RetryVerdict::Succeeded
        } else {
            RetryVerdict::Aborted
        }
    } else {
        RetryVerdict::Exhausted
    }
}

/// Attempts a policy-driven retry makes: it also stops early on an abort.
pub open spec fn spec_policy_attempts(outcomes: Seq<AttemptOutcome>, max_attempts: u32) -> int {
    let f = spec_first_stop(outcomes, 0);
    if f < max_attempts {
        f + 1
    } else {
        max_attempts as int
    }
}

/// Replay a retry with a per-error policy: a non-retryable failure stops
/// the run at once without burning the remaining attempts.
pub fn run_retry_with_policy(config: &RetryConfig, outcomes: &Vec<AttemptOutcome>) -> (r: (
    u32,
    RetryVerdict,
))
    requires
        config.max_attempts >= 1,
        outcomes@.len() >= config.max_attempts,
    ensures
        r.0 as int == spec_policy_attempts(outcomes@, config.max_attempts),
        r.1 == spec_policy_verdict(outcomes@, config.max_attempts),
{
    let max = config.max_attempts;
    let mut attempt: u32 = 0;
    proof {
        lemma_first_stop_bounds(outcomes@, 0);
    }
    while attempt < max
        invariant
            attempt <= max,
            max == config.max_attempts,
            outcomes@.len() >= max,
            spec_first_stop(outcomes@, 0) == spec_first_stop(outcomes@, attempt as int),
            spec_first_stop(outcomes@, 0) >= attempt,
        decreases max - attempt,
    {
        proof {
            lemma_first_stop_bounds(outcomes@, attempt as int);
        }
        match &outcomes[attempt as usize] {
            AttemptOutcome::Success => {
                proof {
                    assert(spec_first_stop(outcomes@, attempt as int) == attempt);
                }
                return (attempt + 1, RetryVerdict::Succeeded);
            },
            AttemptOutcome::Failure(RetryDecision::Abort) => {
                proof {
                    assert(spec_first_stop(outcomes@, attempt as int) == attempt);
                }
                return (attempt + 1, RetryVerdict::Aborted);
            },
            AttemptOutcome::Failure(RetryDecision::Retry) => {
                proof {
                    lemma_first_stop_bounds(outcomes@, attempt + 1);
                }
            },
        }
        attempt = attempt + 1;
    }
    proof {
        assert(spec_first_stop(outcomes@, 0) >= max);
    }
    (max, RetryVerdict::Exhausted)
}

// --- the live schedule a driver walks through ---

/// Backoff state across the attempts of one operation.
pub struct RetryState {
    pub config: RetryConfig,
    /// Attempts made so far.
    pub attempts_made: u32,
}

impl RetryState {
    pub fn new(config: RetryConfig) -> (r: RetryState)
        ensures
            r.config == config,
            r.attempts_made == 0,
    {
        RetryState { config, attempts_made: 0 }
    }

    /// Record one failed attempt. While attempts remain, the delay to
    /// sleep before the next one comes back, computed from the drawn
    /// value; once they are exhausted the caller must stop.
    pub fn on_failure(&mut self, rand: u64) -> (r: Option<u64>)
        requires
            old(self).attempts_made < old(self).config.max_attempts,
        ensures
            final(self).config == old(self).config,
            final(self).attempts_made == old(self).attempts_made + 1,
            final(self).attempts_made < final(self).config.max_attempts <==> r is Some,
            r is Some ==> r->Some_0 as int == spec_backoff_delay(
                old(self).config,
                final(self).attempts_made,
                rand,
            ),
    {
        self.attempts_made = self.attempts_made + 1;
        if self.attempts_made < self.config.max_attempts {
            let d = calculate_delay_from(&self.config, self.attempts_made, rand);
            Some(d)
        } else {
            None
        }
    }
}

// --- circuit breaker ---

#[derive(Clone, Copy, PartialEq, Eq, Structural)]
pub enum CircuitState {
    Closed,
    Open,
    HalfOpen,
}

/// Stops hammering a failing dependency: opens after a run of failures,
/// half-opens after a timeout, closes again on the next success. The
/// clock is injected.
pub struct CircuitBreaker {
    pub failure_threshold: u32,
    pub reset_timeout_ms: u64,
    pub state: CircuitState,
    pub failures: u32,
    pub last_failure: Option<u64>,
}

impl CircuitBreaker {
    pub fn new(failure_threshold: u32, reset_timeout_ms: u64) -> (r: CircuitBreaker)
        ensures
            r.failure_threshold == failure_threshold,
            r.reset_timeout_ms == reset_timeout_ms,
            r.state == CircuitState::Closed,
            r.failures == 0,
            r.last_failure is None,
    {
        CircuitBreaker {
            failure_threshold,
            reset_timeout_ms,
            state: CircuitState::Closed,
            failures: 0,
            last_failure: None,
        }
    }

    /// May a call go out at `now`? An open breaker half-opens, and lets
    /// one call through, once the reset timeout has passed since the last
    /// failure.
    pub fn can_execute(&mut self, now: u64) -> (r: bool)
        ensures
            final(self).failure_threshold == old(self).failure_threshold,
            final(self).reset_timeout_ms == old(self).reset_timeout_ms,
            final(self).failures == old(self).failures,
            final(self).last_failure == old(self).last_failure,
            old(self).state == CircuitState::Closed ==> r && final(self).state == old(self).state,
            old(self).state == CircuitState::HalfOpen ==> r && final(self).state == old(
                self,
            ).state,
            old(self).state == CircuitState::Open ==> {
                match old(self).last_failure {
                    Some(t) => if now >= t + old(self).reset_timeout_ms {
                        r && final(self).state == CircuitState::HalfOpen
                    } else {
                        !r && final(self).state == old(self).state
                    },
                    None => !r && final(self).state == old(self).state,
                }
            },
    {
        match self.state {
            CircuitState::Closed => true,
            CircuitState::Open => {
                match self.last_failure {
                    Some(t) => {
                        if now >= t && now - t >= self.reset_timeout_ms {
                            self.state = CircuitState::HalfOpen;
                            true
                        } else {
                            false
                        }
                    },
                    None => false,
                }
            },
            CircuitState::HalfOpen => true,
        }
    }

    /// A successful call closes the breaker and clears the failure run.
    pub fn record_success(&mut self)
        ensures
            final(self).failure_threshold == old(self).failure_threshold,
            final(self).reset_timeout_ms == old(self).reset_timeout_ms,
            final(self).last_failure == old(self).last_failure,
            final(self).failures == 0,
            final(self).state == CircuitState::Closed,
    {
        self.failures = 0;
        self.state = CircuitState::Closed;
    }

    /// A failed call at `now` lengthens the run; at the threshold the
    /// breaker opens.
    pub fn record_failure(&mut self, now: u64)
        requires
            old(self).failures < u32::MAX,
        ensures
            final(self).failure_threshold == old(self).failure_threshold,
            final(self).reset_timeout_ms == old(self).reset_timeout_ms,
            final(self).failures == old(self).failures + 1,
            final(self).last_failure == Some(now),
            final(self).state == if old(self).failures + 1 >= old(self).failure_threshold {
                CircuitState::Open
            } else {
                old(self).state
            },
    {
        self.failures = self.failures + 1;
        self.last_failure = Some(now);
        if self.failures >= self.failure_threshold {
            self.state = CircuitState::Open;
        }
    }

    pub fn is_open(&self) -> (r: bool)
        ensures
            r == (self.state == CircuitState::Open),
    {
        self.state == CircuitState::Open
    }
}

// --- drawing the jitter ---

/// Relies on rand's thread-local generator; nothing is promised of the
/// drawn value.
pub assume_specification<T>[ rand::random::<T> ]() -> (r: T)
    where
        rand::distributions::Standard: rand::distributions::Distribution<T>,
;

/// Delay with jitter for the given failed attempt, drawing the jitter
/// fresh. Whatever is drawn, the delay stays within the jitter band of
/// the raw exponential delay, capped at the configured maximum.
pub fn calculate_delay(config: &RetryConfig, attempt: u32) -> (d: u64)
    requires
        attempt >= 1,
    ensures
        exists|rand: u64| d as int == spec_backoff_delay(*config, attempt, rand),
{
    let rand: u64 = rand::random::<u64>();
    let d = calculate_delay_from(config, attempt, rand);
    proof {
        assert(d as int == spec_backoff_delay(*config, attempt, rand));
    }
    d
}

} // verus!
