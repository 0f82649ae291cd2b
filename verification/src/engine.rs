//! The completion engine: retry bookkeeping with backoff, failure
//! classification, response handling, and rate-limit accounting.
//!
//! The engine is a state machine over plain values. The surrounding
//! application performs each network exchange and hands the outcome back:
//! a streamed body on success, or a `Failure` describing what went wrong.
//! Partially accumulated text from a failed attempt is never carried over:
//! every attempt hands a whole body to `complete_body`.
use vstd::prelude::*;
use crate::RateLimit;
use crate::errors::EngineError;
use crate::errors::Failure;
use crate::extract::first_json;
use crate::extract::schema_ok;
use crate::gemini::stream_text;
use crate::json::Json;

verus! {

/// Whether a failure may be retried: transport trouble, malformed streams,
/// extraction and schema mismatches, and HTTP 429 or server-side statuses.
/// Other statuses and configuration failures are fatal.
pub open spec fn spec_retryable(f: Failure) -> bool {
    match f {
        Failure::Transport => true,
        Failure::MalformedChunk => true,
        Failure::Extraction => true,
        Failure::SchemaMismatch => true,
        Failure::HttpStatus(code, _) => code == 429 || (500 <= code && code <= 599),
        Failure::Configuration => false,
    }
}

/// Decides `spec_retryable`.
pub fn retryable(f: &Failure) -> (r: bool)
    ensures
        r == spec_retryable(*f),
{
    match f {
        Failure::Transport => true,
        Failure::MalformedChunk => true,
        Failure::Extraction => true,
        Failure::SchemaMismatch => true,
        Failure::HttpStatus(code, _) => *code == 429 || (500 <= *code && *code <= 599),
        Failure::Configuration => false,
    }
}

/// The retry budget and the base delay between attempts.
#[derive(Clone, Copy, PartialEq, Eq, Structural, Debug)]
pub struct RetryPolicy {
    /// Total number of full call attempts allowed; at least one.
    pub max_attempts: u32,
    /// Base backoff in milliseconds; doubled between attempts, capped at
    /// thirty-two times the base.
    pub base_backoff_ms: u64,
}

impl RetryPolicy {
    /// At least one attempt, and a base small enough that the capped
    /// backoff fits the millisecond counter.
    pub open spec fn wf(self) -> bool {
        self.max_attempts >= 1 && self.base_backoff_ms <= u64::MAX / 32
    }
}

/// State of one completion run across its attempts.
pub struct EngineState {
    pub policy: RetryPolicy,
    /// Attempts made so far.
    pub attempts: u32,
    /// The failure of the most recent attempt, once one was made.
    pub last: Option<Failure>,
}

impl EngineState {
    pub open spec fn wf(self) -> bool {
        &&& self.policy.wf()
        &&& self.attempts <= self.policy.max_attempts
        &&& (self.attempts > 0 ==> self.last is Some)
    }
}

pub open spec fn spec_start(p: RetryPolicy) -> EngineState {
    EngineState { policy: p, attempts: 0, last: None }
}

/// A fresh run under `p`.
pub fn engine_start(p: RetryPolicy) -> (r: EngineState)
    requires
        p.wf(),
    ensures
        r == spec_start(p),
        r.wf(),
{
    EngineState { policy: p, attempts: 0, last: None }
}

/// The delay before attempt `prior + 1`: none before the first attempt,
/// then doubling from the base, capped at thirty-two times the base.
pub open spec fn spec_backoff(base: u64, prior: u32) -> u64 {
    if prior == 0 {
        0
    } else if prior == 1 {
        base
    } else if prior == 2 {
        (2 * base) as u64
    } else if prior == 3 {
        (4 * base) as u64
    } else if prior == 4 {
        (8 * base) as u64
    } else if prior == 5 {
        (16 * base) as u64
    } else {
        (32 * base) as u64
    }
}

pub fn backoff_ms(base: u64, prior: u32) -> (r: u64)
    requires
        base <= u64::MAX / 32,
    ensures
        r == spec_backoff(base, prior),
{
    if prior == 0 {
        0
    } else if prior == 1 {
        base
    } else if prior == 2 {
        2 * base
    } else if prior == 3 {
        4 * base
    } else if prior == 4 {
        8 * base
    } else if prior == 5 {
        16 * base
    } else {
        32 * base
    }
}

/// Another attempt, when the budget allows one: its number and the backoff
/// to wait first.
pub open spec fn spec_next_call(st: EngineState) -> Option<(u32, u64)> {
    if st.attempts < st.policy.max_attempts {
        Some(((st.attempts + 1) as u32, spec_backoff(st.policy.base_backoff_ms, st.attempts)))
    } else {
        None
    }
}

pub fn next_call(st: &EngineState) -> (r: Option<(u32, u64)>)
    requires
        st.wf(),
    ensures
        r == spec_next_call(*st),
{
    if st.attempts < st.policy.max_attempts {
        Some((st.attempts + 1, backoff_ms(st.policy.base_backoff_ms, st.attempts)))
    } else {
        None
    }
}

/// The terminal error after the budget ran out.
pub open spec fn spec_give_up(st: EngineState) -> EngineError {
    EngineError::RetriesExhausted { attempts: st.attempts, last: st.last->Some_0 }
}

pub fn give_up(st: EngineState) -> (r: EngineError)
    requires
        st.wf(),
        st.attempts >= st.policy.max_attempts,
    ensures
        r == spec_give_up(st),
{
    match st.last {
        Some(f) => EngineError::RetriesExhausted { attempts: st.attempts, last: f },
        None => vstd::pervasive::unreached(),
    }
}

/// Books one failed attempt: a retryable failure is recorded and the run
/// goes on; a fatal one is surfaced at once, the state unchanged.
pub open spec fn spec_record(st: EngineState, f: Failure) -> (EngineState, Option<EngineError>) {
    if spec_retryable(f) {
        (
            EngineState { policy: st.policy, attempts: (st.attempts + 1) as u32, last: Some(f) },
            None,
        )
    } else {
        (st, Some(EngineError::Fatal(f)))
    }
}

pub fn record_failure(st: EngineState, f: Failure) -> (r: (EngineState, Option<EngineError>))
    requires
        st.wf(),
        st.attempts < st.policy.max_attempts,
    ensures
        r == spec_record(st, f),
        r.0.wf(),
{
    if retryable(&f) {
        (EngineState { policy: st.policy, attempts: st.attempts + 1, last: Some(f) }, None)
    } else {
        (st, Some(EngineError::Fatal(f)))
    }
}

/// Handles the body of one successful exchange end to end: reassembles the
/// streamed units, then locates and validates the JSON answer.
pub fn complete_body(stream: &Vec<u8>, schema: &Json) -> (r: Result<Json, Failure>)
    ensures
        (r matches Ok(v) ==> stream_text(stream@, 0) matches Some(t) && first_json(t, 0) == Some(
            v@,
        ) && schema_ok(v@, schema@)),
        (r == Err::<Json, Failure>(Failure::MalformedChunk) <==> stream_text(stream@, 0) is None),
        (r == Err::<Json, Failure>(Failure::Extraction) <==> (stream_text(stream@, 0) matches Some(
            t,
        ) && first_json(t, 0) is None)),
        (r == Err::<Json, Failure>(Failure::SchemaMismatch) <==> (stream_text(stream@, 0)
            matches Some(t) && first_json(t, 0) matches Some(v) && !schema_ok(v, schema@))),
        (r matches Err(f) ==> f == Failure::MalformedChunk || f == Failure::Extraction || f
            == Failure::SchemaMismatch),
{
    match crate::gemini::reassemble_stream(stream) {
        Err(f) => Err(f),
        Ok(text) => crate::extract::extract_validated(&text, schema),
    }
}

/// The token ceiling for one attempt: the caller's override when one was
/// given, the adapter's default otherwise.
pub fn resolve_max_tokens(requested: Option<usize>, default_ceiling: usize) -> (r: usize)
    ensures
        r == (match requested {
            Some(t) => t,
            None => default_ceiling,
        }),
{
    match requested {
        Some(t) => t,
        None => default_ceiling,
    }
}

/// Whether a worst-case token cost can ever be granted under `limit`: a
/// cost above the per-minute ceiling would block forever.
pub fn cost_admissible(cost: u64, limit: &RateLimit) -> (r: bool)
    ensures
        r == (cost <= limit.tpm as u64),
{
    cost <= limit.tpm as u64
}

/// The state after `k` attempts that all failed with `f`.
pub open spec fn spec_run(p: RetryPolicy, f: Failure, k: nat) -> EngineState
    decreases k,
{
    if k == 0 {
        spec_start(p)
    } else {
        spec_record(spec_run(p, f, (k - 1) as nat), f).0
    }
}

pub proof fn lemma_run_attempts(p: RetryPolicy, f: Failure, k: nat)
    requires
        p.wf(),
        spec_retryable(f),
        k <= p.max_attempts,
    ensures
        spec_run(p, f, k).policy == p,
        spec_run(p, f, k).attempts == k,
        k > 0 ==> spec_run(p, f, k).last == Some(f),
        spec_run(p, f, k).wf(),
    decreases k,
{
    if k > 0 {
        lemma_run_attempts(p, f, (k - 1) as nat);
    }
}

/// Retry-bound law: under a policy of `max_attempts` attempts, a source of
/// responses that always yields the same retryable failure is called for
/// exactly `max_attempts` attempts — each earlier state allows one more
/// call — and the run then ends in `RetriesExhausted` carrying that attempt
/// count and that failure as the last cause.
pub proof fn lemma_retry_exhaustion(p: RetryPolicy, f: Failure)
    requires
        p.wf(),
        spec_retryable(f),
    ensures
        forall|k: nat|
            k < p.max_attempts ==> spec_next_call(#[trigger] spec_run(p, f, k)) == Some(
                (((k + 1) as u32), spec_backoff(p.base_backoff_ms, k as u32)),
            ),
        spec_next_call(spec_run(p, f, p.max_attempts as nat)) is None,
        spec_give_up(spec_run(p, f, p.max_attempts as nat)) == (EngineError::RetriesExhausted {
            attempts: p.max_attempts,
            last: f,
        }),
{
    assert forall|k: nat| k < p.max_attempts implies spec_next_call(#[trigger] spec_run(p, f, k))
        == Some((((k + 1) as u32), spec_backoff(p.base_backoff_ms, k as u32))) by {
        lemma_run_attempts(p, f, k);
    }
    lemma_run_attempts(p, f, p.max_attempts as nat);
}

/// Rate-limited exchanges are retried to exhaustion: HTTP 429 is retryable,
/// and a vendor that always answers 429 ends the run in `RetriesExhausted`
/// citing that status.
pub proof fn lemma_rate_limited_exhaustion(p: RetryPolicy, body: Vec<u8>)
    requires
        p.wf(),
    ensures
        spec_retryable(Failure::HttpStatus(429, body)),
        spec_give_up(spec_run(p, Failure::HttpStatus(429, body), p.max_attempts as nat))
            == (EngineError::RetriesExhausted {
            attempts: p.max_attempts,
            last: Failure::HttpStatus(429, body),
        }),
{
    lemma_retry_exhaustion(p, Failure::HttpStatus(429, body));
}

/// Authentication and malformed-request statuses are fatal: they surface at
/// once and leave the state unchanged.
pub proof fn lemma_auth_fatal(st: EngineState, code: u16, body: Vec<u8>)
    requires
        code == 400 || code == 401 || code == 403,
    ensures
        spec_record(st, Failure::HttpStatus(code, body)) == (
            st,
            Some(EngineError::Fatal(Failure::HttpStatus(code, body))),
        ),
{
}

/// Rolling one-minute usage against a model's rate limit. The engine charges
/// each attempt its worst-case token cost (the request's `max_tokens`)
/// before dispatch, since the real consumption is unknown until the
/// response completes.
pub struct UsageWindow {
    /// Start of the current window, in milliseconds.
    pub window_start_ms: u64,
    /// Requests charged in the current window.
    pub requests: u32,
    /// Tokens charged in the current window.
    pub tokens: u64,
}

/// The window `w` rolled forward to `now` if a minute has passed.
pub open spec fn spec_rolled(w: UsageWindow, now: u64) -> UsageWindow {
    if now >= w.window_start_ms + 60000 {
        UsageWindow { window_start_ms: now, requests: 0, tokens: 0 }
    } else {
        w
    }
}

/// Whether the rolled window can take one more request of `cost` tokens
/// under `limit`, and the window after charging it.
pub open spec fn spec_try_acquire(w: UsageWindow, now: u64, cost: u64, limit: RateLimit) -> (
    UsageWindow,
    bool,
) {
    let r = spec_rolled(w, now);
    if r.requests + 1 <= limit.rpm && r.tokens + cost <= limit.tpm {
        (
            UsageWindow {
                window_start_ms: r.window_start_ms,
                requests: (r.requests + 1) as u32,
                tokens: (r.tokens + cost) as u64,
            },
            true,
        )
    } else {
        (r, false)
    }
}

/// Charges one attempt against the window, rolling it forward first.
pub fn try_acquire(w: UsageWindow, now: u64, cost: u64, limit: &RateLimit) -> (r: (
    UsageWindow,
    bool,
))
    requires
        now >= w.window_start_ms,
        w.tokens <= limit.tpm,
    ensures
        r == spec_try_acquire(w, now, cost, *limit),
{
    let rolled = if now - w.window_start_ms >= 60000 {
        UsageWindow { window_start_ms: now, requests: 0, tokens: 0 }
    } else {
        w
    };
    if rolled.requests < limit.rpm && cost <= (limit.tpm as u64) - rolled.tokens {
        (
            UsageWindow {
                window_start_ms: rolled.window_start_ms,
                requests: rolled.requests + 1,
                tokens: rolled.tokens + cost,
            },
            true,
        )
    } else {
        (rolled, false)
    }
}

} // verus!
