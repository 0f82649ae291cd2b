use allms::engine::{
    complete_body, cost_admissible, engine_start, give_up, next_call, record_failure,
    resolve_max_tokens, retryable, try_acquire, RetryPolicy, UsageWindow,
};
use allms::errors::{EngineError, Failure};
use allms::json::{to_bytes, Json};
use allms::RateLimit;

fn obj(fields: Vec<(&str, Json)>) -> Json {
    Json::Obj(fields.into_iter().map(|(k, v)| (k.as_bytes().to_vec(), v)).collect())
}

fn s(text: &str) -> Json {
    Json::Str(text.as_bytes().to_vec())
}

fn colors_schema() -> Json {
    obj(vec![("colors", Json::Arr(vec![s("string")]))])
}

fn policy(max_attempts: u32) -> RetryPolicy {
    RetryPolicy { max_attempts, base_backoff_ms: 100 }
}

/// A stub vendor whose answer never matches the schema.
fn mismatching_stream() -> Vec<u8> {
    b"data: {\"candidates\":[{\"content\":{\"role\":\"model\",\"parts\":[{\"text\":\"{\\\"x\\\":1}\"}]}}]}".to_vec()
}

#[test]
fn classification_follows_the_policy() {
    assert!(retryable(&Failure::Transport));
    assert!(retryable(&Failure::MalformedChunk));
    assert!(retryable(&Failure::Extraction));
    assert!(retryable(&Failure::SchemaMismatch));
    assert!(retryable(&Failure::HttpStatus(429, b"rate limited".to_vec())));
    assert!(retryable(&Failure::HttpStatus(500, vec![])));
    assert!(retryable(&Failure::HttpStatus(503, vec![])));
    assert!(!retryable(&Failure::HttpStatus(400, vec![])));
    assert!(!retryable(&Failure::HttpStatus(401, vec![])));
    assert!(!retryable(&Failure::HttpStatus(403, vec![])));
    assert!(!retryable(&Failure::Configuration));
}

#[test]
fn retry_bound_is_exact_on_schema_mismatch() {
    let bound: u32 = 3;
    let mut st = engine_start(policy(bound));
    let schema = colors_schema();
    let mut calls: u32 = 0;
    loop {
        match next_call(&st) {
            None => break,
            Some((attempt, _backoff)) => {
                calls += 1;
                assert_eq!(attempt, calls);
                let f = complete_body(&mismatching_stream(), &schema)
                    .expect_err("stub never matches the schema");
                assert!(matches!(f, Failure::SchemaMismatch));
                let (next, fatal) = record_failure(st, f);
                assert!(fatal.is_none());
                st = next;
            }
        }
    }
    assert_eq!(calls, bound);
    match give_up(st) {
        EngineError::RetriesExhausted { attempts, last } => {
            assert_eq!(attempts, bound);
            assert!(matches!(last, Failure::SchemaMismatch));
        }
        _ => panic!("expected exhausted retries"),
    }
}

#[test]
fn http_429_retries_to_exhaustion() {
    let bound: u32 = 4;
    let mut st = engine_start(policy(bound));
    let mut calls: u32 = 0;
    while let Some((_attempt, _backoff)) = next_call(&st) {
        calls += 1;
        let f = Failure::HttpStatus(429, b"rate limited".to_vec());
        let (next, fatal) = record_failure(st, f);
        assert!(fatal.is_none());
        st = next;
    }
    assert_eq!(calls, bound);
    match give_up(st) {
        EngineError::RetriesExhausted { attempts, last } => {
            assert_eq!(attempts, bound);
            match last {
                Failure::HttpStatus(code, body) => {
                    assert_eq!(code, 429);
                    assert_eq!(body, b"rate limited");
                }
                _ => panic!("expected the status to be cited"),
            }
        }
        _ => panic!("expected exhausted retries"),
    }
}

#[test]
fn auth_failures_are_fatal_immediately() {
    let st = engine_start(policy(5));
    let (_st, fatal) = record_failure(st, Failure::HttpStatus(401, b"no".to_vec()));
    match fatal {
        Some(EngineError::Fatal(Failure::HttpStatus(401, _))) => {}
        _ => panic!("expected an immediate fatal error"),
    }
}

#[test]
fn backoff_grows_and_is_capped() {
    let p = RetryPolicy { max_attempts: 10, base_backoff_ms: 100 };
    let mut st = engine_start(p);
    let mut seen: Vec<u64> = Vec::new();
    while let Some((_attempt, backoff)) = next_call(&st) {
        seen.push(backoff);
        let (next, _) = record_failure(st, Failure::Transport);
        st = next;
    }
    assert_eq!(seen, vec![0, 100, 200, 400, 800, 1600, 3200, 3200, 3200, 3200]);
}

#[test]
fn end_to_end_reference_scenario() {
    let stream =
        b"data: {\"candidates\":[{\"content\":{\"role\":\"model\",\"parts\":[{\"text\":\"{\\\"colors\\\":[\\\"red\\\",\\\"blue\\\"]}\"}]}}]}"
            .to_vec();
    let schema = colors_schema();
    let v = complete_body(&stream, &schema).expect("the stub answer is schema-valid");
    assert_eq!(to_bytes(&v), b"{\"colors\":[\"red\",\"blue\"]}");
}

#[test]
fn usage_window_enforces_both_ceilings() {
    let limit = RateLimit { tpm: 1000, rpm: 2 };
    let w = UsageWindow { window_start_ms: 0, requests: 0, tokens: 0 };
    let (w, ok) = try_acquire(w, 0, 400, &limit);
    assert!(ok);
    let (w, ok) = try_acquire(w, 1000, 400, &limit);
    assert!(ok);
    // Third request in the same minute: request ceiling reached.
    let (w, ok) = try_acquire(w, 2000, 100, &limit);
    assert!(!ok);
    // A minute later the window rolls over.
    let (w, ok) = try_acquire(w, 61000, 900, &limit);
    assert!(ok);
    // Token ceiling blocks even though a request slot is free.
    let (_w, ok) = try_acquire(w, 61001, 200, &limit);
    assert!(!ok);
}

#[test]
fn failure_kinds_have_stable_names() {
    assert_eq!(Failure::Transport.kind_name(), "transport");
    assert_eq!(Failure::HttpStatus(500, vec![]).kind_name(), "http_status");
    assert_eq!(Failure::MalformedChunk.kind_name(), "malformed_chunk");
    assert_eq!(Failure::Extraction.kind_name(), "extraction");
    assert_eq!(Failure::SchemaMismatch.kind_name(), "schema_mismatch");
    assert_eq!(Failure::Configuration.kind_name(), "configuration");
}

#[test]
fn max_tokens_fallback_and_cost_admissibility() {
    assert_eq!(resolve_max_tokens(Some(1000), 32000), 1000);
    assert_eq!(resolve_max_tokens(None, 32000), 32000);
    let limit = RateLimit { tpm: 1_920_000, rpm: 60 };
    assert!(cost_admissible(32000, &limit));
    assert!(cost_admissible(1_920_000, &limit));
    assert!(!cost_admissible(1_920_001, &limit));
}
