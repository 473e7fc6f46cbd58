use kxen_core::auth::{AuthStore, CredentialKind};
use kxen_core::llm::retry::{backoff_from, backoff_ms, known_zero_rejection, next_account, retryable};

fn api(key: &str) -> CredentialKind {
    CredentialKind::Api { key: key.into(), region: None }
}

#[test]
fn retryable_classification() {
    assert!(retryable("xai HTTP 429: too many requests"));
    assert!(!retryable("HTTP 503: upstream unavailable"));
    assert!(!retryable("request failed: connection reset"));
    assert!(!retryable("operation timed out"));
    assert!(!retryable("HTTP 401: unauthorized"));
    assert!(!retryable("missing command"));
    assert!(known_zero_rejection("openai HTTP 401: revoked", true));
    assert!(known_zero_rejection("xai HTTP 429: too many requests", false));
    assert!(!known_zero_rejection("request failed: connection reset", false));
}

#[test]
fn rate_limit_is_recognised_in_any_case() {
    assert!(retryable("Rate Limit exceeded"));
    assert!(retryable("RATE_LIMIT_EXCEEDED"));
    assert!(!retryable("rate-limit"));
}

#[test]
fn backoff_grows() {
    assert!(backoff_ms(0) >= 800 && backoff_ms(0) < 1300);
    assert!(backoff_ms(1) >= 1600);
    assert!(backoff_ms(2) >= 3200);
}

#[test]
fn backoff_adds_the_jitter_of_the_clock() {
    assert_eq!(backoff_from(0, 0), 800);
    assert_eq!(backoff_from(1, 499), 2099);
    assert_eq!(backoff_from(2, 500), 3200);
    assert_eq!(backoff_from(3, 999), 6899);
    assert_eq!(backoff_from(9, 1), 6401);
}

#[test]
fn next_account_rotates() {
    let mut store = AuthStore::new();
    store.insert("xai", api("k1"));
    store.insert("xai:work", api("k2"));
    assert_eq!(next_account(&store, "xai", None).as_deref(), Some("work"));
    assert_eq!(next_account(&store, "xai", Some("work")).as_deref(), Some("default"));
    assert_eq!(next_account(&store, "openai", None), None);
    let mut single = AuthStore::new();
    single.insert("xai", api("k"));
    assert_eq!(next_account(&single, "xai", None), None);
}
