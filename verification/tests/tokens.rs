use deepseek_pool::error::PoolError;
use deepseek_pool::token_manager::{AcquireOutcome, TokenManager, INVALID_CREDENTIAL_CODE};

// Two callers race on a cold cache: exactly one is handed the refresh, the
// other waits; after the one publish, both read the same token.
#[test]
fn single_flight_refresh() {
    let mut tm = TokenManager::new(3600);
    let first = tm.acquire_token("r1", 1000);
    assert!(matches!(first, AcquireOutcome::MustRefresh));
    let second = tm.acquire_token("r1", 1000);
    assert!(matches!(second, AcquireOutcome::Busy));
    let published = tm.apply_refresh_response("r1", Some("t1".to_string()), None, 1000);
    assert_eq!(published.unwrap(), "t1");
    let w1 = tm.acquire_token("r1", 1001);
    let w2 = tm.acquire_token("r1", 1002);
    assert!(matches!(w1, AcquireOutcome::Token(t) if t == "t1"));
    assert!(matches!(w2, AcquireOutcome::Token(t) if t == "t1"));
}

// A cold cache refresh publishing {t1, 3600s}: calls within the hour read
// t1 with no collaborator call; after the hour the collaborator is asked
// again.
#[test]
fn scenario_cache_ttl() {
    let mut tm = TokenManager::new(3600);
    let r = tm.acquire_token("r1", 0);
    assert!(matches!(r, AcquireOutcome::MustRefresh));
    tm.apply_refresh_response("r1", Some("t1".to_string()), None, 0).unwrap();
    let within = tm.acquire_token("r1", 3599);
    assert!(matches!(within, AcquireOutcome::Token(t) if t == "t1"));
    let after = tm.acquire_token("r1", 3600);
    assert!(matches!(after, AcquireOutcome::MustRefresh));
}

// An invalid-credential code evicts the entry: the next ask goes back to the
// collaborator instead of reusing a cached failure.
#[test]
fn scenario_invalid_credential_evicts() {
    let mut tm = TokenManager::new(3600);
    assert!(matches!(tm.acquire_token("r1", 0), AcquireOutcome::MustRefresh));
    tm.apply_refresh_response("r1", Some("t1".to_string()), None, 0).unwrap();
    assert!(tm.check_token_status("r1", 10));
    // the credential goes bad upstream
    assert!(matches!(tm.acquire_token("r1", 4000), AcquireOutcome::MustRefresh));
    let failed = tm.apply_refresh_response(
        "r1",
        None,
        Some(INVALID_CREDENTIAL_CODE),
        4000,
    );
    assert_eq!(failed.unwrap_err(), PoolError::RefreshFailed { code: INVALID_CREDENTIAL_CODE });
    assert!(!tm.check_token_status("r1", 4001));
    // the entry is gone, so the next ask asks the collaborator again
    assert!(matches!(tm.acquire_token("r1", 4001), AcquireOutcome::MustRefresh));
}

// Other refresh failures are surfaced without evicting the cached entry.
#[test]
fn transient_failure_keeps_entry() {
    let mut tm = TokenManager::new(3600);
    assert!(matches!(tm.acquire_token("r1", 0), AcquireOutcome::MustRefresh));
    tm.apply_refresh_response("r1", Some("t1".to_string()), None, 0).unwrap();
    assert!(matches!(tm.acquire_token("r1", 4000), AcquireOutcome::MustRefresh));
    let failed = tm.apply_refresh_response("r1", None, Some(50000), 4000);
    assert_eq!(failed.unwrap_err(), PoolError::RefreshFailed { code: 50000 });
    // the stale entry is still there (fresh reads see it before its expiry)
    assert!(tm.check_token_status("r1", 100));
    // and the lock is free again
    assert!(matches!(tm.acquire_token("r1", 4000), AcquireOutcome::MustRefresh));
}

#[test]
fn transport_failure_reports_upstream() {
    let mut tm = TokenManager::new(3600);
    assert!(matches!(tm.acquire_token("r1", 0), AcquireOutcome::MustRefresh));
    let failed = tm.apply_refresh_response("r1", None, None, 0);
    assert_eq!(failed.unwrap_err(), PoolError::UpstreamUnavailable);
    assert!(!tm.check_token_status("r1", 0));
}

#[test]
fn remove_token_forgets_credential() {
    let mut tm = TokenManager::new(3600);
    assert!(matches!(tm.acquire_token("r1", 0), AcquireOutcome::MustRefresh));
    tm.apply_refresh_response("r1", Some("t1".to_string()), None, 0).unwrap();
    tm.remove_token("r1");
    assert!(!tm.check_token_status("r1", 1));
}

#[test]
fn cleanup_semaphores_keeps_held_locks() {
    let mut tm = TokenManager::new(3600);
    assert!(matches!(tm.acquire_token("r1", 0), AcquireOutcome::MustRefresh));
    // r2 takes and releases its lock
    assert!(matches!(tm.acquire_token("r2", 0), AcquireOutcome::MustRefresh));
    tm.apply_refresh_response("r2", None, None, 0).unwrap_err();
    tm.cleanup_semaphores();
    // r1's refresh is still in flight: a second caller still waits
    assert!(matches!(tm.acquire_token("r1", 0), AcquireOutcome::Busy));
    // r2's lock was pruned while idle: the next caller takes it afresh
    assert!(matches!(tm.acquire_token("r2", 0), AcquireOutcome::MustRefresh));
}

#[test]
fn distinct_credentials_do_not_share_locks() {
    let mut tm = TokenManager::new(3600);
    assert!(matches!(tm.acquire_token("r1", 0), AcquireOutcome::MustRefresh));
    assert!(matches!(tm.acquire_token("r2", 0), AcquireOutcome::MustRefresh));
    tm.apply_refresh_response("r1", Some("t1".to_string()), None, 0).unwrap();
    tm.apply_refresh_response("r2", Some("t2".to_string()), None, 0).unwrap();
    assert!(matches!(tm.acquire_token("r1", 1), AcquireOutcome::Token(t) if t == "t1"));
    assert!(matches!(tm.acquire_token("r2", 1), AcquireOutcome::Token(t) if t == "t2"));
}
