use deepseek_pool::error::PoolError;
use deepseek_pool::session_pool::{SessionPoolManager, SessionState};

fn pool_with_two_accounts() -> SessionPoolManager {
    let mut m = SessionPoolManager::new();
    m.add_account("K1".to_string(), "a1".to_string(), "tok1".to_string(), 100);
    m.add_account("K1".to_string(), "a2".to_string(), "tok2".to_string(), 100);
    m
}

#[test]
fn acquire_unknown_tenant_fails() {
    let mut m = SessionPoolManager::new();
    let r = m.acquire_session("nope", None, 100);
    assert!(matches!(r, Err(PoolError::TenantNotFound)));
}

#[test]
fn acquire_activates_and_routes() {
    let mut m = pool_with_two_accounts();
    let (conv, sess) = m.acquire_session("K1", None, 100).unwrap();
    assert_eq!(conv.len(), 36);
    assert_eq!(sess.state, SessionState::Active);
    assert_eq!(sess.account_email, "a1");
    assert_eq!(sess.api_key, "K1");
    let stats = m.get_api_key_stats("K1").unwrap();
    assert_eq!(stats.total_accounts, 2);
    assert_eq!(stats.active_sessions, 1);
    assert_eq!(stats.available_accounts, 1);
    assert_eq!(stats.total_sessions, 1);
}

// Two fresh conversations in flight land on two different accounts, and at
// no instant does one account hold two active sessions.
#[test]
fn mutual_exclusion_per_account() {
    let mut m = pool_with_two_accounts();
    let (conv1, sess1) = m.acquire_session("K1", None, 100).unwrap();
    let (conv2, sess2) = m.acquire_session("K1", None, 100).unwrap();
    assert_ne!(sess1.account_email, sess2.account_email);
    let stats = m.get_api_key_stats("K1").unwrap();
    assert_eq!(stats.active_sessions, 2);
    // with both permits held, a third caller is told to wait
    let r3 = m.acquire_session("K1", None, 100);
    assert!(matches!(r3, Err(PoolError::AccountBusyTimeout)));
    m.release_session(&conv1);
    m.release_session(&conv2);
    let stats = m.get_api_key_stats("K1").unwrap();
    assert_eq!(stats.active_sessions, 0);
}

// Acquire, release, acquire again: the conversation stays on its account.
#[test]
fn session_affinity_across_release() {
    let mut m = pool_with_two_accounts();
    let (conv, sess) = m.acquire_session("K1", None, 100).unwrap();
    let email_first = sess.account_email.clone();
    m.release_session(&conv);
    let (conv2, sess2) = m.acquire_session("K1", Some(conv.clone()), 200).unwrap();
    assert_eq!(conv2, conv);
    assert_eq!(sess2.account_email, email_first);
}

// A conversation whose account is busy with another conversation waits.
#[test]
fn routed_conversation_waits_for_its_account() {
    let mut m = SessionPoolManager::new();
    m.add_account("K1".to_string(), "a1".to_string(), "tok1".to_string(), 100);
    let (conv1, _) = m.acquire_session("K1", None, 100).unwrap();
    m.release_session(&conv1);
    let (conv2, _) = m.acquire_session("K1", None, 150).unwrap();
    assert_ne!(conv1, conv2);
    // conv2 holds a1's permit, so reusing conv1 on a1 must wait
    let r = m.acquire_session("K1", Some(conv1.clone()), 160);
    assert!(matches!(r, Err(PoolError::AccountBusyTimeout)));
    m.release_session(&conv2);
    let (conv3, _) = m.acquire_session("K1", Some(conv1.clone()), 170).unwrap();
    assert_eq!(conv3, conv1);
}

// A fresh conversation prefers the idle account over the active one.
#[test]
fn load_balancing_prefers_idle_account() {
    let mut m = pool_with_two_accounts();
    let (_, sess1) = m.acquire_session("K1", None, 100).unwrap();
    assert_eq!(sess1.account_email, "a1");
    let (_, sess2) = m.acquire_session("K1", None, 100).unwrap();
    assert_eq!(sess2.account_email, "a2");
}

// Register a1 and a2 under one tenant, acquire twice: the first call gets a1
// (the tie breaks on registration order), the second proceeds on a2, and at
// every sampled instant each account has at most one active session.
#[test]
fn scenario_two_accounts_two_calls() {
    let mut m = pool_with_two_accounts();
    let (conv1, sess1) = m.acquire_session("K1", None, 100).unwrap();
    assert_eq!(sess1.account_email, "a1");
    let stats = m.get_api_key_stats("K1").unwrap();
    assert_eq!(stats.active_sessions, 1);
    let (conv2, sess2) = m.acquire_session("K1", None, 100).unwrap();
    assert_eq!(sess2.account_email, "a2");
    let stats = m.get_api_key_stats("K1").unwrap();
    assert_eq!(stats.active_sessions, 2);
    assert_ne!(conv1, conv2);
}

// A session past the idle timeout is swept, and its route with it.
#[test]
fn expiry_sweep_drops_session_and_route() {
    let mut m = pool_with_two_accounts();
    let (conv, _) = m.acquire_session("K1", None, 100).unwrap();
    m.release_session(&conv);
    // one hour has passed: the session is stale
    let removed = m.cleanup_expired_sessions(100 + 3601 + 1);
    assert_eq!(removed, 1);
    let stats = m.get_api_key_stats("K1").unwrap();
    assert_eq!(stats.total_sessions, 0);
    // the route is gone too: the conversation id lands on a fresh session
    let (conv2, sess2) = m.acquire_session("K1", Some(conv.clone()), 100 + 3601 + 2).unwrap();
    assert_eq!(conv2, conv);
    assert_eq!(sess2.messages_count, 0);
    assert_eq!(sess2.created_at, 100 + 3601 + 2);
}

#[test]
fn sweep_keeps_fresh_sessions() {
    let mut m = pool_with_two_accounts();
    let (conv, _) = m.acquire_session("K1", None, 100).unwrap();
    m.release_session(&conv);
    let removed = m.cleanup_expired_sessions(200);
    assert_eq!(removed, 0);
    let stats = m.get_api_key_stats("K1").unwrap();
    assert_eq!(stats.total_sessions, 1);
}

#[test]
fn release_without_route_is_a_no_op() {
    let mut m = pool_with_two_accounts();
    m.release_session("unknown-conversation");
    let stats = m.get_api_key_stats("K1").unwrap();
    assert_eq!(stats.active_sessions, 0);
    assert_eq!(stats.total_sessions, 0);
}

#[test]
fn release_counts_turns() {
    let mut m = pool_with_two_accounts();
    let (conv, _) = m.acquire_session("K1", None, 100).unwrap();
    m.release_session(&conv);
    let (_, sess) = m.acquire_session("K1", Some(conv.clone()), 150).unwrap();
    assert_eq!(sess.messages_count, 1);
    assert_eq!(sess.state, SessionState::Active);
}

// Releasing twice leaves exactly the state of releasing once: the turn
// count does not rise again and nothing else moves.
#[test]
fn release_is_idempotent() {
    let mut m = pool_with_two_accounts();
    let (conv, _) = m.acquire_session("K1", None, 100).unwrap();
    m.release_session(&conv);
    m.release_session(&conv);
    m.release_session(&conv);
    let (_, sess) = m.acquire_session("K1", Some(conv.clone()), 150).unwrap();
    assert_eq!(sess.messages_count, 1);
}

// A release by a conversation that does not hold the permit is a no-op:
// the actual holder keeps it and no turn is counted.
#[test]
fn release_by_non_holder_is_a_no_op() {
    let mut m = SessionPoolManager::new();
    m.add_account("K1".to_string(), "a1".to_string(), "tok1".to_string(), 100);
    let (conv1, _) = m.acquire_session("K1", None, 100).unwrap();
    m.release_session(&conv1);
    let (conv2, _) = m.acquire_session("K1", None, 150).unwrap();
    // conv2 holds a1's permit now; releasing conv1 must change nothing
    m.release_session(&conv1);
    let stats = m.get_api_key_stats("K1").unwrap();
    assert_eq!(stats.active_sessions, 1);
    // conv1's turn count did not rise a second time
    m.release_session(&conv2);
    let (_, sess1) = m.acquire_session("K1", Some(conv1.clone()), 200).unwrap();
    assert_eq!(sess1.messages_count, 1);
}

#[test]
fn stats_for_unknown_tenant_absent() {
    let m = SessionPoolManager::new();
    assert!(m.get_api_key_stats("K1").is_none());
}
