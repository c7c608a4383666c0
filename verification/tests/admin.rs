use deepseek_pool::api_key_manager::ApiKeyManager;
use deepseek_pool::challenge_solver::ChallengeSolver;
use deepseek_pool::config::Config;
use deepseek_pool::deepseek::{
    build_completion_response, build_stream_chunk, extract_sse_payloads, format_conversation_id,
    remaining_quota, split_lines,
};
use deepseek_pool::error::PoolError;
use deepseek_pool::models::{Challenge, FeatureQuota, ThinkingQuota};
use deepseek_pool::retry::{RetryDecision, RetryPolicy};

#[test]
fn api_key_lifecycle() {
    let mut mgr = ApiKeyManager::new();
    let resp = mgr.create_api_key("team".to_string(), Some(2), 1000);
    assert!(resp.api_key.starts_with("dsk-"));
    assert_eq!(resp.api_key.len(), 36);
    assert_eq!(resp.expires_at, Some(1000 + 2 * 86400));
    assert!(mgr.is_api_key_valid(&resp.api_key, 1000));
    assert!(mgr.is_api_key_valid(&resp.api_key, 1000 + 2 * 86400));
    assert!(!mgr.is_api_key_valid(&resp.api_key, 1001 + 2 * 86400));

    let added = mgr.add_account(&resp.api_key, "user@example.com", "tokA".to_string(), 1000).unwrap();
    assert!(added.success);
    assert_eq!(added.accounts_count, 1);
    // the same token is not enrolled twice
    let again = mgr.add_account(&resp.api_key, "user@example.com", "tokA".to_string(), 1000).unwrap();
    assert_eq!(again.accounts_count, 1);

    let token = mgr.get_user_token(&resp.api_key, 1000).unwrap();
    assert_eq!(token, "tokA");
    let info = mgr.get_api_key_info(&resp.api_key).unwrap();
    assert_eq!(info.usage_count, 1);
    assert_eq!(info.accounts_count, 1);
    assert_eq!(mgr.list_api_keys().len(), 1);

    mgr.deactivate_api_key(&resp.api_key).unwrap();
    assert!(!mgr.is_api_key_valid(&resp.api_key, 1000));
    assert_eq!(
        mgr.get_user_token(&resp.api_key, 1000).unwrap_err(),
        PoolError::InvalidApiKey
    );
}

#[test]
fn api_key_errors() {
    let mut mgr = ApiKeyManager::new();
    assert_eq!(
        mgr.add_account("dsk-none", "x", "t".to_string(), 0).unwrap_err(),
        PoolError::InvalidApiKey
    );
    assert_eq!(
        mgr.get_api_key_info("dsk-none").unwrap_err(),
        PoolError::TenantNotFound
    );
    assert_eq!(
        mgr.deactivate_api_key("dsk-none").unwrap_err(),
        PoolError::TenantNotFound
    );
    let resp = mgr.create_api_key("empty".to_string(), None, 0);
    assert_eq!(
        mgr.get_user_token(&resp.api_key, 0).unwrap_err(),
        PoolError::NoAccountsAvailable
    );
}

#[test]
fn expired_keys_are_cleaned() {
    let mut mgr = ApiKeyManager::new();
    let short = mgr.create_api_key("short".to_string(), Some(1), 0);
    let long = mgr.create_api_key("long".to_string(), None, 0);
    let removed = mgr.cleanup_expired_keys(86401);
    assert_eq!(removed, 1);
    assert!(!mgr.is_api_key_valid(&short.api_key, 86401));
    assert!(mgr.is_api_key_valid(&long.api_key, 86401));
    assert_eq!(mgr.list_api_keys().len(), 1);
}

#[test]
fn retry_policy_budget() {
    let p = RetryPolicy::new(3, 5000);
    assert_eq!(p.on_failure(0), RetryDecision::RetryAfter(5000));
    assert_eq!(p.on_failure(2), RetryDecision::RetryAfter(5000));
    assert_eq!(p.on_failure(3), RetryDecision::GiveUp);
    assert_eq!(p.on_failure(4), RetryDecision::GiveUp);
}

#[test]
fn default_config_values() {
    let c = Config::default();
    assert_eq!(c.environment, "development");
    assert_eq!(c.server.port, 8000);
    assert_eq!(c.deepseek.max_retry_count, 3);
    assert_eq!(c.deepseek.retry_delay_ms, 5000);
    assert_eq!(c.deepseek.access_token_expires, 3600);
    assert_eq!(c.deepseek.base_url, "https://chat.deepseek.com");
}

#[test]
fn challenge_answer_echoes_prefix() {
    let solver = ChallengeSolver::new("./solver.wasm".to_string());
    let challenge = Challenge {
        algorithm: "DeepSeekHashV1".to_string(),
        challenge: "abcdef1234567890".to_string(),
        salt: "salty".to_string(),
        difficulty: 144000,
        expire_at: 0,
        signature: "sig".to_string(),
    };
    let answer = solver.build_challenge_answer(&challenge, "/api/v0/chat/completion");
    assert_eq!(answer.answer, "rust_answer_abcdef12");
    assert_eq!(answer.algorithm, "DeepSeekHashV1");
    assert_eq!(answer.target_path, "/api/v0/chat/completion");
}

#[test]
fn quota_subtracts_and_saturates() {
    let q = FeatureQuota { thinking: ThinkingQuota { quota: 10, used: 3 } };
    assert_eq!(remaining_quota(&q), 7);
    let spent = FeatureQuota { thinking: ThinkingQuota { quota: 3, used: 5 } };
    assert_eq!(remaining_quota(&spent), 0);
}

#[test]
fn conversation_id_formatting() {
    assert_eq!(format_conversation_id("sess", "42"), "sess@42");
}

#[test]
fn completion_response_shape() {
    let r = build_completion_response("sess", "1", "deepseek", "hello".to_string(), 7);
    assert_eq!(r.id, "sess@1");
    assert_eq!(r.object, "chat.completion");
    assert_eq!(r.created, 7);
    assert_eq!(r.choices.len(), 1);
    assert_eq!(r.choices[0].finish_reason.as_deref(), Some("stop"));
}

#[test]
fn stream_chunk_shape() {
    let c = build_stream_chunk("sess@1".to_string(), "deepseek", 7, "hi".to_string(), None);
    assert_eq!(c.object, "chat.completion.chunk");
    assert_eq!(c.choices[0].delta.content.as_deref(), Some("hi"));
    assert!(c.choices[0].finish_reason.is_none());
}

#[test]
fn sse_payload_extraction() {
    let body = "event: ping\ndata: {\"a\":1}\r\ndata: [DONE]\n\ndata: {\"b\":2}";
    let payloads = extract_sse_payloads(body);
    assert_eq!(payloads, vec!["{\"a\":1}".to_string(), "{\"b\":2}".to_string()]);
    assert_eq!(split_lines("a\r\nb\n"), vec!["a".to_string(), "b".to_string()]);
}
