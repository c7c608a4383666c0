use deepseek_pool::utils::{
    format_cookie, format_timestamp, generate_cookie, generate_random_string, generate_uuid,
    generate_uuid_simple, is_fold_model, is_search_model, is_silent_model, is_thinking_model,
    parse_conversation_id, select_random_token, split_tokens, u64_to_string, unix_timestamp,
    unix_timestamp_ms,
};

#[test]
fn test_generate_random_string() {
    let hex_str = generate_random_string(16, "hex");
    assert_eq!(hex_str.len(), 16);
    assert!(hex_str.chars().all(|c| "0123456789abcdef".contains(c)));
}

#[test]
fn test_split_tokens() {
    let auth = "Bearer token1,token2,token3";
    let tokens = split_tokens(auth);
    assert_eq!(tokens.len(), 3);
    assert_eq!(tokens[0], "token1");
    assert_eq!(tokens[1], "token2");
    assert_eq!(tokens[2], "token3");
}

#[test]
fn test_split_tokens_trims_and_drops_empty() {
    let tokens = split_tokens("Bearer  a , ,b,");
    assert_eq!(tokens, vec!["a".to_string(), "b".to_string()]);
}

#[test]
fn test_parse_conversation_id() {
    let conv_id = "12345678-1234-1234-1234-123456789012@123";
    let (session_id, parent_id) = parse_conversation_id(conv_id).unwrap();
    assert_eq!(session_id, "12345678-1234-1234-1234-123456789012");
    assert_eq!(parent_id, "123");
}

#[test]
fn test_parse_conversation_id_rejects_bad_shapes() {
    assert!(parse_conversation_id("not-a-conversation-id").is_none());
    assert!(parse_conversation_id("12345678-1234-1234-1234-123456789012").is_none());
    assert!(parse_conversation_id("12345678-1234-1234-1234-123456789012@").is_none());
    assert!(parse_conversation_id("12345678-1234-1234-1234-123456789012@12a").is_none());
}

#[test]
fn test_model_checks() {
    assert!(is_search_model("deepseek-search"));
    assert!(is_thinking_model("deepseek-think"));
    assert!(is_thinking_model("deepseek-r1"));
    assert!(is_silent_model("deepseek-think-silent"));
    assert!(is_fold_model("deepseek-think-fold"));
}

#[test]
fn test_model_checks_negative() {
    assert!(!is_search_model("deepseek"));
    assert!(!is_thinking_model("deepseek-search"));
    assert!(!is_silent_model("deepseek-think"));
    assert!(!is_fold_model("deepseek-think-silent"));
}

#[test]
fn test_uuid_shapes() {
    let long = generate_uuid();
    assert_eq!(long.len(), 36);
    let short = generate_uuid_simple();
    assert_eq!(short.len(), 32);
    assert_ne!(generate_uuid(), generate_uuid());
}

#[test]
fn test_select_random_token() {
    let empty: Vec<String> = vec![];
    assert!(select_random_token(&empty).is_none());
    let tokens = vec!["one".to_string(), "two".to_string()];
    let picked = select_random_token(&tokens).unwrap();
    assert!(picked == "one" || picked == "two");
}

#[test]
fn test_u64_to_string() {
    assert_eq!(u64_to_string(0), "0");
    assert_eq!(u64_to_string(7), "7");
    assert_eq!(u64_to_string(105), "105");
    assert_eq!(u64_to_string(u64::MAX), "18446744073709551615");
}

#[test]
fn test_format_cookie_layout() {
    let cookie = format_cookie(1700000000123, "aabbccdd", "u1", "u2", "u3", "u4", "u5", 1700000000);
    assert_eq!(
        cookie,
        "intercom-HWWAFSESTIME=1700000000123; HWWAFSESID=aabbccdd; Hm_lvt_u1=1700000000,1700000000,1700000000; Hm_lpvt_u2=1700000000; _frid=u3; _fr_ssid=u4; _fr_pvid=u5"
    );
}

#[test]
fn test_generate_cookie_mentions_markers() {
    let cookie = generate_cookie();
    assert!(cookie.starts_with("intercom-HWWAFSESTIME="));
    assert!(cookie.contains("; HWWAFSESID="));
    assert!(cookie.contains("; _fr_pvid="));
}

#[test]
fn test_format_timestamp_epoch() {
    assert_eq!(format_timestamp(0), "1970-01-01 00:00:00 UTC");
    assert_eq!(format_timestamp(1700000000), "2023-11-14 22:13:20 UTC");
}

#[test]
fn test_clocks_move_forward() {
    let s = unix_timestamp();
    let ms = unix_timestamp_ms();
    assert!(s > 1_600_000_000);
    assert!(ms / 1000 >= s);
}
