//! The wire-shaped data the service passes around, as plain values.

use vstd::prelude::*;

verus! {

#[derive(Debug)]
pub struct ChatMessage {
    pub role: String,
    pub content: ChatMessageContent,
}

#[derive(Debug)]
pub enum ChatMessageContent {
    Text(String),
    Array(Vec<ContentPart>),
}

#[derive(Debug)]
pub struct ContentPart {
    pub content_type: String,
    pub text: Option<String>,
    pub image_url: Option<ImageUrl>,
}

#[derive(Debug)]
pub struct ImageUrl {
    pub url: String,
    pub detail: Option<String>,
}

#[derive(Debug)]
pub struct ChatCompletionResponse {
    pub id: String,
    pub object: String,
    pub created: u64,
    pub model: String,
    pub choices: Vec<ChatChoice>,
    pub usage: Option<ChatUsage>,
}

#[derive(Debug)]
pub struct ChatChoice {
    pub index: u32,
    pub message: Option<ChatMessage>,
    pub delta: Option<ChatMessageDelta>,
    pub finish_reason: Option<String>,
}

#[derive(Debug)]
pub struct ChatMessageDelta {
    pub role: Option<String>,
    pub content: Option<String>,
    pub reasoning_content: Option<String>,
}

#[derive(Debug, Clone, Copy, PartialEq, Eq, Structural)]
pub struct ChatUsage {
    pub prompt_tokens: u32,
    pub completion_tokens: u32,
    pub total_tokens: u32,
}

#[derive(Debug)]
pub struct DeepSeekResponse<T> {
    pub code: Option<u32>,
    pub data: Option<T>,
    pub biz_data: Option<T>,
    pub msg: Option<String>,
}

#[derive(Debug)]
pub struct UserInfo {
    pub token: String,
    pub id: Option<String>,
    pub email: Option<String>,
}

#[derive(Debug)]
pub struct ChatSession {
    pub id: String,
    pub character_id: Option<String>,
}

#[derive(Debug)]
pub struct ChallengeRequest {
    pub target_path: String,
}

#[derive(Debug)]
pub struct ChallengeResponse {
    pub challenge: Challenge,
}

#[derive(Debug)]
pub struct Challenge {
    pub algorithm: String,
    pub challenge: String,
    pub salt: String,
    pub difficulty: u32,
    pub expire_at: u64,
    pub signature: String,
}

#[derive(Debug)]
pub struct ChallengeAnswer {
    pub algorithm: String,
    pub challenge: String,
    pub salt: String,
    pub answer: String,
    pub signature: String,
    pub target_path: String,
}

#[derive(Debug)]
pub struct CompletionRequest {
    pub chat_session_id: String,
    pub parent_message_id: Option<String>,
    pub prompt: String,
    pub ref_file_ids: Vec<String>,
    pub search_enabled: bool,
    pub thinking_enabled: bool,
}

#[derive(Debug, Clone, Copy, PartialEq, Eq, Structural)]
pub struct ThinkingQuota {
    pub quota: u32,
    pub used: u32,
}

#[derive(Debug, Clone, Copy, PartialEq, Eq, Structural)]
pub struct FeatureQuota {
    pub thinking: ThinkingQuota,
}

#[derive(Debug)]
pub struct TokenCheckRequest {
    pub token: String,
}

#[derive(Debug, Clone, Copy, PartialEq, Eq, Structural)]
pub struct TokenCheckResponse {
    pub live: bool,
}

#[derive(Debug)]
pub struct LoginRequest {
    pub email: String,
    pub password: String,
}

#[derive(Debug)]
pub struct LoginResponse {
    pub user_token: String,
    pub success: bool,
    pub message: Option<String>,
}

#[derive(Debug)]
pub struct DeepSeekLoginRequest {
    pub email: String,
    pub password: String,
    pub captcha_token: Option<String>,
}

#[derive(Debug)]
pub struct DeepSeekLoginResponse {
    pub code: Option<u32>,
    pub data: Option<LoginData>,
    pub msg: Option<String>,
}

#[derive(Debug)]
pub struct LoginData {
    pub token: String,
    pub user: Option<UserProfile>,
}

#[derive(Debug)]
pub struct UserProfile {
    pub id: String,
    pub email: String,
    pub name: Option<String>,
}

#[derive(Debug)]
pub struct ApiKey {
    pub id: String,
    pub key: String,
    pub name: String,
    pub user_tokens: Vec<String>,
    pub created_at: u64,
    pub expires_at: Option<u64>,
    pub usage_count: u64,
    pub is_active: bool,
}

#[derive(Debug)]
pub struct CreateApiKeyRequest {
    pub name: String,
    pub expires_days: Option<u32>,
}

#[derive(Debug)]
pub struct CreateApiKeyResponse {
    pub api_key: String,
    pub name: String,
    pub created_at: u64,
    pub expires_at: Option<u64>,
}

#[derive(Debug)]
pub struct AddAccountRequest {
    pub api_key: String,
    pub email: String,
    pub password: String,
}

#[derive(Debug)]
pub struct AddAccountResponse {
    pub success: bool,
    pub message: String,
    pub accounts_count: usize,
}

#[derive(Debug)]
pub struct ApiKeyInfo {
    pub id: String,
    pub name: String,
    pub accounts_count: usize,
    pub usage_count: u64,
    pub created_at: u64,
    pub expires_at: Option<u64>,
    pub is_active: bool,
}

#[derive(Debug)]
pub struct StreamChunk {
    pub id: String,
    pub object: String,
    pub created: u64,
    pub model: String,
    pub choices: Vec<StreamChoice>,
}

#[derive(Debug)]
pub struct StreamChoice {
    pub index: u32,
    pub delta: ChatMessageDelta,
    pub finish_reason: Option<String>,
}

#[derive(Debug)]
pub struct DeepSeekStreamData {
    pub message_id: Option<String>,
    pub choices: Option<Vec<DeepSeekChoice>>,
}

#[derive(Debug)]
pub struct DeepSeekChoice {
    pub delta: DeepSeekDelta,
    pub finish_reason: Option<String>,
}

#[derive(Debug)]
pub struct DeepSeekDelta {
    pub delta_type: Option<String>,
    pub content: Option<String>,
    pub search_results: Option<Vec<SearchResult>>,
}

#[derive(Debug)]
pub struct SearchResult {
    pub title: String,
    pub url: String,
}

} // verus!
