//! The service's configuration, as plain values; reading the environment
//! happens outside the library.

use vstd::prelude::*;

verus! {

#[derive(Debug)]
pub struct Config {
    pub environment: String,
    pub server: ServerConfig,
    pub deepseek: DeepSeekConfig,
}

#[derive(Debug)]
pub struct ServerConfig {
    pub host: String,
    pub port: u16,
    pub cors_origins: Vec<String>,
}

#[derive(Debug)]
pub struct DeepSeekConfig {
    pub base_url: String,
    pub wasm_path: String,
    pub max_retry_count: u32,
    pub retry_delay_ms: u64,
    pub access_token_expires: u64,
    pub authorization: Option<String>,
}

impl Default for Config {
    /// The development defaults: three retries five seconds apart, hour-long
    /// access tokens, the public upstream endpoint.
    fn default() -> (r: Self)
        ensures
            r.environment@ == "development"@,
            r.server.host@ == "0.0.0.0"@,
            r.server.port == 8000,
            r.server.cors_origins@.len() == 1,
            r.deepseek.base_url@ == "https://chat.deepseek.com"@,
            r.deepseek.wasm_path@ == "./sha3_wasm_bg.7b9ca65ddd.wasm"@,
            r.deepseek.max_retry_count == 3,
            r.deepseek.retry_delay_ms == 5000,
            r.deepseek.access_token_expires == 3600,
            r.deepseek.authorization is None,
    {
        let mut cors_origins: Vec<String> = Vec::new();
        cors_origins.push(String::from_str("*"));
        Config {
            environment: String::from_str("development"),
            server: ServerConfig { host: String::from_str("0.0.0.0"), port: 8000, cors_origins },
            deepseek: DeepSeekConfig {
                base_url: String::from_str("https://chat.deepseek.com"),
                wasm_path: String::from_str("./sha3_wasm_bg.7b9ca65ddd.wasm"),
                max_retry_count: 3,
                retry_delay_ms: 5000,
                access_token_expires: 3600,
                authorization: None,
            },
        }
    }
}

} // verus!
