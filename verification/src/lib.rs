//! A pool and token-lifecycle manager for a chat service backed by upstream
//! accounts, each limited to one in-flight conversation at a time.
//!
//! The library owns the data structures and decision logic: tenant pools,
//! per-account sessions with mutual exclusion, conversation routing, the
//! credential cache with single-flight refresh, and the retry policy.
//! Network calls, clocks and randomness enter only through narrow trusted
//! wrappers or as plain arguments.

pub mod api_key_manager;
pub mod challenge_solver;
pub mod config;
pub mod deepseek;
pub mod error;
pub mod message_processor;
pub mod models;
pub mod retry;
pub mod session_pool;
pub mod strmap;
pub mod text;
pub mod token_manager;
pub mod utils;

pub use error::PoolError;
pub use strmap::StrMap;
