//! The library's error taxonomy.

use vstd::prelude::*;

verus! {

/// What can go wrong while acquiring a session or refreshing a credential.
#[derive(Clone, Copy, Debug, PartialEq, Eq, Structural)]
pub enum PoolError {
    /// The tenant key is not registered.
    TenantNotFound,
    /// The API key is unknown, inactive or expired.
    InvalidApiKey,
    /// The tenant exists but has no accounts to serve the request.
    NoAccountsAvailable,
    /// Every candidate account is occupied; the caller may wait and retry.
    AccountBusyTimeout,
    /// A conversation route points at a session that is gone.
    SessionNotFound,
    /// The upstream rejected a credential refresh with this code.
    RefreshFailed { code: u32 },
    /// The upstream could not be reached at all.
    UpstreamUnavailable,
}

impl PoolError {
    /// A short fixed description, in place of `Display`.
    pub fn message(&self) -> (r: &'static str)
        ensures
            r@ == match *self {
                PoolError::TenantNotFound => "API key not found"@,
                PoolError::InvalidApiKey => "Invalid API key"@,
                PoolError::NoAccountsAvailable => "No accounts available for this API key"@,
                PoolError::AccountBusyTimeout => "Account is busy with another session"@,
                PoolError::SessionNotFound => "Session not found"@,
                PoolError::RefreshFailed { .. } => "Token refresh rejected"@,
                PoolError::UpstreamUnavailable => "Upstream service unavailable"@,
            },
    {
        match self {
            PoolError::TenantNotFound => "API key not found",
            PoolError::InvalidApiKey => "Invalid API key",
            PoolError::NoAccountsAvailable => "No accounts available for this API key",
            PoolError::AccountBusyTimeout => "Account is busy with another session",
            PoolError::SessionNotFound => "Session not found",
            PoolError::RefreshFailed { .. } => "Token refresh rejected",
            PoolError::UpstreamUnavailable => "Upstream service unavailable",
        }
    }
}

} // verus!
