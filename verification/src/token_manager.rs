//! The credential cache: short-lived access tokens derived from long-lived
//! refresh credentials, with a single refresh in flight per credential.
//!
//! The per-credential refresh semaphore of the surrounding service is
//! modelled as a held/idle flag. A caller asks `acquire_token`; it gets the
//! cached token while it is fresh, takes the refresh lock when the cache is
//! stale and nobody holds it, or is told to wait. The holder performs the
//! network refresh outside the library and publishes the outcome with
//! `apply_refresh_response`; every waiter then re-reads the fresh entry on
//! its own next ask, which is the double-checked read of the cache.

use vstd::prelude::*;

use crate::error::PoolError;
use crate::strmap::StrMap;

verus! {

/// A cached access credential and when it stops being trusted.
#[derive(Debug)]
pub struct TokenInfo {
    pub access_token: String,
    pub refresh_token: String,
    pub expire_time: u64,
}

impl Clone for TokenInfo {
    fn clone(&self) -> (r: Self)
        ensures
            r == *self,
    {
        TokenInfo {
            access_token: self.access_token.clone(),
            refresh_token: self.refresh_token.clone(),
            expire_time: self.expire_time,
        }
    }
}

/// What one ask of the cache yields.
#[derive(Debug)]
pub enum AcquireOutcome {
    /// The cached access token, still fresh: no external call is needed.
    Token(String),
    /// The cache is stale and this caller now holds the refresh lock: it
    /// must run the refresh and publish the outcome.
    MustRefresh,
    /// Another caller's refresh is in flight: wait and ask again.
    Busy,
}

/// The upstream code that marks a refresh credential itself as invalid.
pub const INVALID_CREDENTIAL_CODE: u32 = 40003;

/// The credential cache, keyed by refresh credential.
pub struct TokenManager {
    tokens: StrMap<TokenInfo>,
    /// `true` under a credential whose refresh is in flight: a
    /// per-credential capacity-one semaphore as a held flag.
    refresh_locks: StrMap<bool>,
    /// Seconds a freshly published access token stays trusted.
    access_token_expires: u64,
}

impl TokenManager {
    pub closed spec fn wf(self) -> bool {
        self.tokens.wf() && self.refresh_locks.wf()
    }

    /// The cached entry under `k`, if any.
    pub closed spec fn cached(self, k: Seq<char>) -> Option<TokenInfo> {
        self.tokens.spec_get(k)
    }

    /// The cached entry under `k` is still trusted at `now`.
    pub open spec fn fresh_at(self, k: Seq<char>, now: u64) -> bool {
        self.cached(k) matches Some(info) && now < info.expire_time
    }

    /// A refresh for `k` is in flight.
    pub closed spec fn refreshing(self, k: Seq<char>) -> bool {
        self.refresh_locks.spec_get(k) == Some(true)
    }

    pub closed spec fn spec_expires(self) -> u64 {
        self.access_token_expires
    }

    /// What `acquire_token` answers in a given state: the cached token while
    /// fresh; otherwise the refresh lock if free, else wait.
    pub open spec fn acquire_outcome(m: Self, k: Seq<char>, now: u64) -> AcquireOutcome {
        if m.fresh_at(k, now) {
            AcquireOutcome::Token(m.cached(k)->0.access_token)
        } else if m.refreshing(k) {
            AcquireOutcome::Busy
        } else {
            AcquireOutcome::MustRefresh
        }
    }

    pub fn new(access_token_expires: u64) -> (r: Self)
        ensures
            r.wf(),
            r.spec_expires() == access_token_expires,
            forall|k: Seq<char>| r.cached(k) is None,
            forall|k: Seq<char>| !r.refreshing(k),
    {
        TokenManager {
            tokens: StrMap::new(),
            refresh_locks: StrMap::new(),
            access_token_expires,
        }
    }

    /// Ask for an access token. Only a `MustRefresh` answer changes the
    /// state: that caller now holds the refresh lock for this credential.
    pub fn acquire_token(&mut self, refresh_token: &str, now: u64) -> (r: AcquireOutcome)
        requires
            old(self).wf(),
        ensures
            final(self).wf(),
            final(self).spec_expires() == old(self).spec_expires(),
            r == Self::acquire_outcome(*old(self), refresh_token@, now),
            forall|k: Seq<char>| final(self).cached(k) == old(self).cached(k),
            match r {
                AcquireOutcome::Token(_) => *final(self) == *old(self),
                AcquireOutcome::Busy => *final(self) == *old(self),
                AcquireOutcome::MustRefresh => {
                    &&& final(self).refreshing(refresh_token@)
                    &&& (forall|k: Seq<char>|
                        k != refresh_token@ ==> final(self).refreshing(k) == old(self).refreshing(
                            k,
                        ))
                },
            },
    {
        // fast path: a fresh cached token answers with no lock taken
        match self.tokens.get(refresh_token) {
            Some(info) => {
                if now < info.expire_time {
                    return AcquireOutcome::Token(info.access_token.clone());
                }
            },
            None => {},
        }
        // stale: take the per-credential refresh lock, or report it taken
        let held = match self.refresh_locks.get(refresh_token) {
            Some(h) => *h,
            None => false,
        };
        if held {
            AcquireOutcome::Busy
        } else {
            self.refresh_locks.insert(String::from_str(refresh_token), true);
            AcquireOutcome::MustRefresh
        }
    }

    /// Publish what the external refresh collaborator answered, and release
    /// the refresh lock. A token in `user_token` is cached for
    /// `spec_expires()` seconds (saturating) and returned. An upstream code
    /// naming the credential invalid evicts the entry, so later asks do not
    /// retry a dead credential against the cache; any other failure leaves
    /// the cache as it was.
    pub fn apply_refresh_response(
        &mut self,
        refresh_token: &str,
        user_token: Option<String>,
        code: Option<u32>,
        now: u64,
    ) -> (r: Result<String, PoolError>)
        requires
            old(self).wf(),
            old(self).refreshing(refresh_token@),
        ensures
            final(self).wf(),
            final(self).spec_expires() == old(self).spec_expires(),
            !final(self).refreshing(refresh_token@),
            forall|k: Seq<char>|
                k != refresh_token@ ==> final(self).refreshing(k) == old(self).refreshing(k),
            forall|k: Seq<char>|
                k != refresh_token@ ==> final(self).cached(k) == old(self).cached(k),
            match user_token {
                Some(token) => {
                    &&& r == Ok::<String, PoolError>(token)
                    &&& final(self).cached(refresh_token@) == Some(
                        (TokenInfo {
                            access_token: token,
                            refresh_token: token,
                            expire_time: if now + old(self).spec_expires() <= u64::MAX {
                                (now + old(self).spec_expires()) as u64
                            } else {
                                u64::MAX
                            },
                        }),
                    )
                },
                None => {
                    &&& (match code {
                        Some(c) => {
                            &&& r == Err::<String, PoolError>(PoolError::RefreshFailed { code: c })
                            &&& (c == INVALID_CREDENTIAL_CODE ==> final(self).cached(
                                refresh_token@,
                            ) is None)
                            &&& (c != INVALID_CREDENTIAL_CODE ==> final(self).cached(
                                refresh_token@,
                            ) == old(self).cached(refresh_token@))
                        },
                        None => {
                            &&& r == Err::<String, PoolError>(PoolError::UpstreamUnavailable)
                            &&& final(self).cached(refresh_token@) == old(self).cached(
                                refresh_token@,
                            )
                        },
                    })
                },
            },
    {
        let result = match user_token {
            Some(token) => {
                let expire_time = if now <= u64::MAX - self.access_token_expires {
                    now + self.access_token_expires
                } else {
                    u64::MAX
                };
                let info = TokenInfo {
                    access_token: token.clone(),
                    refresh_token: token.clone(),
                    expire_time,
                };
                self.tokens.insert(String::from_str(refresh_token), info);
                Ok(token)
            },
            None => {
                match code {
                    Some(c) => {
                        if c == INVALID_CREDENTIAL_CODE {
                            // a dead credential is evicted, not retried
                            self.remove_token(refresh_token);
                        }
                        Err(PoolError::RefreshFailed { code: c })
                    },
                    None => Err(PoolError::UpstreamUnavailable),
                }
            },
        };
        self.refresh_locks.insert(String::from_str(refresh_token), false);
        result
    }

    /// A refresh for this credential is in flight.
    pub fn is_refreshing(&self, refresh_token: &str) -> (r: bool)
        requires
            self.wf(),
        ensures
            r == self.refreshing(refresh_token@),
    {
        match self.refresh_locks.get(refresh_token) {
            Some(h) => *h,
            None => false,
        }
    }

    /// The cached token is fresh at `now`; no state is touched.
    pub fn check_token_status(&self, refresh_token: &str, now: u64) -> (r: bool)
        requires
            self.wf(),
        ensures
            r == self.fresh_at(refresh_token@, now),
    {
        match self.tokens.get(refresh_token) {
            Some(info) => now < info.expire_time,
            None => false,
        }
    }

    /// Drop the cached entry for a credential.
    pub fn remove_token(&mut self, refresh_token: &str)
        requires
            old(self).wf(),
        ensures
            final(self).wf(),
            final(self).spec_expires() == old(self).spec_expires(),
            final(self).cached(refresh_token@) is None,
            forall|k: Seq<char>|
                k != refresh_token@ ==> final(self).cached(k) == old(self).cached(k),
            forall|k: Seq<char>| final(self).refreshing(k) == old(self).refreshing(k),
    {
        self.tokens.remove(refresh_token);
    }

    /// Prune lock entries that are fully idle; one that is held (a refresh
    /// in flight) is never pruned.
    pub fn cleanup_semaphores(&mut self)
        requires
            old(self).wf(),
        ensures
            final(self).wf(),
            final(self).spec_expires() == old(self).spec_expires(),
            forall|k: Seq<char>| final(self).cached(k) == old(self).cached(k),
            forall|k: Seq<char>| final(self).refreshing(k) == old(self).refreshing(k),
    {
        let ghost pre = *self;
        let n = self.refresh_locks.len();
        let mut kept: StrMap<bool> = StrMap::new();
        let mut i: usize = 0;
        while i < n
            invariant
                n == pre.refresh_locks.spec_len(),
                i <= n,
                pre.refresh_locks.wf(),
                self.refresh_locks == pre.refresh_locks,
                self.tokens == pre.tokens,
                self.access_token_expires == pre.access_token_expires,
                pre.tokens.wf(),
                kept.wf(),
                forall|j: int|
                    0 <= j < i ==> kept.spec_get(#[trigger] pre.refresh_locks.pairs()[j].0) == (
                    if pre.refresh_locks.pairs()[j].1 {
                        Some(true)
                    } else {
                        None::<bool>
                    }),
                forall|k: Seq<char>| #[trigger]
                    kept.contains_key(k) ==> exists|j: int|
                        0 <= j < i && pre.refresh_locks.pairs()[j].0 == k,
            decreases n - i,
        {
            let ghost kept0 = kept;
            let held = *self.refresh_locks.value_at(i);
            if held {
                let key = self.refresh_locks.key_at(i).clone();
                proof {
                    if kept.contains_key(key@) {
                        let j = choose|j: int|
                            0 <= j < i && pre.refresh_locks.pairs()[j].0 == key@;
                        assert(pre.refresh_locks.pairs()[j].0
                            == pre.refresh_locks.pairs()[i as int].0);
                    }
                }
                kept.insert(key, true);
            }
            proof {
                assert forall|j: int|
                    0 <= j < i + 1 implies kept.spec_get(
                    #[trigger] pre.refresh_locks.pairs()[j].0,
                ) == (if pre.refresh_locks.pairs()[j].1 {
                    Some(true)
                } else {
                    None::<bool>
                }) by {
                    if j < i {
                        if pre.refresh_locks.pairs()[j].0 == pre.refresh_locks.pairs()[i as int].0 {
                            assert(false);
                        } else {
                            assert(kept.spec_get(pre.refresh_locks.pairs()[j].0) == kept0.spec_get(
                                pre.refresh_locks.pairs()[j].0,
                            ));
                        }
                    }
                }
            }
            i = i + 1;
        }
        self.refresh_locks = kept;
        proof {
            assert forall|k: Seq<char>| self.refreshing(k) == pre.refreshing(k) by {
                if pre.refresh_locks.contains_key(k) {
                    let j = pre.refresh_locks.index_of(k);
                    pre.refresh_locks.lemma_index_unique(k, j);
                } else {
                    if self.refresh_locks.contains_key(k) {
                        let j = choose|j: int|
                            0 <= j < n && pre.refresh_locks.pairs()[j].0 == k;
                        assert(pre.refresh_locks.contains_key(k));
                    }
                }
            }
        }
    }
}

/// Single-flight refresh: while one caller's refresh is in flight for a
/// credential, no other ask is handed the refresh — it reads the cache or
/// waits. Together with `apply_refresh_response`, the one holder publishes
/// the entry that every waiter then reads: one external call serves them all.
pub proof fn lemma_single_flight(m: TokenManager, k: Seq<char>, now: u64)
    requires
        m.refreshing(k),
    ensures
        !(TokenManager::acquire_outcome(m, k, now) is MustRefresh),
{
}

/// All waiters share the published token: after a refresh for `k` is
/// published, every ask before the expiry answers with exactly that access
/// token and no further refresh.
pub proof fn lemma_waiters_share(m: TokenManager, k: Seq<char>, t2: u64)
    requires
        m.fresh_at(k, t2),
    ensures
        TokenManager::acquire_outcome(m, k, t2) == AcquireOutcome::Token(
            m.cached(k)->0.access_token,
        ),
{
}

/// Single-flight refresh, end to end: `m1` is the cache right after the one
/// holder published `token` at time `now` (exactly what a successful
/// `apply_refresh_response` ensures, and what every later `Token` or `Busy`
/// answer leaves in place). Then every caller whose re-read comes before
/// the published entry expires — the timing that makes the callers
/// concurrent — is answered with exactly that token, and none is handed a
/// second refresh: one external call serves all of them.
pub proof fn lemma_published_token_serves_all(
    m1: TokenManager,
    k: Seq<char>,
    token: String,
    now: u64,
    t2: u64,
)
    requires
        m1.cached(k) == Some(
            (TokenInfo {
                access_token: token,
                refresh_token: token,
                expire_time: if now + m1.spec_expires() <= u64::MAX {
                    (now + m1.spec_expires()) as u64
                } else {
                    u64::MAX
                },
            }),
        ),
        t2 < (if now + m1.spec_expires() <= u64::MAX {
            (now + m1.spec_expires()) as u64
        } else {
            u64::MAX
        }),
    ensures
        TokenManager::acquire_outcome(m1, k, t2) == AcquireOutcome::Token(token),
        !(TokenManager::acquire_outcome(m1, k, t2) is MustRefresh),
{
}

} // verus!
