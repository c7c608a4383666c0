//! The account/session pool: per-account state with mutual exclusion, a
//! per-tenant collection of accounts, conversation routing and the expiry
//! sweep.
//!
//! Concurrency in the surrounding service is modelled explicitly: an
//! account's capacity-one permit is its `active_session` field, and a caller
//! that would have to wait for the permit gets `AccountBusyTimeout` back and
//! retries, instead of blocking inside the library.

use vstd::prelude::*;

use crate::error::PoolError;
use crate::strmap::StrMap;
use crate::utils::generate_uuid;

verus! {

/// The lifecycle of one conversation's session on an account.
#[derive(Clone, Copy, Debug, PartialEq, Eq, Structural)]
pub enum SessionState {
    Idle,
    Active,
    Reserved,
    Expired,
}

/// One conversation bound to one account.
#[derive(Debug)]
pub struct DeepSeekSession {
    pub session_id: String,
    pub conversation_id: Option<String>,
    pub account_email: String,
    pub user_token: String,
    pub state: SessionState,
    pub last_used: u64,
    pub created_at: u64,
    pub messages_count: usize,
    pub api_key: String,
}

impl Clone for DeepSeekSession {
    fn clone(&self) -> (r: Self)
        ensures
            r == *self,
    {
        DeepSeekSession {
            session_id: self.session_id.clone(),
            conversation_id: match &self.conversation_id {
                Some(c) => Some(c.clone()),
                None => None,
            },
            account_email: self.account_email.clone(),
            user_token: self.user_token.clone(),
            state: self.state,
            last_used: self.last_used,
            created_at: self.created_at,
            messages_count: self.messages_count,
            api_key: self.api_key.clone(),
        }
    }
}

/// A session is stale once it has sat unused longer than `timeout` seconds.
pub open spec fn session_expired(s: DeepSeekSession, timeout: u64, now: u64) -> bool {
    s.last_used < now && now - s.last_used > timeout
}

/// What one release of `conv` does to an account: the current holder's
/// release idles its session, counts the turn and frees the permit; any
/// other release — a repeat, or a conversation that never held the permit —
/// changes nothing at all.
pub open spec fn account_released(
    a0: AccountSessionPool,
    a1: AccountSessionPool,
    conv: Seq<char>,
) -> bool {
    if a0.active_holds(conv) {
        &&& a1.account_email == a0.account_email
        &&& a1.user_token == a0.user_token
        &&& a1.last_activity == a0.last_activity
        &&& a1.active_session is None
        &&& a0.sessions.spec_get(conv) is Some
        &&& a1.sessions.spec_get(conv) == Some(
            (DeepSeekSession {
                state: SessionState::Idle,
                messages_count: if a0.sessions.spec_get(conv)->0.messages_count < usize::MAX {
                    (a0.sessions.spec_get(conv)->0.messages_count + 1) as usize
                } else {
                    a0.sessions.spec_get(conv)->0.messages_count
                },
                ..a0.sessions.spec_get(conv)->0
            }),
        )
        &&& (forall|c2: Seq<char>|
            c2 != conv ==> a1.sessions.spec_get(c2) == a0.sessions.spec_get(c2))
    } else {
        a1 == a0
    }
}

/// One upstream account: its sessions, its capacity-one permit
/// (`active_session`), and its last-activity clock.
#[derive(Debug)]
pub struct AccountSessionPool {
    pub account_email: String,
    pub user_token: String,
    pub sessions: StrMap<DeepSeekSession>,
    /// The conversation currently holding the account's single permit.
    pub active_session: Option<String>,
    pub last_activity: u64,
}

impl AccountSessionPool {
    /// The permit is held, and by conversation `k`.
    pub open spec fn active_holds(self, k: Seq<char>) -> bool {
        self.active_session matches Some(c) && c@ == k
    }

    /// The session stored under `k` belongs to this account, is keyed by its
    /// own conversation id, and is `Active` only while it holds the permit.
    pub open spec fn session_ok(self, k: Seq<char>, s: DeepSeekSession) -> bool {
        &&& s.account_email@ == self.account_email@
        &&& (s.conversation_id matches Some(c) && c@ == k)
        &&& (s.state == SessionState::Active ==> self.active_holds(k))
    }

    /// Every stored session belongs to this account and is keyed by its own
    /// conversation id; the active conversation exists; and only the active
    /// conversation's session is in the `Active` state.
    pub open spec fn wf(self) -> bool {
        &&& self.sessions.wf()
        &&& (self.active_session matches Some(c) ==> self.sessions.contains_key(c@))
        &&& forall|k: Seq<char>| #[trigger]
            self.sessions.contains_key(k) ==> self.session_ok(k, self.sessions.spec_get(k)->0)
    }

    /// The permit is free.
    pub open spec fn spec_available(self) -> bool {
        self.active_session is None
    }

    /// Seconds since the account last did anything, zero if `now` is behind.
    pub open spec fn idle_secs(self, now: u64) -> int {
        if now >= self.last_activity {
            now - self.last_activity
        } else {
            0
        }
    }

    /// The selection score, lower is better: a busy account is heavily
    /// penalized, then each live session and each idle second add weight.
    /// The weights are in hundredths of a point so that the score stays in
    /// the integers.
    pub open spec fn load_score(self, now: u64) -> int {
        (if self.spec_available() {
            0int
        } else {
            100000int
        }) + 10 * self.sessions.spec_len() + self.idle_secs(now)
    }

    pub fn new(account_email: String, user_token: String, now: u64) -> (r: Self)
        ensures
            r.wf(),
            r.account_email == account_email,
            r.user_token == user_token,
            r.sessions.spec_len() == 0,
            r.active_session is None,
            r.last_activity == now,
            forall|k: Seq<char>| !r.sessions.contains_key(k),
    {
        AccountSessionPool {
            account_email,
            user_token,
            sessions: StrMap::new(),
            active_session: None,
            last_activity: now,
        }
    }

    /// Create a fresh `Reserved` session under the given conversation id, or
    /// under a new random one, and return the conversation id used.
    pub fn create_session(
        &mut self,
        conversation_id: Option<String>,
        api_key: String,
        now: u64,
    ) -> (conv_id: String)
        requires
            old(self).wf(),
        ensures
            final(self).wf(),
            match conversation_id {
                Some(c) => conv_id@ == c@,
                None => conv_id@.len() == 36,
            },
            final(self).sessions.spec_get(conv_id@) matches Some(s) && {
                &&& s.account_email == old(self).account_email
                &&& s.user_token == old(self).user_token
                &&& s.state == SessionState::Reserved
                &&& s.last_used == now
                &&& s.created_at == now
                &&& s.messages_count == 0
                &&& s.api_key == api_key
                &&& s.session_id@.len() == 36
            },
            forall|k: Seq<char>|
                k != conv_id@ ==> final(self).sessions.spec_get(k) == old(self).sessions.spec_get(
                    k,
                ),
            forall|k: Seq<char>|
                final(self).sessions.contains_key(k) == (old(self).sessions.contains_key(k) || k
                    == conv_id@),
            final(self).account_email == old(self).account_email,
            final(self).user_token == old(self).user_token,
            final(self).active_session == old(self).active_session,
            final(self).last_activity == now,
    {
        let session_id = generate_uuid();
        let conv_id = match conversation_id {
            Some(c) => c,
            None => generate_uuid(),
        };
        let session = DeepSeekSession {
            session_id,
            conversation_id: Some(conv_id.clone()),
            account_email: self.account_email.clone(),
            user_token: self.user_token.clone(),
            state: SessionState::Reserved,
            last_used: now,
            created_at: now,
            messages_count: 0,
            api_key,
        };
        self.sessions.insert(conv_id.clone(), session);
        self.last_activity = now;
        conv_id
    }

    /// Reuse a live session under `conversation_id`, refreshing its
    /// last-used clock, or create one (also when the stored session was
    /// marked `Expired`).
    pub fn get_or_create_session(
        &mut self,
        conversation_id: Option<String>,
        api_key: String,
        now: u64,
    ) -> (r: Result<String, PoolError>)
        requires
            old(self).wf(),
        ensures
            r is Ok,
            final(self).wf(),
            final(self).account_email == old(self).account_email,
            final(self).user_token == old(self).user_token,
            final(self).active_session == old(self).active_session,
            match r {
                Ok(conv_id) => {
                    &&& (match conversation_id {
                        Some(c) => conv_id@ == c@,
                        None => conv_id@.len() == 36,
                    })
                    &&& final(self).sessions.contains_key(conv_id@)
                    &&& (forall|k: Seq<char>|
                        k != conv_id@ ==> final(self).sessions.spec_get(k) == old(
                            self,
                        ).sessions.spec_get(k))
                    &&& ({
                        let existing = old(self).sessions.spec_get(conv_id@);
                        if conversation_id is Some && existing is Some && existing->0.state
                            != SessionState::Expired {
                            // the live session is kept, only its clock moves
                            &&& final(self).sessions.spec_get(conv_id@) == Some(
                                (DeepSeekSession { last_used: now, ..existing->0 }),
                            )
                            &&& final(self).last_activity == old(self).last_activity
                        } else {
                            // a fresh `Reserved` session replaces whatever was there
                            &&& (final(self).sessions.spec_get(conv_id@) matches Some(s2) && {
                                &&& s2.state == SessionState::Reserved
                                &&& s2.last_used == now
                                &&& s2.created_at == now
                                &&& s2.messages_count == 0
                                &&& s2.api_key == api_key
                            })
                            &&& final(self).last_activity == now
                        }
                    })
                },
                Err(_) => false,
            },
    {
        let ghost pre = *self;
        match conversation_id {
            Some(conv_id) => {
                let found = self.sessions.find(conv_id.as_str());
                match found {
                    Some(i) => {
                        let keep = self.sessions.value_at(i).state != SessionState::Expired;
                        if keep {
                            let ghost old_pair = pre.sessions.pairs()[i as int];
                            let s = self.sessions.value_at_mut(i);
                            s.last_used = now;
                            proof {
                                StrMap::<DeepSeekSession>::lemma_get_after_update(
                                    pre.sessions,
                                    self.sessions,
                                    i as int,
                                    DeepSeekSession { last_used: now, ..old_pair.1 },
                                );
                                pre.sessions.lemma_index_unique(conv_id@, i as int);
                                assert forall|k: Seq<char>| #[trigger]
                                    self.sessions.contains_key(k) implies self.session_ok(
                                    k,
                                    self.sessions.spec_get(k)->0,
                                ) by {
                                    assert(pre.sessions.contains_key(k));
                                    assert(pre.session_ok(k, pre.sessions.spec_get(k)->0));
                                }
                            }
                            return Ok(conv_id);
                        }
                        let r = self.create_session(Some(conv_id), api_key, now);
                        Ok(r)
                    },
                    None => {
                        let r = self.create_session(Some(conv_id), api_key, now);
                        Ok(r)
                    },
                }
            },
            None => {
                let r = self.create_session(None, api_key, now);
                Ok(r)
            },
        }
    }

    /// Grant the account's permit to `conversation_id` and mark its session
    /// `Active`. Fails without changing anything when the session is unknown
    /// or the permit is held by another conversation.
    pub fn activate_session(&mut self, conversation_id: &str, now: u64) -> (r: Result<
        (),
        PoolError,
    >)
        requires
            old(self).wf(),
        ensures
            final(self).wf(),
            final(self).account_email == old(self).account_email,
            final(self).user_token == old(self).user_token,
            match r {
                Ok(()) => {
                    &&& old(self).sessions.contains_key(conversation_id@)
                    &&& (old(self).spec_available() || (old(self).active_session matches Some(c)
                        && c@ == conversation_id@))
                    &&& (final(self).active_session matches Some(c) && c@ == conversation_id@)
                    &&& final(self).last_activity == now
                    &&& ({
                        let existing = old(self).sessions.spec_get(conversation_id@);
                        existing is Some && final(self).sessions.spec_get(conversation_id@)
                            == Some((DeepSeekSession { state: SessionState::Active, ..existing->0 }))
                    })
                    &&& (forall|k: Seq<char>|
                        k != conversation_id@ ==> final(self).sessions.spec_get(k) == old(
                            self,
                        ).sessions.spec_get(k))
                },
                Err(e) => {
                    &&& *final(self) == *old(self)
                    &&& (e == PoolError::SessionNotFound || e == PoolError::AccountBusyTimeout)
                    &&& (e == PoolError::SessionNotFound <==> !old(self).sessions.contains_key(
                        conversation_id@,
                    ))
                    &&& (e == PoolError::AccountBusyTimeout <==> (old(self).sessions.contains_key(
                        conversation_id@,
                    ) && (old(self).active_session matches Some(c) && c@ != conversation_id@)))
                },
            },
    {
        let ghost pre = *self;
        let found = self.sessions.find(conversation_id);
        match found {
            Some(i) => {
                let busy = match &self.active_session {
                    Some(active_id) => !crate::strmap::str_eq(active_id.as_str(), conversation_id),
                    None => false,
                };
                if busy {
                    return Err(PoolError::AccountBusyTimeout);
                }
                let ghost old_pair = pre.sessions.pairs()[i as int];
                let s = self.sessions.value_at_mut(i);
                s.state = SessionState::Active;
                self.active_session = Some(String::from_str(conversation_id));
                self.last_activity = now;
                proof {
                    StrMap::<DeepSeekSession>::lemma_get_after_update(
                        pre.sessions,
                        self.sessions,
                        i as int,
                        DeepSeekSession { state: SessionState::Active, ..old_pair.1 },
                    );
                    pre.sessions.lemma_index_unique(conversation_id@, i as int);
                    assert forall|k: Seq<char>| #[trigger]
                        self.sessions.contains_key(k) implies self.session_ok(
                        k,
                        self.sessions.spec_get(k)->0,
                    ) by {
                        assert(pre.sessions.contains_key(k));
                        assert(pre.session_ok(k, pre.sessions.spec_get(k)->0));
                        if k != conversation_id@ {
                            assert(self.sessions.spec_get(k) == pre.sessions.spec_get(k));
                        }
                    }
                }
                Ok(())
            },
            None => Err(PoolError::SessionNotFound),
        }
    }

    /// Give the permit back. Only the conversation currently holding the
    /// permit releases anything: its session turns `Idle` and counts one
    /// more turn, and the permit clears. Any other release — a repeat, or a
    /// conversation that never held the permit — is a no-op, so releasing
    /// is idempotent and never fails.
    pub fn release_session(&mut self, conversation_id: &str)
        requires
            old(self).wf(),
        ensures
            final(self).wf(),
            account_released(*old(self), *final(self), conversation_id@),
    {
        let ghost pre = *self;
        let holder = match &self.active_session {
            Some(active_id) => crate::strmap::str_eq(active_id.as_str(), conversation_id),
            None => false,
        };
        if holder == false {
            return ;
        }
        // the holder's session exists, since the permit points at it
        let found = self.sessions.find(conversation_id);
        match found {
            Some(i) => {
                let ghost old_pair = pre.sessions.pairs()[i as int];
                let s = self.sessions.value_at_mut(i);
                s.state = SessionState::Idle;
                if s.messages_count < usize::MAX {
                    s.messages_count = s.messages_count + 1;
                }
                self.active_session = None;
                proof {
                    let ghost v2 = DeepSeekSession {
                        state: SessionState::Idle,
                        messages_count: if old_pair.1.messages_count < usize::MAX {
                            (old_pair.1.messages_count + 1) as usize
                        } else {
                            old_pair.1.messages_count
                        },
                        ..old_pair.1
                    };
                    StrMap::<DeepSeekSession>::lemma_get_after_update(
                        pre.sessions,
                        self.sessions,
                        i as int,
                        v2,
                    );
                    pre.sessions.lemma_index_unique(conversation_id@, i as int);
                    assert forall|k: Seq<char>| #[trigger]
                        self.sessions.contains_key(k) implies self.session_ok(
                        k,
                        self.sessions.spec_get(k)->0,
                    ) by {
                        assert(pre.sessions.contains_key(k));
                        assert(pre.session_ok(k, pre.sessions.spec_get(k)->0));
                        if k != conversation_id@ {
                            assert(self.sessions.spec_get(k) == pre.sessions.spec_get(k));
                        }
                    }
                }
            },
            None => {
                proof {
                    assert(false);
                }
            },
        }
    }

    /// Drop every session idle beyond `timeout`, clear the permit if its
    /// holder was dropped, and say how many sessions went.
    pub fn cleanup_expired_sessions(&mut self, timeout: u64, now: u64) -> (removed: usize)
        requires
            old(self).wf(),
        ensures
            final(self).wf(),
            final(self).account_email == old(self).account_email,
            final(self).user_token == old(self).user_token,
            final(self).last_activity == old(self).last_activity,
            forall|k: Seq<char>|
                final(self).sessions.spec_get(k) == (match old(self).sessions.spec_get(k) {
                    Some(s) => if session_expired(s, timeout, now) {
                        None::<DeepSeekSession>
                    } else {
                        Some(s)
                    },
                    None => None::<DeepSeekSession>,
                }),
            removed == old(self).sessions.spec_len() - final(self).sessions.spec_len(),
            final(self).active_session == (match old(self).active_session {
                Some(c) => if final(self).sessions.contains_key(c@) {
                    Some(c)
                } else {
                    None::<String>
                },
                None => None::<String>,
            }),
    {
        let ghost pre = *self;
        let n = self.sessions.len();
        let mut kept: StrMap<DeepSeekSession> = StrMap::new();
        let mut i: usize = 0;
        while i < n
            invariant
                n == pre.sessions.spec_len(),
                i <= n,
                pre.sessions.wf(),
                kept.wf(),
                kept.spec_len() <= i,
                *self == pre,
                forall|j: int|
                    0 <= j < i ==> kept.spec_get(pre.sessions.pairs()[j].0) == (if session_expired(
                        pre.sessions.pairs()[j].1,
                        timeout,
                        now,
                    ) {
                        None::<DeepSeekSession>
                    } else {
                        Some(pre.sessions.pairs()[j].1)
                    }),
                forall|k: Seq<char>|
                    kept.contains_key(k) ==> exists|j: int|
                        0 <= j < i && pre.sessions.pairs()[j].0 == k,
            decreases n - i,
        {
            let key = self.sessions.key_at(i);
            let value = self.sessions.value_at(i);
            let expired = value.last_used < now && now - value.last_used > timeout;
            let ghost kept0 = kept;
            if !expired {
                let k2 = key.clone();
                let v2 = value.clone();
                proof {
                    if kept.contains_key(k2@) {
                        let j = choose|j: int| 0 <= j < i && pre.sessions.pairs()[j].0 == k2@;
                        assert(pre.sessions.pairs()[j].0 == pre.sessions.pairs()[i as int].0);
                    }
                }
                kept.insert(k2, v2);
            }
            proof {
                assert forall|j: int|
                    0 <= j < i + 1 implies kept.spec_get(pre.sessions.pairs()[j].0) == (
                if session_expired(pre.sessions.pairs()[j].1, timeout, now) {
                    None::<DeepSeekSession>
                } else {
                    Some(pre.sessions.pairs()[j].1)
                }) by {
                    if j < i {
                        if pre.sessions.pairs()[j].0 == pre.sessions.pairs()[i as int].0 {
                            assert(false);
                        } else {
                            assert(kept.spec_get(pre.sessions.pairs()[j].0) == kept0.spec_get(
                                pre.sessions.pairs()[j].0,
                            ));
                        }
                    }
                }
            }
            i = i + 1;
        }
        let removed = n - kept.len();
        self.sessions = kept;
        let clear = match &self.active_session {
            Some(c) => !self.sessions.contains(c.as_str()),
            None => false,
        };
        if clear {
            self.active_session = None;
        }
        proof {
            assert forall|k: Seq<char>|
                self.sessions.spec_get(k) == (match pre.sessions.spec_get(k) {
                    Some(s) => if session_expired(s, timeout, now) {
                        None::<DeepSeekSession>
                    } else {
                        Some(s)
                    },
                    None => None::<DeepSeekSession>,
                }) by {
                if pre.sessions.contains_key(k) {
                    let j = pre.sessions.index_of(k);
                    pre.sessions.lemma_index_unique(k, j);
                } else {
                    if self.sessions.contains_key(k) {
                        let j = choose|j: int|
                            0 <= j < n && pre.sessions.pairs()[j].0 == k;
                        assert(pre.sessions.contains_key(k));
                    }
                }
            }
            assert forall|k: Seq<char>| #[trigger]
                self.sessions.contains_key(k) implies self.session_ok(
                k,
                self.sessions.spec_get(k)->0,
            ) by {
                assert(pre.sessions.contains_key(k));
                assert(pre.session_ok(k, pre.sessions.spec_get(k)->0));
                assert(self.sessions.spec_get(k) == pre.sessions.spec_get(k));
            }
        }
        removed
    }

    /// The permit is free.
    pub fn is_available(&self) -> (r: bool)
        ensures
            r == self.spec_available(),
    {
        self.active_session.is_none()
    }

    /// The selection score, lower is better; matches `load_score`.
    pub fn get_load_score(&self, now: u64) -> (score: u128)
        ensures
            score == self.load_score(now),
    {
        let base: u128 = if self.is_available() {
            0
        } else {
            100000
        };
        let session_count_penalty: u128 = 10 * (self.sessions.len() as u128);
        let age_penalty: u128 = if now >= self.last_activity {
            (now - self.last_activity) as u128
        } else {
            0
        };
        base + session_count_penalty + age_penalty
    }
}

/// At most one session of a well-formed account is `Active` at any instant:
/// the account's permit has capacity one.
pub proof fn lemma_mutual_exclusion(
    a: AccountSessionPool,
    k1: Seq<char>,
    k2: Seq<char>,
    s1: DeepSeekSession,
    s2: DeepSeekSession,
)
    requires
        a.wf(),
        a.sessions.spec_get(k1) == Some(s1),
        a.sessions.spec_get(k2) == Some(s2),
        s1.state == SessionState::Active,
        s2.state == SessionState::Active,
    ensures
        k1 == k2,
{
    assert(a.active_session matches Some(c) && c@ == k1);
    assert(a.active_session matches Some(c) && c@ == k2);
}

/// The index of the account with the lowest load score, earliest index on a
/// tie.
pub open spec fn best_idx(pairs: Seq<(Seq<char>, AccountSessionPool)>, now: u64) -> int
    decreases pairs.len(),
{
    if pairs.len() <= 1 {
        0
    } else {
        let b = best_idx(pairs.drop_last(), now);
        if pairs[pairs.len() - 1].1.load_score(now) < pairs[b].1.load_score(now) {
            pairs.len() - 1
        } else {
            b
        }
    }
}

/// `best_idx` really is the earliest index of minimal score.
pub proof fn lemma_best_idx(pairs: Seq<(Seq<char>, AccountSessionPool)>, now: u64)
    requires
        pairs.len() > 0,
    ensures
        0 <= best_idx(pairs, now) < pairs.len(),
        forall|j: int|
            0 <= j < pairs.len() ==> pairs[best_idx(pairs, now)].1.load_score(now) <= #[trigger]
            pairs[j].1.load_score(now),
        forall|j: int|
            0 <= j < best_idx(pairs, now) ==> pairs[best_idx(pairs, now)].1.load_score(now)
                < #[trigger] pairs[j].1.load_score(now),
    decreases pairs.len(),
{
    if pairs.len() > 1 {
        lemma_best_idx(pairs.drop_last(), now);
        assert forall|j: int| 0 <= j < pairs.len() - 1 implies pairs.drop_last()[j]
            == pairs[j] by {}
    }
}

/// Statistics for one tenant's pool.
#[derive(Debug, Clone)]
pub struct SessionPoolStats {
    pub api_key: String,
    pub total_accounts: usize,
    pub available_accounts: usize,
    pub active_sessions: usize,
    pub total_sessions: usize,
}

/// How many of the first `i` accounts have a free permit.
pub open spec fn count_available(pairs: Seq<(Seq<char>, AccountSessionPool)>, i: int) -> int
    decreases i,
{
    if i <= 0 {
        0
    } else {
        count_available(pairs, i - 1) + if pairs[i - 1].1.spec_available() {
            1int
        } else {
            0int
        }
    }
}

/// The sessions held by the first `i` accounts, all together.
pub open spec fn sum_sessions(pairs: Seq<(Seq<char>, AccountSessionPool)>, i: int) -> int
    decreases i,
{
    if i <= 0 {
        0
    } else {
        sum_sessions(pairs, i - 1) + pairs[i - 1].1.sessions.spec_len()
    }
}

/// What the sweep does to one account: identity and clock kept, expired
/// sessions gone, live ones untouched, and the permit cleared exactly when
/// its holder was dropped.
pub open spec fn account_swept(
    a0: AccountSessionPool,
    a1: AccountSessionPool,
    timeout: u64,
    now: u64,
) -> bool {
    &&& a1.wf()
    &&& a1.account_email == a0.account_email
    &&& a1.user_token == a0.user_token
    &&& a1.last_activity == a0.last_activity
    &&& (forall|conv: Seq<char>|
        a1.sessions.spec_get(conv) == (match a0.sessions.spec_get(conv) {
            Some(s) => if session_expired(s, timeout, now) {
                None::<DeepSeekSession>
            } else {
                Some(s)
            },
            None => None::<DeepSeekSession>,
        }))
    &&& a1.active_session == (match a0.active_session {
        Some(c) => if a1.sessions.contains_key(c@) {
            Some(c)
        } else {
            None::<String>
        },
        None => None::<String>,
    })
}

/// The sessions of the first `i` tenants, all together.
pub open spec fn pools_total(pairs: Seq<(Seq<char>, StrMap<AccountSessionPool>)>, i: int) -> int
    decreases i,
{
    if i <= 0 {
        0
    } else {
        pools_total(pairs, i - 1) + sum_sessions(
            pairs[i - 1].1.pairs(),
            pairs[i - 1].1.spec_len() as int,
        )
    }
}

proof fn lemma_sum_sessions_prefix(
    p1: Seq<(Seq<char>, AccountSessionPool)>,
    p2: Seq<(Seq<char>, AccountSessionPool)>,
    i: int,
)
    requires
        forall|j: int| 0 <= j < i ==> p1[j] == p2[j],
    ensures
        sum_sessions(p1, i) == sum_sessions(p2, i),
    decreases i,
{
    if i > 0 {
        lemma_sum_sessions_prefix(p1, p2, i - 1);
    }
}

proof fn lemma_pools_total_prefix(
    p1: Seq<(Seq<char>, StrMap<AccountSessionPool>)>,
    p2: Seq<(Seq<char>, StrMap<AccountSessionPool>)>,
    i: int,
)
    requires
        forall|j: int| 0 <= j < i ==> p1[j] == p2[j],
    ensures
        pools_total(p1, i) == pools_total(p2, i),
    decreases i,
{
    if i > 0 {
        lemma_pools_total_prefix(p1, p2, i - 1);
    }
}

proof fn lemma_sum_sessions_nonneg(p: Seq<(Seq<char>, AccountSessionPool)>, i: int)
    ensures
        0 <= sum_sessions(p, i),
    decreases i,
{
    if i > 0 {
        lemma_sum_sessions_nonneg(p, i - 1);
    }
}

proof fn lemma_pools_total_nonneg(p: Seq<(Seq<char>, StrMap<AccountSessionPool>)>, i: int)
    ensures
        0 <= pools_total(p, i),
    decreases i,
{
    if i > 0 {
        lemma_pools_total_nonneg(p, i - 1);
        lemma_sum_sessions_nonneg(p[i - 1].1.pairs(), p[i - 1].1.spec_len() as int);
    }
}

/// Account `a`, filed under email `e` in tenant `k`, is internally sound
/// and every session it stores is stamped with its tenant's key.
pub open spec fn account_in_tenant(a: AccountSessionPool, k: Seq<char>, e: Seq<char>) -> bool {
    &&& a.wf()
    &&& a.account_email@ == e
    &&& (forall|conv: Seq<char>| #[trigger]
        a.sessions.contains_key(conv) ==> a.sessions.spec_get(conv)->0.api_key@ == k)
}

/// The per-tenant collection of accounts, with the global conversation
/// routing table.
pub struct SessionPoolManager {
    /// Accounts grouped by tenant key.
    pools: StrMap<StrMap<AccountSessionPool>>,
    /// Conversation id to (tenant key, account email).
    session_mapping: StrMap<(String, String)>,
    /// Seconds a session may sit idle before the sweep drops it.
    session_timeout: u64,
}

impl SessionPoolManager {
    /// The accounts registered under tenant `k`.
    pub closed spec fn tenant(self, k: Seq<char>) -> Option<StrMap<AccountSessionPool>> {
        self.pools.spec_get(k)
    }

    /// The account registered under tenant `k` with email `e`.
    pub open spec fn account(self, k: Seq<char>, e: Seq<char>) -> Option<AccountSessionPool> {
        match self.tenant(k) {
            Some(t) => t.spec_get(e),
            None => None,
        }
    }

    /// Where conversation `conv` is routed: its tenant key and account email.
    pub closed spec fn route(self, conv: Seq<char>) -> Option<(Seq<char>, Seq<char>)> {
        match self.session_mapping.spec_get(conv) {
            Some(p) => Some((p.0@, p.1@)),
            None => None,
        }
    }

    pub closed spec fn spec_timeout(self) -> u64 {
        self.session_timeout
    }

    /// A route is only ever consulted under the tenant key it was made for.
    pub open spec fn routed_here(self, k: Seq<char>, conv: Seq<char>) -> bool {
        self.route(conv) matches Some(t) && t.0 == k
    }

    /// Tenants, accounts and routes are all well formed, and every route
    /// points at a session that exists on its account.
    pub closed spec fn wf(self) -> bool {
        &&& self.pools.wf()
        &&& (forall|k: Seq<char>| #[trigger]
            self.pools.contains_key(k) ==> {
                let t = self.pools.spec_get(k)->0;
                &&& t.wf()
                &&& (forall|e: Seq<char>| #[trigger]
                    t.contains_key(e) ==> account_in_tenant(t.spec_get(e)->0, k, e))
            })
        &&& self.session_mapping.wf()
        &&& (forall|conv: Seq<char>| #[trigger]
            self.session_mapping.contains_key(conv) ==> {
                let p = self.session_mapping.spec_get(conv)->0;
                &&& self.account(p.0@, p.1@) matches Some(a)
                &&& self.account(p.0@, p.1@)->0.sessions.contains_key(conv)
            })
    }

    pub fn new() -> (r: Self)
        ensures
            r.wf(),
            r.spec_timeout() == 3600,
            forall|k: Seq<char>| r.tenant(k) is None,
            forall|conv: Seq<char>| r.route(conv) is None,
    {
        SessionPoolManager {
            pools: StrMap::new(),
            session_mapping: StrMap::new(),
            session_timeout: 3600,  // one hour of idleness
        }
    }

    /// Register an account under a tenant key, creating the tenant on first
    /// use; an email already present is left alone.
    pub fn add_account(&mut self, api_key: String, account_email: String, user_token: String, now: u64)
        requires
            old(self).wf(),
        ensures
            final(self).wf(),
            final(self).spec_timeout() == old(self).spec_timeout(),
            forall|conv: Seq<char>| final(self).route(conv) == old(self).route(conv),
            final(self).tenant(api_key@) is Some,
            old(self).account(api_key@, account_email@) is Some ==> forall|k: Seq<char>, e: Seq<char>|
                final(self).account(k, e) == old(self).account(k, e),
            old(self).account(api_key@, account_email@) is None ==> {
                &&& (final(self).account(api_key@, account_email@) matches Some(a) && {
                    &&& a.account_email == account_email
                    &&& a.user_token == user_token
                    &&& a.sessions.spec_len() == 0
                    &&& a.active_session is None
                    &&& a.last_activity == now
                })
                &&& (forall|k: Seq<char>, e: Seq<char>|
                    !(k == api_key@ && e == account_email@) ==> final(self).account(k, e) == old(
                        self,
                    ).account(k, e))
            },
    {
        let ghost pre = *self;
        let found = self.pools.find(api_key.as_str());
        match found {
            Some(ti) => {
                let ghost old_pair = pre.pools.pairs()[ti as int];
                let t = self.pools.value_at_mut(ti);
                let ghost t_pre = *t;
                let has = t.contains(account_email.as_str());
                if has == false {
                    let a = AccountSessionPool::new(account_email.clone(), user_token, now);
                    t.insert(account_email, a);
                }
                proof {
                    StrMap::<StrMap<AccountSessionPool>>::lemma_get_after_update(
                        pre.pools,
                        self.pools,
                        ti as int,
                        self.pools.pairs()[ti as int].1,
                    );
                    pre.pools.lemma_index_unique(api_key@, ti as int);
                    self.lemma_wf_after_tenant_update(pre, api_key@);
                }
            },
            None => {
                let mut t: StrMap<AccountSessionPool> = StrMap::new();
                let a = AccountSessionPool::new(account_email.clone(), user_token, now);
                t.insert(account_email, a);
                self.pools.insert(api_key, t);
                proof {
                    self.lemma_wf_after_tenant_update(pre, api_key@);
                }
            },
        }
    }

    /// Re-establish `wf` when exactly one tenant's map changed and its new
    /// accounts are well formed and unchanged at every existing session.
    proof fn lemma_wf_after_tenant_update(self, pre: Self, k: Seq<char>)
        requires
            pre.wf(),
            self.session_mapping == pre.session_mapping,
            self.pools.wf(),
            forall|k2: Seq<char>| k2 != k ==> self.pools.spec_get(k2) == pre.pools.spec_get(k2),
            self.pools.contains_key(k),
            self.pools.spec_get(k)->0.wf(),
            forall|e: Seq<char>| #[trigger]
                self.pools.spec_get(k)->0.contains_key(e) ==> account_in_tenant(
                    self.pools.spec_get(k)->0.spec_get(e)->0,
                    k,
                    e,
                ),
            // every session that existed under tenant `k` still exists
            forall|e: Seq<char>, conv: Seq<char>|
                (pre.tenant(k) is Some && pre.tenant(k)->0.spec_get(e) is Some && #[trigger] pre.tenant(
                    k,
                )->0.spec_get(e)->0.sessions.contains_key(conv)) ==> (self.tenant(k) is Some
                    && self.tenant(k)->0.spec_get(e) is Some && self.tenant(k)->0.spec_get(
                    e,
                )->0.sessions.contains_key(conv)),
        ensures
            self.wf(),
    {
        assert forall|k2: Seq<char>| #[trigger] self.pools.contains_key(k2) implies {
            let t = self.pools.spec_get(k2)->0;
            &&& t.wf()
            &&& (forall|e: Seq<char>| #[trigger]
                t.contains_key(e) ==> account_in_tenant(t.spec_get(e)->0, k2, e))
        } by {
            if k2 != k {
                assert(pre.pools.contains_key(k2));
            }
        }
        assert forall|conv: Seq<char>| #[trigger]
            self.session_mapping.contains_key(conv) implies {
            let p = self.session_mapping.spec_get(conv)->0;
            &&& self.account(p.0@, p.1@) matches Some(a)
            &&& self.account(p.0@, p.1@)->0.sessions.contains_key(conv)
        } by {
            assert(pre.session_mapping.contains_key(conv));
            let p = pre.session_mapping.spec_get(conv)->0;
            assert(pre.account(p.0@, p.1@) matches Some(a));
            if p.0@ != k {
                assert(self.pools.spec_get(p.0@) == pre.pools.spec_get(p.0@));
            }
        }
    }

    /// The account with the lowest load score under `api_key`; the earliest
    /// one on a tie. Busy accounts are penalized, never excluded.
    fn find_best_available_account(&self, api_key: &str, now: u64) -> (r: Result<String, PoolError>)
        requires
            self.wf(),
        ensures
            match r {
                Ok(email) => {
                    &&& self.tenant(api_key@) matches Some(t) && t.spec_len() > 0
                    &&& email@ == self.tenant(api_key@)->0.pairs()[best_idx(
                        self.tenant(api_key@)->0.pairs(),
                        now,
                    )].0
                },
                Err(e) => {
                    &&& (e == PoolError::TenantNotFound || e == PoolError::NoAccountsAvailable)
                    &&& (e == PoolError::TenantNotFound <==> self.tenant(api_key@) is None)
                    &&& (e == PoolError::NoAccountsAvailable <==> (self.tenant(api_key@) matches
                        Some(t) && t.spec_len() == 0))
                },
            },
    {
        let found = self.pools.find(api_key);
        match found {
            Some(ti) => {
                let t = self.pools.value_at(ti);
                proof {
                    self.pools.lemma_index_unique(api_key@, ti as int);
                }
                let n = t.len();
                if n == 0 {
                    return Err(PoolError::NoAccountsAvailable);
                }
                let mut best: usize = 0;
                let mut best_score: u128 = t.value_at(0).get_load_score(now);
                let mut i: usize = 1;
                while i < n
                    invariant
                        n == t.spec_len(),
                        n > 0,
                        1 <= i <= n,
                        best < i,
                        best_score == t.pairs()[best as int].1.load_score(now),
                        best == best_idx(t.pairs().subrange(0, i as int), now),
                    decreases n - i,
                {
                    let sc = t.value_at(i).get_load_score(now);
                    let ghost prefix = t.pairs().subrange(0, i as int);
                    if sc < best_score {
                        best = i;
                        best_score = sc;
                    }
                    proof {
                        let ext = t.pairs().subrange(0, i + 1 as int);
                        assert(ext.drop_last() =~= prefix);
                        assert(ext[ext.len() - 1] == t.pairs()[i as int]);
                    }
                    i = i + 1;
                }
                proof {
                    assert(t.pairs().subrange(0, n as int) =~= t.pairs());
                }
                Ok(t.key_at(best).clone())
            },
            None => Err(PoolError::TenantNotFound),
        }
    }

    /// Route a follow-up turn back to the account already serving its
    /// conversation (session affinity). Fails, changing nothing, when that
    /// account's permit is held by another conversation.
    fn reuse_existing_session(
        &mut self,
        api_key: &str,
        account_email: &str,
        conversation_id: &str,
        now: u64,
    ) -> (r: Result<(String, DeepSeekSession), PoolError>)
        requires
            old(self).wf(),
            old(self).route(conversation_id@) == Some((api_key@, account_email@)),
        ensures
            final(self).wf(),
            final(self).spec_timeout() == old(self).spec_timeout(),
            forall|c2: Seq<char>| final(self).route(c2) == old(self).route(c2),
            forall|k: Seq<char>, e: Seq<char>|
                !(k == api_key@ && e == account_email@) ==> final(self).account(k, e) == old(
                    self,
                ).account(k, e),
            match r {
                Ok((conv, sess)) => ({
                    let a0 = old(self).account(api_key@, account_email@)->0;
                    let a1 = final(self).account(api_key@, account_email@)->0;
                    &&& old(self).account(api_key@, account_email@) is Some
                    &&& conv@ == conversation_id@
                    &&& sess.account_email@ == account_email@
                    &&& sess.state == SessionState::Active
                    &&& (a0.spec_available() || a0.active_holds(conversation_id@))
                    &&& final(self).account(api_key@, account_email@) is Some
                    &&& a1.user_token == a0.user_token
                    &&& a1.active_holds(conv@)
                    &&& a1.sessions.spec_get(conv@) == Some(sess)
                    &&& a0.sessions.spec_get(conv@) is Some
                    &&& sess == (DeepSeekSession {
                        state: SessionState::Active,
                        ..a0.sessions.spec_get(conv@)->0
                    })
                    &&& (forall|c2: Seq<char>|
                        c2 != conv@ ==> a1.sessions.spec_get(c2) == a0.sessions.spec_get(c2))
                }),
                Err(e) => ({
                    let a0 = old(self).account(api_key@, account_email@)->0;
                    &&& old(self).account(api_key@, account_email@) is Some
                    &&& *final(self) == *old(self)
                    &&& e == PoolError::AccountBusyTimeout
                    &&& !a0.spec_available()
                    &&& !a0.active_holds(conversation_id@)
                }),
            },
    {
        let ghost pre = *self;
        proof {
            // the route's target account exists
            assert(pre.session_mapping.contains_key(conversation_id@));
        }
        let ti = match self.pools.find(api_key) {
            Some(i) => i,
            None => {
                proof {
                    assert(false);
                }
                return Err(PoolError::TenantNotFound);
            },
        };
        let ghost t0 = pre.pools.pairs()[ti as int].1;
        proof {
            pre.pools.lemma_index_unique(api_key@, ti as int);
        }
        let ai;
        let busy;
        {
            let t = self.pools.value_at(ti);
            ai = match t.find(account_email) {
                Some(j) => j,
                None => {
                    proof {
                        assert(false);
                    }
                    return Err(PoolError::SessionNotFound);
                },
            };
            let a = t.value_at(ai);
            busy = match &a.active_session {
                Some(c) => {
                    let same = crate::strmap::str_eq(c.as_str(), conversation_id);
                    same == false
                },
                None => false,
            };
            proof {
                t0.lemma_index_unique(account_email@, ai as int);
            }
        }
        let ghost a0 = t0.pairs()[ai as int].1;
        if busy {
            return Err(PoolError::AccountBusyTimeout);
        }
        let conv_string;
        let sess;
        {
            let t = self.pools.value_at_mut(ti);
            let a = t.value_at_mut(ai);
            let act = a.activate_session(conversation_id, now);
            proof {
                // the routed session exists, so activation succeeds
                assert(a0.sessions.contains_key(conversation_id@));
                assert(act is Ok);
            }
            match act {
                Ok(()) => {},
                Err(_) => {
                    return unreached();
                },
            }
            let si = match a.sessions.find(conversation_id) {
                Some(i) => i,
                None => {
                    proof {
                        assert(false);
                    }
                    return Err(PoolError::SessionNotFound);
                },
            };
            sess = a.sessions.value_at(si).clone();
            conv_string = String::from_str(conversation_id);
            proof {
                a.sessions.lemma_index_unique(conversation_id@, si as int);
            }
        }
        proof {
            let t1 = self.pools.pairs()[ti as int].1;
            StrMap::<AccountSessionPool>::lemma_get_after_update(
                t0,
                t1,
                ai as int,
                t1.pairs()[ai as int].1,
            );
            StrMap::<StrMap<AccountSessionPool>>::lemma_get_after_update(
                pre.pools,
                self.pools,
                ti as int,
                t1,
            );
            self.lemma_wf_after_tenant_update(pre, api_key@);
        }
        Ok((conv_string, sess))
    }

    /// Acquire a session for a tenant: reuse the routed account for a known
    /// conversation, otherwise pick the lowest-load account, reserve and
    /// activate a session on it, and record the route. A caller refused with
    /// `AccountBusyTimeout` finds the pool exactly as it was and may wait
    /// and retry; that wait is the permit wait of the surrounding service.
    pub fn acquire_session(
        &mut self,
        api_key: &str,
        conversation_id: Option<String>,
        now: u64,
    ) -> (r: Result<(String, DeepSeekSession), PoolError>)
        requires
            old(self).wf(),
        ensures
            final(self).wf(),
            final(self).spec_timeout() == old(self).spec_timeout(),
            match r {
                Ok((conv, sess)) => {
                    &&& sess.state == SessionState::Active
                    &&& sess.api_key@ == api_key@
                    &&& (sess.conversation_id matches Some(c) && c@ == conv@)
                    &&& final(self).route(conv@) == Some((api_key@, sess.account_email@))
                    &&& final(self).account(api_key@, sess.account_email@) is Some
                    &&& ({
                        let a1 = final(self).account(api_key@, sess.account_email@)->0;
                        a1.active_holds(conv@) && a1.sessions.spec_get(conv@) == Some(sess)
                    })
                    &&& (forall|c2: Seq<char>|
                        c2 != conv@ ==> final(self).route(c2) == old(self).route(c2))
                    &&& (match conversation_id {
                        Some(c) => conv@ == c@,
                        None => conv@.len() == 36,
                    })
                    // nothing else is touched: other accounts are as they
                    // were, and on the chosen account only this conversation
                    &&& (forall|k2: Seq<char>, e2: Seq<char>|
                        !(k2 == api_key@ && e2 == sess.account_email@) ==> final(self).account(
                            k2,
                            e2,
                        ) == old(self).account(k2, e2))
                    &&& old(self).account(api_key@, sess.account_email@) is Some
                    &&& ({
                        let a0 = old(self).account(api_key@, sess.account_email@)->0;
                        let a1 = final(self).account(api_key@, sess.account_email@)->0;
                        &&& a1.user_token == a0.user_token
                        &&& (forall|c2: Seq<char>|
                            c2 != conv@ ==> a1.sessions.spec_get(c2) == a0.sessions.spec_get(c2))
                    })
                    // session affinity: a routed conversation stays on its
                    // account, and gets its stored session back, activated
                    &&& ((conversation_id matches Some(c) && old(self).routed_here(api_key@, c@))
                        ==> {
                        let a0 = old(self).account(api_key@, sess.account_email@)->0;
                        &&& sess.account_email@ == (old(self).route(conv@)->0).1
                        &&& a0.sessions.spec_get(conv@) is Some
                        &&& sess == (DeepSeekSession {
                            state: SessionState::Active,
                            ..a0.sessions.spec_get(conv@)->0
                        })
                        &&& (forall|c2: Seq<char>| final(self).route(c2) == old(self).route(c2))
                    })
                    // a fresh conversation goes to the available account with the
                    // lowest load score, earliest on a tie
                    &&& (!(conversation_id matches Some(c) && old(self).routed_here(api_key@, c@))
                        ==> {
                        let t = old(self).tenant(api_key@)->0;
                        let a0 = old(self).account(api_key@, sess.account_email@)->0;
                        let existing = a0.sessions.spec_get(conv@);
                        &&& old(self).tenant(api_key@) is Some
                        &&& sess.account_email@ == t.pairs()[best_idx(t.pairs(), now)].0
                        &&& t.spec_get(sess.account_email@) is Some
                        &&& t.spec_get(sess.account_email@)->0.spec_available()
                        &&& sess.last_used == now
                        // a session the account already held for this
                        // conversation is kept with its clock bumped;
                        // otherwise the session is brand new
                        &&& (if conversation_id is Some && existing is Some && existing->0.state
                            != SessionState::Expired {
                            sess == (DeepSeekSession {
                                state: SessionState::Active,
                                last_used: now,
                                ..existing->0
                            })
                        } else {
                            sess.messages_count == 0 && sess.created_at == now
                        })
                    })
                },
                Err(e) => {
                    &&& *final(self) == *old(self)
                    &&& (if conversation_id matches Some(c) && old(self).routed_here(
                        api_key@,
                        c@,
                    ) {
                        let tgt = old(self).route(conversation_id->0@)->0;
                        let a0 = old(self).account(tgt.0, tgt.1)->0;
                        &&& e == PoolError::AccountBusyTimeout
                        &&& !a0.spec_available()
                        &&& !a0.active_holds(conversation_id->0@)
                    } else {
                        match old(self).tenant(api_key@) {
                            None => e == PoolError::TenantNotFound,
                            Some(t) => {
                                if t.spec_len() == 0 {
                                    e == PoolError::NoAccountsAvailable
                                } else {
                                    &&& e == PoolError::AccountBusyTimeout
                                    &&& !t.pairs()[best_idx(t.pairs(), now)].1.spec_available()
                                }
                            },
                        }
                    })
                },
            },
    {
        let ghost pre = *self;
        // 1. a routed conversation is served by its own account
        match &conversation_id {
            Some(cid) => {
                let routed: Option<String> = match self.session_mapping.get(cid.as_str()) {
                    Some(p) => {
                        if crate::strmap::str_eq(p.0.as_str(), api_key) {
                            Some(p.1.clone())
                        } else {
                            None
                        }
                    },
                    None => None,
                };
                match routed {
                    Some(email) => {
                        return self.reuse_existing_session(
                            api_key,
                            email.as_str(),
                            cid.as_str(),
                            now,
                        );
                    },
                    None => {},
                }
            },
            None => {},
        }
        // 2. otherwise pick the account with the lowest load score
        let best = match self.find_best_available_account(api_key, now) {
            Ok(e) => e,
            Err(err) => {
                return Err(err);
            },
        };
        let ti = match self.pools.find(api_key) {
            Some(i) => i,
            None => {
                proof {
                    assert(false);
                }
                return Err(PoolError::TenantNotFound);
            },
        };
        let ghost t0 = pre.pools.pairs()[ti as int].1;
        proof {
            pre.pools.lemma_index_unique(api_key@, ti as int);
            lemma_best_idx(t0.pairs(), now);
        }
        let ai;
        let available;
        {
            let t = self.pools.value_at(ti);
            ai = match t.find(best.as_str()) {
                Some(j) => j,
                None => {
                    proof {
                        t0.lemma_index_unique(
                            t0.pairs()[best_idx(t0.pairs(), now)].0,
                            best_idx(t0.pairs(), now),
                        );
                        assert(false);
                    }
                    return Err(PoolError::SessionNotFound);
                },
            };
            // 3. the permit must be free before anything is touched
            available = t.value_at(ai).is_available();
            proof {
                t0.lemma_index_unique(best@, ai as int);
            }
        }
        let ghost a0 = t0.pairs()[ai as int].1;
        if available == false {
            return Err(PoolError::AccountBusyTimeout);
        }
        // 4. reserve a session, take the permit, and hand the session out
        let conv_id;
        let sess;
        {
            let t = self.pools.value_at_mut(ti);
            let a = t.value_at_mut(ai);
            let got = a.get_or_create_session(conversation_id, String::from_str(api_key), now);
            conv_id = match got {
                Ok(c) => c,
                Err(_) => {
                    return unreached();
                },
            };
            let act = a.activate_session(conv_id.as_str(), now);
            proof {
                assert(act is Ok);
            }
            match act {
                Ok(()) => {},
                Err(_) => {
                    return unreached();
                },
            }
            let si = match a.sessions.find(conv_id.as_str()) {
                Some(i) => i,
                None => {
                    proof {
                        assert(false);
                    }
                    return Err(PoolError::SessionNotFound);
                },
            };
            sess = a.sessions.value_at(si).clone();
            proof {
                a.sessions.lemma_index_unique(conv_id@, si as int);
            }
        }
        proof {
            let t1 = self.pools.pairs()[ti as int].1;
            StrMap::<AccountSessionPool>::lemma_get_after_update(
                t0,
                t1,
                ai as int,
                t1.pairs()[ai as int].1,
            );
            StrMap::<StrMap<AccountSessionPool>>::lemma_get_after_update(
                pre.pools,
                self.pools,
                ti as int,
                t1,
            );
            self.lemma_wf_after_tenant_update(pre, api_key@);
        }
        let ghost mid = *self;
        // 5. record the route for follow-up turns
        self.session_mapping.insert(conv_id.clone(), (String::from_str(api_key), best));
        proof {
            assert forall|conv2: Seq<char>| #[trigger]
                self.session_mapping.contains_key(conv2) implies {
                let p = self.session_mapping.spec_get(conv2)->0;
                &&& self.account(p.0@, p.1@) matches Some(a)
                &&& self.account(p.0@, p.1@)->0.sessions.contains_key(conv2)
            } by {
                if conv2 != conv_id@ {
                    assert(mid.session_mapping.contains_key(conv2));
                    let p = mid.session_mapping.spec_get(conv2)->0;
                    assert(mid.account(p.0@, p.1@) matches Some(a));
                }
            }
        }
        Ok((conv_id, sess))
    }

    /// What one `release_session(conv)` does to the pool, seen through its
    /// views: timeout, routes and tenants stay; with no route nothing moves,
    /// and with one only the routed account changes, by `account_released` —
    /// so only the current holder's release does anything, and releasing is
    /// idempotent and never fails (`lemma_release_idempotent`).
    pub open spec fn released(m0: Self, m1: Self, conv: Seq<char>) -> bool {
        &&& m1.spec_timeout() == m0.spec_timeout()
        &&& (forall|c2: Seq<char>| (#[trigger] m1.route(c2)) == m0.route(c2))
        &&& (forall|k: Seq<char>| (#[trigger] m1.tenant(k)) is Some <==> m0.tenant(k) is Some)
        &&& (match m0.route(conv) {
            Some(tgt) => {
                &&& (forall|k: Seq<char>, e: Seq<char>|
                    !(k == tgt.0 && e == tgt.1) ==> (#[trigger] m1.account(k, e)) == m0.account(
                        k,
                        e,
                    ))
                &&& m0.account(tgt.0, tgt.1) is Some
                &&& m1.account(tgt.0, tgt.1) is Some
                &&& account_released(
                    m0.account(tgt.0, tgt.1)->0,
                    m1.account(tgt.0, tgt.1)->0,
                    conv,
                )
            },
            None => forall|k: Seq<char>, e: Seq<char>|
                (#[trigger] m1.account(k, e)) == m0.account(k, e),
        })
    }

    /// Give a conversation's permit back to its routed account. Only the
    /// current holder's release changes anything; a conversation with no
    /// route, no permit, or already released is a no-op, so releasing is
    /// idempotent and never fails. The route itself stays until the sweep.
    pub fn release_session(&mut self, conversation_id: &str)
        requires
            old(self).wf(),
        ensures
            final(self).wf(),
            Self::released(*old(self), *final(self), conversation_id@),
    {
        let ghost pre = *self;
        let target: Option<(String, String)> = match self.session_mapping.get(conversation_id) {
            Some(p) => Some((p.0.clone(), p.1.clone())),
            None => None,
        };
        match target {
            Some((api_key, email)) => {
                proof {
                    assert(pre.session_mapping.contains_key(conversation_id@));
                }
                let ti = match self.pools.find(api_key.as_str()) {
                    Some(i) => i,
                    None => {
                        proof {
                            assert(false);
                        }
                        return ;
                    },
                };
                let ghost t0 = pre.pools.pairs()[ti as int].1;
                proof {
                    pre.pools.lemma_index_unique(api_key@, ti as int);
                }
                let ai;
                {
                    let t = self.pools.value_at(ti);
                    ai = match t.find(email.as_str()) {
                        Some(j) => j,
                        None => {
                            proof {
                                assert(false);
                            }
                            return ;
                        },
                    };
                    proof {
                        t0.lemma_index_unique(email@, ai as int);
                    }
                }
                {
                    let t = self.pools.value_at_mut(ti);
                    let a = t.value_at_mut(ai);
                    a.release_session(conversation_id);
                }
                proof {
                    let t1 = self.pools.pairs()[ti as int].1;
                    StrMap::<AccountSessionPool>::lemma_get_after_update(
                        t0,
                        t1,
                        ai as int,
                        t1.pairs()[ai as int].1,
                    );
                    StrMap::<StrMap<AccountSessionPool>>::lemma_get_after_update(
                        pre.pools,
                        self.pools,
                        ti as int,
                        t1,
                    );
                    self.lemma_wf_after_tenant_update(pre, api_key@);
                }
            },
            None => {},
        }
    }

    /// Counts for one tenant: accounts, free permits, held permits, and
    /// sessions overall. Sums saturate at the machine limit.
    pub fn get_api_key_stats(&self, api_key: &str) -> (r: Option<SessionPoolStats>)
        requires
            self.wf(),
        ensures
            match r {
                Some(stats) => {
                    &&& self.tenant(api_key@) matches Some(t)
                    &&& ({
                        let t = self.tenant(api_key@)->0;
                        &&& stats.api_key@ == api_key@
                        &&& stats.total_accounts == t.spec_len()
                        &&& stats.available_accounts == count_available(
                            t.pairs(),
                            t.spec_len() as int,
                        )
                        &&& stats.active_sessions == t.spec_len() - count_available(
                            t.pairs(),
                            t.spec_len() as int,
                        )
                        &&& stats.total_sessions == (if sum_sessions(
                            t.pairs(),
                            t.spec_len() as int,
                        ) <= usize::MAX {
                            sum_sessions(t.pairs(), t.spec_len() as int)
                        } else {
                            usize::MAX as int
                        })
                    })
                },
                None => self.tenant(api_key@) is None,
            },
    {
        let found = self.pools.find(api_key);
        match found {
            Some(ti) => {
                let t = self.pools.value_at(ti);
                proof {
                    self.pools.lemma_index_unique(api_key@, ti as int);
                    lemma_count_available_le(t.pairs(), t.spec_len() as int);
                }
                let n = t.len();
                let mut available: usize = 0;
                let mut sessions: usize = 0;
                let mut i: usize = 0;
                while i < n
                    invariant
                        n == t.spec_len(),
                        i <= n,
                        available as int == count_available(t.pairs(), i as int),
                        available <= i,
                        sessions as int == (if sum_sessions(t.pairs(), i as int) <= usize::MAX {
                            sum_sessions(t.pairs(), i as int)
                        } else {
                            usize::MAX as int
                        }),
                    decreases n - i,
                {
                    let a = t.value_at(i);
                    if a.is_available() {
                        available = available + 1;
                    }
                    let cnt = a.sessions.len();
                    if sessions <= usize::MAX - cnt {
                        sessions = sessions + cnt;
                    } else {
                        sessions = usize::MAX;
                    }
                    proof {
                        lemma_count_available_le(t.pairs(), i as int);
                    }
                    i = i + 1;
                }
                proof {
                    lemma_count_available_le(t.pairs(), n as int);
                }
                Some(
                    SessionPoolStats {
                        api_key: String::from_str(api_key),
                        total_accounts: n,
                        available_accounts: available,
                        active_sessions: n - available,
                        total_sessions: sessions,
                    },
                )
            },
            None => None,
        }
    }

    /// A well-formed pool's tenants are well-formed maps of well-formed
    /// accounts, each stored under its own email.
    pub proof fn lemma_tenant_wf(self, k: Seq<char>)
        requires
            self.wf(),
            self.tenant(k) is Some,
        ensures
            self.tenant(k)->0.wf(),
            forall|e: Seq<char>| #[trigger]
                self.tenant(k)->0.contains_key(e) ==> account_in_tenant(
                    self.tenant(k)->0.spec_get(e)->0,
                    k,
                    e,
                ),
    {
        assert(self.pools.contains_key(k));
    }

    /// Every session in every tenant's pool, counted once.
    pub closed spec fn total_sessions(self) -> int {
        pools_total(self.pools.pairs(), self.pools.spec_len() as int)
    }

    /// How one sweep at time `now` relates the pool after (`m1`) to the pool
    /// before (`m0`): tenants and accounts survive with their sessions swept,
    /// and a route survives exactly when its session does.
    pub open spec fn swept(m0: Self, m1: Self, now: u64) -> bool {
        &&& m1.spec_timeout() == m0.spec_timeout()
        &&& (forall|k: Seq<char>| (#[trigger] m1.tenant(k)) is Some <==> m0.tenant(k) is Some)
        &&& (forall|k: Seq<char>, e: Seq<char>| (#[trigger] m1.account(k, e)) is Some <==> m0.account(
            k,
            e,
        ) is Some)
        &&& (forall|k: Seq<char>, e: Seq<char>| #[trigger]
            m0.account(k, e) is Some ==> account_swept(
                m0.account(k, e)->0,
                m1.account(k, e)->0,
                m0.spec_timeout(),
                now,
            ))
        &&& (forall|conv: Seq<char>|
            (#[trigger] m1.route(conv)) == (match m0.route(conv) {
                Some(tgt) => {
                    if m1.account(tgt.0, tgt.1) is Some && m1.account(
                        tgt.0,
                        tgt.1,
                    )->0.sessions.contains_key(conv) {
                        Some(tgt)
                    } else {
                        None::<(Seq<char>, Seq<char>)>
                    }
                },
                None => None::<(Seq<char>, Seq<char>)>,
            }))
    }

    /// Drop every session idle beyond the configured timeout, in every
    /// account of every tenant; then drop every route whose session is gone.
    /// Returns how many sessions went, saturating at the machine limit.
    pub fn cleanup_expired_sessions(&mut self, now: u64) -> (removed: usize)
        requires
            old(self).wf(),
        ensures
            final(self).wf(),
            Self::swept(*old(self), *final(self), now),
            removed as int == (if old(self).total_sessions() - final(self).total_sessions()
                <= usize::MAX {
                old(self).total_sessions() - final(self).total_sessions()
            } else {
                usize::MAX as int
            }),
    {
        let ghost pre = *self;
        let timeout = self.session_timeout;
        let nt = self.pools.len();
        let mut removed: usize = 0;
        let mut ti: usize = 0;
        while ti < nt
            invariant
                pre.wf(),
                timeout == pre.session_timeout,
                self.session_timeout == pre.session_timeout,
                self.session_mapping == pre.session_mapping,
                nt == pre.pools.spec_len(),
                ti <= nt,
                self.pools.spec_len() == nt,
                forall|j: int| ti <= j < nt ==> self.pools.pairs()[j] == pre.pools.pairs()[j],
                forall|j: int|
                    0 <= j < ti ==> (#[trigger] self.pools.pairs()[j]).0 == pre.pools.pairs()[j].0,
                forall|j: int|
                    0 <= j < ti ==> tenant_swept(
                        pre.pools.pairs()[j].1,
                        (#[trigger] self.pools.pairs()[j]).1,
                        timeout,
                        now,
                    ),
                removed as int == (if pools_total(pre.pools.pairs(), ti as int) - pools_total(
                    self.pools.pairs(),
                    ti as int,
                ) <= usize::MAX {
                    pools_total(pre.pools.pairs(), ti as int) - pools_total(
                        self.pools.pairs(),
                        ti as int,
                    )
                } else {
                    usize::MAX as int
                }),
                pools_total(pre.pools.pairs(), ti as int) - pools_total(
                    self.pools.pairs(),
                    ti as int,
                ) >= 0,
            decreases nt - ti,
        {
            let ghost t0 = pre.pools.pairs()[ti as int].1;
            let na = self.pools.value_at(ti).len();
            let mut ai: usize = 0;
            while ai < na
                invariant
                    pre.wf(),
                    timeout == pre.session_timeout,
                    self.session_timeout == pre.session_timeout,
                    self.session_mapping == pre.session_mapping,
                    nt == pre.pools.spec_len(),
                    ti < nt,
                    ai <= na,
                    self.pools.spec_len() == nt,
                    t0 == pre.pools.pairs()[ti as int].1,
                    na == t0.spec_len(),
                    forall|j: int|
                        ti < j < nt ==> self.pools.pairs()[j] == pre.pools.pairs()[j],
                    forall|j: int|
                        0 <= j < ti ==> (#[trigger] self.pools.pairs()[j]).0
                            == pre.pools.pairs()[j].0,
                    forall|j: int|
                        0 <= j < ti ==> tenant_swept(
                            pre.pools.pairs()[j].1,
                            (#[trigger] self.pools.pairs()[j]).1,
                            timeout,
                            now,
                        ),
                    self.pools.pairs()[ti as int].0 == pre.pools.pairs()[ti as int].0,
                    self.pools.pairs()[ti as int].1.spec_len() == na,
                    forall|m: int|
                        ai <= m < na ==> self.pools.pairs()[ti as int].1.pairs()[m]
                            == t0.pairs()[m],
                    forall|m: int|
                        0 <= m < ai ==> (#[trigger] self.pools.pairs()[ti as int].1.pairs()[m]).0
                            == t0.pairs()[m].0,
                    forall|m: int|
                        0 <= m < ai ==> account_swept(
                            t0.pairs()[m].1,
                            (#[trigger] self.pools.pairs()[ti as int].1.pairs()[m]).1,
                            timeout,
                            now,
                        ),
                    removed as int == (if pools_total(pre.pools.pairs(), ti as int) - pools_total(
                        self.pools.pairs(),
                        ti as int,
                    ) + sum_sessions(t0.pairs(), ai as int) - sum_sessions(
                        self.pools.pairs()[ti as int].1.pairs(),
                        ai as int,
                    ) <= usize::MAX {
                        pools_total(pre.pools.pairs(), ti as int) - pools_total(
                            self.pools.pairs(),
                            ti as int,
                        ) + sum_sessions(t0.pairs(), ai as int) - sum_sessions(
                            self.pools.pairs()[ti as int].1.pairs(),
                            ai as int,
                        )
                    } else {
                        usize::MAX as int
                    }),
                    pools_total(pre.pools.pairs(), ti as int) - pools_total(
                        self.pools.pairs(),
                        ti as int,
                    ) >= 0,
                    sum_sessions(t0.pairs(), ai as int) - sum_sessions(
                        self.pools.pairs()[ti as int].1.pairs(),
                        ai as int,
                    ) >= 0,
                decreases na - ai,
            {
                let ghost self_b = *self;
                let ghost t_b = self.pools.pairs()[ti as int].1;
                proof {
                    // the account about to be swept is still untouched,
                    // and the pool before the sweep is well formed
                    pre.pools.lemma_index_unique(pre.pools.pairs()[ti as int].0, ti as int);
                    assert(t0.wf());
                    t0.lemma_index_unique(t0.pairs()[ai as int].0, ai as int);
                    assert(t0.pairs()[ai as int].1.wf());
                }
                let c;
                {
                    let t = self.pools.value_at_mut(ti);
                    let a = t.value_at_mut(ai);
                    c = a.cleanup_expired_sessions(timeout, now);
                }
                proof {
                    let t_a = self.pools.pairs()[ti as int].1;
                    lemma_pools_total_prefix(self_b.pools.pairs(), self.pools.pairs(), ti as int);
                    lemma_sum_sessions_prefix(t_b.pairs(), t_a.pairs(), ai as int);
                    assert(sum_sessions(t_a.pairs(), ai + 1) == sum_sessions(t_a.pairs(), ai as int)
                        + t_a.pairs()[ai as int].1.sessions.spec_len());
                    assert(sum_sessions(t0.pairs(), ai + 1) == sum_sessions(t0.pairs(), ai as int)
                        + t0.pairs()[ai as int].1.sessions.spec_len());
                }
                removed = if removed <= usize::MAX - c {
                    removed + c
                } else {
                    usize::MAX
                };
                ai = ai + 1;
            }
            proof {
                let t1 = self.pools.pairs()[ti as int].1;
                assert(tenant_swept(t0, t1, timeout, now));
                assert(pools_total(self.pools.pairs(), ti + 1) == pools_total(
                    self.pools.pairs(),
                    ti as int,
                ) + sum_sessions(t1.pairs(), t1.spec_len() as int));
                assert(pools_total(pre.pools.pairs(), ti + 1) == pools_total(
                    pre.pools.pairs(),
                    ti as int,
                ) + sum_sessions(t0.pairs(), t0.spec_len() as int));
            }
            ti = ti + 1;
        }
        let ghost mid = *self;
        proof {
            lemma_pools_total_prefix(mid.pools.pairs(), self.pools.pairs(), nt as int);
            // the swept pool keeps its keys, so it is still a map
            assert forall|i: int, j: int|
                0 <= i < j < self.pools.pairs().len() implies self.pools.pairs()[i].0
                != self.pools.pairs()[j].0 by {
                assert(pre.pools.pairs()[i].0 != pre.pools.pairs()[j].0);
            }
            assert(self.pools.wf());
        }
        // drop every route whose session is gone
        let nm = self.session_mapping.len();
        let mut kept: StrMap<(String, String)> = StrMap::new();
        let mut mi: usize = 0;
        while mi < nm
            invariant
                pre.wf(),
                *self == mid,
                mid.pools.wf(),
                timeout == pre.session_timeout,
                nt == pre.pools.spec_len(),
                mid.pools.spec_len() == nt,
                forall|j: int|
                    0 <= j < nt ==> (#[trigger] mid.pools.pairs()[j]).0 == pre.pools.pairs()[j].0,
                forall|j: int|
                    0 <= j < nt ==> tenant_swept(
                        pre.pools.pairs()[j].1,
                        (#[trigger] mid.pools.pairs()[j]).1,
                        timeout,
                        now,
                    ),
                nm == mid.session_mapping.spec_len(),
                mi <= nm,
                mid.session_mapping.wf(),
                kept.wf(),
                forall|j: int|
                    0 <= j < mi ==> kept.spec_get(#[trigger] mid.session_mapping.pairs()[j].0) == (
                    if mid.account(
                        mid.session_mapping.pairs()[j].1.0@,
                        mid.session_mapping.pairs()[j].1.1@,
                    ) is Some && mid.account(
                        mid.session_mapping.pairs()[j].1.0@,
                        mid.session_mapping.pairs()[j].1.1@,
                    )->0.sessions.contains_key(mid.session_mapping.pairs()[j].0) {
                        Some(mid.session_mapping.pairs()[j].1)
                    } else {
                        None::<(String, String)>
                    }),
                forall|conv: Seq<char>| #[trigger]
                    kept.contains_key(conv) ==> exists|j: int|
                        0 <= j < mi && mid.session_mapping.pairs()[j].0 == conv,
            decreases nm - mi,
        {
            let ghost kept0 = kept;
            let live;
            {
                let p = self.session_mapping.value_at(mi);
                live = match self.pools.find(p.0.as_str()) {
                    Some(pti) => {
                        let t = self.pools.value_at(pti);
                        proof {
                            self.pools.lemma_index_unique(p.0@, pti as int);
                            pre.pools.lemma_index_unique(p.0@, pti as int);
                            lemma_tenant_swept_wf(
                                pre.pools.pairs()[pti as int].1,
                                mid.pools.pairs()[pti as int].1,
                                timeout,
                                now,
                                p.0@,
                                pre,
                            );
                        }
                        match t.find(p.1.as_str()) {
                            Some(pai) => {
                                proof {
                                    t.lemma_index_unique(p.1@, pai as int);
                                }
                                let conv = self.session_mapping.key_at(mi);
                                t.value_at(pai).sessions.contains(conv.as_str())
                            },
                            None => false,
                        }
                    },
                    None => false,
                };
            }
            if live {
                let conv = self.session_mapping.key_at(mi).clone();
                let p = self.session_mapping.value_at(mi);
                let v = (p.0.clone(), p.1.clone());
                proof {
                    if kept.contains_key(conv@) {
                        let j = choose|j: int|
                            0 <= j < mi && mid.session_mapping.pairs()[j].0 == conv@;
                        assert(mid.session_mapping.pairs()[j].0 == mid.session_mapping.pairs()[mi as int].0);
                    }
                }
                kept.insert(conv, v);
            }
            proof {
                assert forall|j: int|
                    0 <= j < mi + 1 implies kept.spec_get(
                    #[trigger] mid.session_mapping.pairs()[j].0,
                ) == (if mid.account(
                    mid.session_mapping.pairs()[j].1.0@,
                    mid.session_mapping.pairs()[j].1.1@,
                ) is Some && mid.account(
                    mid.session_mapping.pairs()[j].1.0@,
                    mid.session_mapping.pairs()[j].1.1@,
                )->0.sessions.contains_key(mid.session_mapping.pairs()[j].0) {
                    Some(mid.session_mapping.pairs()[j].1)
                } else {
                    None::<(String, String)>
                }) by {
                    if j < mi {
                        if mid.session_mapping.pairs()[j].0 == mid.session_mapping.pairs()[mi as int].0 {
                            assert(false);
                        } else {
                            assert(kept.spec_get(mid.session_mapping.pairs()[j].0)
                                == kept0.spec_get(mid.session_mapping.pairs()[j].0));
                        }
                    }
                }
            }
            mi = mi + 1;
        }
        self.session_mapping = kept;
        proof {
            lemma_pools_total_prefix(mid.pools.pairs(), self.pools.pairs(), nt as int);
            lemma_pools_total_nonneg(self.pools.pairs(), nt as int);
            // routes: each old route resolves through the swept accounts
            assert forall|conv: Seq<char>|
                (#[trigger] self.route(conv)) == (match pre.route(conv) {
                    Some(tgt) => {
                        if self.account(tgt.0, tgt.1) is Some && self.account(
                            tgt.0,
                            tgt.1,
                        )->0.sessions.contains_key(conv) {
                            Some(tgt)
                        } else {
                            None::<(Seq<char>, Seq<char>)>
                        }
                    },
                    None => None::<(Seq<char>, Seq<char>)>,
                }) by {
                if pre.session_mapping.contains_key(conv) {
                    let j = pre.session_mapping.index_of(conv);
                    pre.session_mapping.lemma_index_unique(conv, j);
                } else {
                    if self.session_mapping.contains_key(conv) {
                        let j = choose|j: int|
                            0 <= j < nm && mid.session_mapping.pairs()[j].0 == conv;
                        assert(pre.session_mapping.contains_key(conv));
                    }
                }
            }
            // the swept pool is well formed again
            assert forall|k: Seq<char>| #[trigger] self.pools.contains_key(k) implies {
                let t = self.pools.spec_get(k)->0;
                &&& t.wf()
                &&& (forall|e: Seq<char>| #[trigger]
                    t.contains_key(e) ==> account_in_tenant(t.spec_get(e)->0, k, e))
            } by {
                let j = self.pools.index_of(k);
                self.pools.lemma_index_unique(k, j);
                assert(pre.pools.pairs()[j].0 == k);
                pre.pools.lemma_index_unique(k, j);
                let t0 = pre.pools.pairs()[j].1;
                let t1 = self.pools.pairs()[j].1;
                assert(tenant_swept(t0, t1, timeout, now));
                lemma_tenant_swept_wf(t0, t1, timeout, now, k, pre);
            }
            assert forall|conv: Seq<char>| #[trigger]
                self.session_mapping.contains_key(conv) implies {
                let p = self.session_mapping.spec_get(conv)->0;
                &&& self.account(p.0@, p.1@) matches Some(a)
                &&& self.account(p.0@, p.1@)->0.sessions.contains_key(conv)
            } by {
                let j = choose|j: int| 0 <= j < nm && mid.session_mapping.pairs()[j].0 == conv;
                mid.session_mapping.lemma_index_unique(conv, j);
            }
            // tenants and accounts survive the sweep
            assert forall|k: Seq<char>| (#[trigger] self.tenant(k)) is Some <==> pre.tenant(
                k,
            ) is Some by {
                if pre.pools.contains_key(k) {
                    let j = pre.pools.index_of(k);
                    pre.pools.lemma_index_unique(k, j);
                    self.pools.lemma_index_unique(k, j);
                }
                if self.pools.contains_key(k) {
                    let j = self.pools.index_of(k);
                    self.pools.lemma_index_unique(k, j);
                    pre.pools.lemma_index_unique(k, j);
                }
            }
            assert forall|k: Seq<char>, e: Seq<char>|
                ((#[trigger] self.account(k, e)) is Some <==> pre.account(k, e) is Some) && (
            pre.account(k, e) is Some ==> account_swept(
                pre.account(k, e)->0,
                self.account(k, e)->0,
                timeout,
                now,
            )) by {
                if pre.pools.contains_key(k) {
                    let j = pre.pools.index_of(k);
                    pre.pools.lemma_index_unique(k, j);
                    self.pools.lemma_index_unique(k, j);
                    let t0 = pre.pools.pairs()[j].1;
                    let t1 = self.pools.pairs()[j].1;
                    assert(tenant_swept(t0, t1, timeout, now));
                    lemma_tenant_swept_get(t0, t1, timeout, now, e);
                } else {
                    if self.pools.contains_key(k) {
                        let j = self.pools.index_of(k);
                        self.pools.lemma_index_unique(k, j);
                        pre.pools.lemma_index_unique(k, j);
                    }
                }
            }
        }
        removed
    }
}

/// Session affinity: once `acquire_session` has routed a conversation to an
/// account (`m1` is the pool right after it returned, with the conversation
/// routed to `email1`), `release_session` leaves every route in place, and a
/// second `acquire_session` under the same tenant key — whose contract
/// returns the routed account whenever a route exists — hands back the same
/// account email.
pub proof fn lemma_session_affinity(
    m1: SessionPoolManager,
    m2: SessionPoolManager,
    key: Seq<char>,
    conv: Seq<char>,
    email1: Seq<char>,
    email2: Seq<char>,
)
    requires
        // after the first acquire, `conv` is routed to `email1` under `key`
        m1.route(conv) == Some((key, email1)),
        // releasing changes no route (the contract of `release_session`)
        forall|c2: Seq<char>| m2.route(c2) == m1.route(c2),
        // the second acquire returns the routed account's email (the
        // affinity clause of `acquire_session`'s contract)
        m2.routed_here(key, conv) && email2 == (m2.route(conv)->0).1,
    ensures
        email2 == email1,
{
}

/// Releasing is idempotent: after one `release_session(conv)` (first
/// relation), a second release of the same conversation (second relation)
/// changes nothing the pool's views can tell apart — the first release
/// either freed the permit or was itself a no-op, and a release by anyone
/// but the current holder does not touch the pool.
pub proof fn lemma_release_idempotent(
    m0: SessionPoolManager,
    m1: SessionPoolManager,
    m2: SessionPoolManager,
    conv: Seq<char>,
)
    requires
        SessionPoolManager::released(m0, m1, conv),
        SessionPoolManager::released(m1, m2, conv),
    ensures
        m2.spec_timeout() == m1.spec_timeout(),
        forall|c2: Seq<char>| (#[trigger] m2.route(c2)) == m1.route(c2),
        forall|k: Seq<char>, e: Seq<char>| (#[trigger] m2.account(k, e)) == m1.account(k, e),
{
    assert(m1.route(conv) == m0.route(conv));
    match m0.route(conv) {
        Some(tgt) => {
            let a0 = m0.account(tgt.0, tgt.1)->0;
            let a1 = m1.account(tgt.0, tgt.1)->0;
            let a2 = m2.account(tgt.0, tgt.1)->0;
            // after the first release nobody holds `conv`, so the second
            // leaves the account exactly as it is
            assert(!a1.active_holds(conv));
            assert(a2 == a1);
            assert forall|k: Seq<char>, e: Seq<char>|
                (#[trigger] m2.account(k, e)) == m1.account(k, e) by {
                if !(k == tgt.0 && e == tgt.1) {
                    assert(m2.account(k, e) == m1.account(k, e));
                }
            }
        },
        None => {},
    }
}

/// Load balancing: an available account whose size and idle-time penalties
/// stay under the busy penalty always scores below a busy account, so the
/// selection never lands on the busy one. The bound is needed: an account
/// idle for 100000 seconds or more can score above a freshly used busy one.
pub proof fn lemma_load_balancing(t: StrMap<AccountSessionPool>, i: int, j: int, now: u64)
    requires
        0 <= i < t.pairs().len(),
        0 <= j < t.pairs().len(),
        t.pairs()[i].1.spec_available(),
        !t.pairs()[j].1.spec_available(),
        10 * t.pairs()[i].1.sessions.spec_len() + t.pairs()[i].1.idle_secs(now) < 100000,
    ensures
        t.pairs()[i].1.load_score(now) < t.pairs()[j].1.load_score(now),
        best_idx(t.pairs(), now) != j,
        t.pairs()[best_idx(t.pairs(), now)].1.spec_available() || 10 * t.pairs()[best_idx(
            t.pairs(),
            now,
        )].1.sessions.spec_len() + t.pairs()[best_idx(t.pairs(), now)].1.idle_secs(now) >= 100000,
{
    lemma_best_idx(t.pairs(), now);
    let b = best_idx(t.pairs(), now);
    assert(t.pairs()[b].1.load_score(now) <= t.pairs()[i].1.load_score(now));
    assert(t.pairs()[j].1.load_score(now) >= 100000);
}

/// Expiry: after a sweep at time `now`, a session that had sat idle beyond
/// the timeout is gone from its account, and its conversation's route with
/// it.
pub proof fn lemma_expiry(
    m0: SessionPoolManager,
    m1: SessionPoolManager,
    now: u64,
    conv: Seq<char>,
    k: Seq<char>,
    e: Seq<char>,
    s: DeepSeekSession,
)
    requires
        SessionPoolManager::swept(m0, m1, now),
        m0.route(conv) == Some((k, e)),
        m0.account(k, e) matches Some(a0) && a0.sessions.spec_get(conv) == Some(s),
        session_expired(s, m0.spec_timeout(), now),
    ensures
        m1.account(k, e) is Some,
        m1.account(k, e)->0.sessions.spec_get(conv) is None,
        m1.route(conv) is None,
{
    assert(account_swept(m0.account(k, e)->0, m1.account(k, e)->0, m0.spec_timeout(), now));
}

/// What the sweep does to one tenant: the same accounts in the same order,
/// each swept.
pub open spec fn tenant_swept(
    t0: StrMap<AccountSessionPool>,
    t1: StrMap<AccountSessionPool>,
    timeout: u64,
    now: u64,
) -> bool {
    &&& t1.spec_len() == t0.spec_len()
    &&& (forall|m: int|
        0 <= m < t0.spec_len() ==> (#[trigger] t1.pairs()[m]).0 == t0.pairs()[m].0)
    &&& (forall|m: int|
        0 <= m < t0.spec_len() ==> account_swept(
            t0.pairs()[m].1,
            (#[trigger] t1.pairs()[m]).1,
            timeout,
            now,
        ))
}

/// A swept tenant keeps its key set, and lookups land on swept accounts.
proof fn lemma_tenant_swept_get(
    t0: StrMap<AccountSessionPool>,
    t1: StrMap<AccountSessionPool>,
    timeout: u64,
    now: u64,
    e: Seq<char>,
)
    requires
        t0.wf(),
        tenant_swept(t0, t1, timeout, now),
    ensures
        t1.contains_key(e) == t0.contains_key(e),
        t0.contains_key(e) ==> t1.spec_get(e) is Some && account_swept(
            t0.spec_get(e)->0,
            t1.spec_get(e)->0,
            timeout,
            now,
        ),
{
    assert forall|i: int, j: int|
        0 <= i < j < t1.pairs().len() implies t1.pairs()[i].0 != t1.pairs()[j].0 by {
        assert(t0.pairs()[i].0 != t0.pairs()[j].0);
    }
    if t0.contains_key(e) {
        let m = t0.index_of(e);
        t0.lemma_index_unique(e, m);
        t1.lemma_index_unique(e, m);
    }
    if t1.contains_key(e) {
        let m = t1.index_of(e);
        t1.lemma_index_unique(e, m);
        t0.lemma_index_unique(e, m);
    }
}

/// A swept tenant is still a well-formed map of well-formed accounts under
/// their own emails.
proof fn lemma_tenant_swept_wf(
    t0: StrMap<AccountSessionPool>,
    t1: StrMap<AccountSessionPool>,
    timeout: u64,
    now: u64,
    k: Seq<char>,
    pre: SessionPoolManager,
)
    requires
        pre.wf(),
        pre.tenant(k) == Some(t0),
        tenant_swept(t0, t1, timeout, now),
    ensures
        t1.wf(),
        forall|e: Seq<char>| #[trigger]
            t1.contains_key(e) ==> account_in_tenant(t1.spec_get(e)->0, k, e),
{
    assert(t0.wf());
    assert forall|i: int, j: int|
        0 <= i < j < t1.pairs().len() implies t1.pairs()[i].0 != t1.pairs()[j].0 by {
        assert(t0.pairs()[i].0 != t0.pairs()[j].0);
    }
    assert forall|e: Seq<char>| #[trigger] t1.contains_key(e) implies account_in_tenant(
        t1.spec_get(e)->0,
        k,
        e,
    ) by {
        lemma_tenant_swept_get(t0, t1, timeout, now, e);
        assert(t0.contains_key(e));
        assert(account_in_tenant(t0.spec_get(e)->0, k, e));
        let a0 = t0.spec_get(e)->0;
        let a1 = t1.spec_get(e)->0;
        assert forall|conv: Seq<char>| #[trigger]
            a1.sessions.contains_key(conv) implies a1.sessions.spec_get(conv)->0.api_key@
            == k by {
            assert(a1.sessions.spec_get(conv) is Some);
            assert(a0.sessions.contains_key(conv));
        }
    }
}

proof fn lemma_count_available_le(pairs: Seq<(Seq<char>, AccountSessionPool)>, i: int)
    ensures
        0 <= count_available(pairs, i),
        count_available(pairs, i) <= if i >= 0 {
            i
        } else {
            0
        },
        0 <= sum_sessions(pairs, i),
    decreases i,
{
    if i > 0 {
        lemma_count_available_le(pairs, i - 1);
    }
}

} // verus!
