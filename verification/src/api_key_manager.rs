//! Administration of tenant API keys and their upstream login tokens.
//!
//! Enrollment (logging in upstream to obtain a token) and persistence happen
//! outside the library; the manager is handed plain tokens and owns the
//! bookkeeping: creation, validity, usage counting, and expiry.

use vstd::prelude::*;

use crate::error::PoolError;
use crate::models::{AddAccountResponse, ApiKey, ApiKeyInfo, CreateApiKeyResponse};
use crate::strmap::StrMap;
use crate::utils::{generate_uuid, generate_uuid_simple, random_index};

verus! {

/// Seconds in one day, for key expiry.
pub const SECONDS_PER_DAY: u64 = 86400;

/// An API key is usable: present, active, and not past its expiry.
pub open spec fn key_valid_at(info: ApiKey, now: u64) -> bool {
    &&& info.is_active
    &&& (info.expires_at matches Some(t) ==> now <= t)
}

/// `token` occurs in `list`.
pub open spec fn token_listed(list: Seq<String>, token: Seq<char>) -> bool {
    exists|i: int| 0 <= i < list.len() && list[i]@ == token
}

fn vec_contains_str(list: &Vec<String>, token: &str) -> (r: bool)
    ensures
        r == token_listed(list@, token@),
{
    let n = list.len();
    let mut i: usize = 0;
    while i < n
        invariant
            n == list@.len(),
            i <= n,
            forall|j: int| 0 <= j < i ==> list@[j]@ != token@,
        decreases n - i,
    {
        if crate::strmap::str_eq(list[i].as_str(), token) {
            return true;
        }
        i = i + 1;
    }
    false
}

/// API keys and, per key, the upstream login tokens enrolled under it.
pub struct ApiKeyManager {
    api_keys: StrMap<ApiKey>,
    user_tokens: StrMap<Vec<String>>,
}

impl ApiKeyManager {
    pub closed spec fn wf(self) -> bool {
        self.api_keys.wf() && self.user_tokens.wf()
    }

    /// The stored record for a key.
    pub closed spec fn key_info(self, k: Seq<char>) -> Option<ApiKey> {
        self.api_keys.spec_get(k)
    }

    /// The login tokens enrolled under a key.
    pub closed spec fn tokens_of(self, k: Seq<char>) -> Option<Vec<String>> {
        self.user_tokens.spec_get(k)
    }

    /// The key is present, active and unexpired at `now`.
    pub open spec fn valid_at(self, k: Seq<char>, now: u64) -> bool {
        self.key_info(k) matches Some(info) && key_valid_at(info, now)
    }

    pub fn new() -> (r: Self)
        ensures
            r.wf(),
            forall|k: Seq<char>| r.key_info(k) is None,
            forall|k: Seq<char>| r.tokens_of(k) is None,
    {
        ApiKeyManager { api_keys: StrMap::new(), user_tokens: StrMap::new() }
    }

    /// Mint a new key `dsk-<random>`, optionally expiring after a number of
    /// days, with no tokens enrolled yet.
    pub fn create_api_key(&mut self, name: String, expires_days: Option<u32>, now: u64) -> (r:
        CreateApiKeyResponse)
        requires
            old(self).wf(),
            expires_days matches Some(d) ==> now + d * (SECONDS_PER_DAY as int) <= u64::MAX,
        ensures
            final(self).wf(),
            r.api_key@.len() == 36,
            r.api_key@.subrange(0, 4) == "dsk-"@,
            r.name == name,
            r.created_at == now,
            r.expires_at == (match expires_days {
                Some(d) => Some((now + d * SECONDS_PER_DAY) as u64),
                None => None::<u64>,
            }),
            final(self).key_info(r.api_key@) matches Some(info) && {
                &&& info.key == r.api_key
                &&& info.name == name
                &&& info.user_tokens@.len() == 0
                &&& info.created_at == now
                &&& info.expires_at == r.expires_at
                &&& info.usage_count == 0
                &&& info.is_active
            },
            final(self).tokens_of(r.api_key@) matches Some(l) && l@.len() == 0,
            forall|k: Seq<char>|
                k != r.api_key@ ==> final(self).key_info(k) == old(self).key_info(k),
            forall|k: Seq<char>|
                k != r.api_key@ ==> final(self).tokens_of(k) == old(self).tokens_of(k),
    {
        let suffix = generate_uuid_simple();
        let api_key = String::from_str("dsk-").concat(suffix.as_str());
        proof {
            reveal_strlit("dsk-");
            assert(api_key@.subrange(0, 4) =~= "dsk-"@);
        }
        let expires_at: Option<u64> = match expires_days {
            Some(days) => Some(now + (days as u64) * SECONDS_PER_DAY),
            None => None,
        };
        let info = ApiKey {
            id: generate_uuid(),
            key: api_key.clone(),
            name: name.clone(),
            user_tokens: Vec::new(),
            created_at: now,
            expires_at,
            usage_count: 0,
            is_active: true,
        };
        self.api_keys.insert(api_key.clone(), info);
        self.user_tokens.insert(api_key.clone(), Vec::new());
        CreateApiKeyResponse { api_key, name, created_at: now, expires_at }
    }

    /// Enroll an upstream login token under a key (the upstream login itself
    /// happens outside the library). A token already enrolled is not added
    /// twice.
    pub fn add_account(&mut self, api_key: &str, email: &str, user_token: String, now: u64) -> (r:
        Result<AddAccountResponse, PoolError>)
        requires
            old(self).wf(),
        ensures
            final(self).wf(),
            forall|k: Seq<char>| final(self).key_info(k) == old(self).key_info(k),
            forall|k: Seq<char>|
                k != api_key@ ==> final(self).tokens_of(k) == old(self).tokens_of(k),
            match r {
                Ok(resp) => {
                    &&& old(self).valid_at(api_key@, now)
                    &&& resp.success
                    &&& (final(self).tokens_of(api_key@) matches Some(l1) && {
                        let l0 = match old(self).tokens_of(api_key@) {
                            Some(l) => l@,
                            None => Seq::<String>::empty(),
                        };
                        &&& l1@ == (if token_listed(l0, user_token@) {
                            l0
                        } else {
                            l0.push(user_token)
                        })
                        &&& resp.accounts_count == l1@.len()
                    })
                },
                Err(e) => {
                    &&& e == PoolError::InvalidApiKey
                    &&& !old(self).valid_at(api_key@, now)
                    &&& *final(self) == *old(self)
                },
            },
    {
        if self.is_api_key_valid(api_key, now) == false {
            return Err(PoolError::InvalidApiKey);
        }
        let mut list: Vec<String> = match self.user_tokens.get(api_key) {
            Some(l) => {
                let mut copy: Vec<String> = Vec::new();
                let n = l.len();
                let mut i: usize = 0;
                while i < n
                    invariant
                        n == l@.len(),
                        i <= n,
                        copy@.len() == i,
                        forall|j: int| 0 <= j < i ==> copy@[j] == l@[j],
                    decreases n - i,
                {
                    copy.push(l[i].clone());
                    i = i + 1;
                }
                proof {
                    assert(copy@ =~= l@);
                }
                copy
            },
            None => Vec::new(),
        };
        if vec_contains_str(&list, user_token.as_str()) == false {
            list.push(user_token);
        }
        let count = list.len();
        self.user_tokens.insert(String::from_str(api_key), list);
        let message = String::from_str("Added account ").concat(email);
        Ok(AddAccountResponse { success: true, message, accounts_count: count })
    }

    /// Hand out one of the key's tokens at random and count the use.
    pub fn get_user_token(&mut self, api_key: &str, now: u64) -> (r: Result<String, PoolError>)
        requires
            old(self).wf(),
        ensures
            final(self).wf(),
            forall|k: Seq<char>| final(self).tokens_of(k) == old(self).tokens_of(k),
            forall|k: Seq<char>|
                k != api_key@ ==> final(self).key_info(k) == old(self).key_info(k),
            match r {
                Ok(token) => {
                    &&& old(self).valid_at(api_key@, now)
                    &&& (old(self).tokens_of(api_key@) matches Some(l) && token_listed(l@, token@))
                    // the use is counted, saturating
                    &&& ({
                        let info = old(self).key_info(api_key@)->0;
                        final(self).key_info(api_key@) == Some(
                            (ApiKey {
                                usage_count: if info.usage_count < u64::MAX {
                                    (info.usage_count + 1) as u64
                                } else {
                                    info.usage_count
                                },
                                ..info
                            }),
                        )
                    })
                },
                Err(e) => {
                    &&& *final(self) == *old(self)
                    &&& (e == PoolError::InvalidApiKey || e == PoolError::NoAccountsAvailable)
                    &&& (e == PoolError::InvalidApiKey <==> !old(self).valid_at(api_key@, now))
                    &&& (e == PoolError::NoAccountsAvailable <==> (old(self).valid_at(api_key@, now)
                        && (match old(self).tokens_of(api_key@) {
                        Some(l) => l@.len() == 0,
                        None => true,
                    })))
                },
            },
    {
        if self.is_api_key_valid(api_key, now) == false {
            return Err(PoolError::InvalidApiKey);
        }
        let token = {
            let list = match self.user_tokens.get(api_key) {
                Some(l) => l,
                None => {
                    return Err(PoolError::NoAccountsAvailable);
                },
            };
            if list.len() == 0 {
                return Err(PoolError::NoAccountsAvailable);
            }
            let i = random_index(list.len());
            list[i].clone()
        };
        let ghost pre = *self;
        let ki = match self.api_keys.find(api_key) {
            Some(i) => i,
            None => {
                proof {
                    assert(false);
                }
                return Err(PoolError::InvalidApiKey);
            },
        };
        let ghost old_pair = pre.api_keys.pairs()[ki as int];
        let info = self.api_keys.value_at_mut(ki);
        if info.usage_count < u64::MAX {
            info.usage_count = info.usage_count + 1;
        }
        proof {
            StrMap::<ApiKey>::lemma_get_after_update(
                pre.api_keys,
                self.api_keys,
                ki as int,
                (ApiKey {
                    usage_count: if old_pair.1.usage_count < u64::MAX {
                        (old_pair.1.usage_count + 1) as u64
                    } else {
                        old_pair.1.usage_count
                    },
                    ..old_pair.1
                }),
            );
            pre.api_keys.lemma_index_unique(api_key@, ki as int);
        }
        Ok(token)
    }

    /// The key is present, active and unexpired at `now`.
    pub fn is_api_key_valid(&self, api_key: &str, now: u64) -> (r: bool)
        requires
            self.wf(),
        ensures
            r == self.valid_at(api_key@, now),
    {
        match self.api_keys.get(api_key) {
            Some(info) => {
                if info.is_active == false {
                    return false;
                }
                match info.expires_at {
                    Some(t) => now <= t,
                    None => true,
                }
            },
            None => false,
        }
    }

    /// The key's record, with how many tokens are enrolled.
    pub fn get_api_key_info(&self, api_key: &str) -> (r: Result<ApiKeyInfo, PoolError>)
        requires
            self.wf(),
        ensures
            match r {
                Ok(info) => {
                    &&& self.key_info(api_key@) matches Some(stored)
                    &&& ({
                        let stored = self.key_info(api_key@)->0;
                        &&& info.id == stored.id
                        &&& info.name == stored.name
                        &&& info.usage_count == stored.usage_count
                        &&& info.created_at == stored.created_at
                        &&& info.expires_at == stored.expires_at
                        &&& info.is_active == stored.is_active
                        &&& info.accounts_count == (match self.tokens_of(api_key@) {
                            Some(l) => l@.len(),
                            None => 0,
                        })
                    })
                },
                Err(e) => e == PoolError::TenantNotFound && self.key_info(api_key@) is None,
            },
    {
        let stored = match self.api_keys.get(api_key) {
            Some(s) => s,
            None => {
                return Err(PoolError::TenantNotFound);
            },
        };
        let accounts_count = match self.user_tokens.get(api_key) {
            Some(l) => l.len(),
            None => 0,
        };
        Ok(
            ApiKeyInfo {
                id: stored.id.clone(),
                name: stored.name.clone(),
                accounts_count,
                usage_count: stored.usage_count,
                created_at: stored.created_at,
                expires_at: stored.expires_at,
                is_active: stored.is_active,
            },
        )
    }

    /// The key stored at row `i`, in insertion order.
    pub closed spec fn key_at_spec(self, i: int) -> Seq<char> {
        self.api_keys.pairs()[i].0
    }

    /// The record stored at row `i`, in insertion order.
    pub closed spec fn record_at(self, i: int) -> ApiKey {
        self.api_keys.pairs()[i].1
    }

    /// Row `i` is the record filed under its own key.
    pub proof fn lemma_record_at(self, i: int)
        requires
            self.wf(),
            0 <= i < self.spec_key_count(),
        ensures
            self.key_info(self.key_at_spec(i)) == Some(self.record_at(i)),
    {
        self.api_keys.lemma_index_unique(self.key_at_spec(i), i);
    }

    /// Every key's record, in insertion order.
    pub fn list_api_keys(&self) -> (r: Vec<ApiKeyInfo>)
        requires
            self.wf(),
        ensures
            r@.len() == self.spec_key_count(),
            forall|i: int|
                0 <= i < r@.len() ==> {
                    let info = #[trigger] r@[i];
                    let stored = self.record_at(i);
                    &&& info.id == stored.id
                    &&& info.name == stored.name
                    &&& info.usage_count == stored.usage_count
                    &&& info.created_at == stored.created_at
                    &&& info.expires_at == stored.expires_at
                    &&& info.is_active == stored.is_active
                    &&& info.accounts_count == (match self.tokens_of(self.key_at_spec(i)) {
                        Some(l) => l@.len(),
                        None => 0,
                    })
                },
    {
        let n = self.api_keys.len();
        let mut out: Vec<ApiKeyInfo> = Vec::new();
        let mut i: usize = 0;
        while i < n
            invariant
                n == self.api_keys.spec_len(),
                self.wf(),
                i <= n,
                out@.len() == i,
                forall|j: int|
                    0 <= j < i ==> {
                        let info = #[trigger] out@[j];
                        let stored = self.record_at(j);
                        &&& info.id == stored.id
                        &&& info.name == stored.name
                        &&& info.usage_count == stored.usage_count
                        &&& info.created_at == stored.created_at
                        &&& info.expires_at == stored.expires_at
                        &&& info.is_active == stored.is_active
                        &&& info.accounts_count == (match self.tokens_of(self.key_at_spec(j)) {
                            Some(l) => l@.len(),
                            None => 0,
                        })
                    },
            decreases n - i,
        {
            let stored = self.api_keys.value_at(i);
            let key = self.api_keys.key_at(i);
            let accounts_count = match self.user_tokens.get(key.as_str()) {
                Some(l) => l.len(),
                None => 0,
            };
            out.push(
                ApiKeyInfo {
                    id: stored.id.clone(),
                    name: stored.name.clone(),
                    accounts_count,
                    usage_count: stored.usage_count,
                    created_at: stored.created_at,
                    expires_at: stored.expires_at,
                    is_active: stored.is_active,
                },
            );
            i = i + 1;
        }
        out
    }

    /// How many keys are stored.
    pub closed spec fn spec_key_count(self) -> nat {
        self.api_keys.spec_len()
    }

    /// Turn a key off; it stays stored but stops validating.
    pub fn deactivate_api_key(&mut self, api_key: &str) -> (r: Result<(), PoolError>)
        requires
            old(self).wf(),
        ensures
            final(self).wf(),
            forall|k: Seq<char>| final(self).tokens_of(k) == old(self).tokens_of(k),
            forall|k: Seq<char>|
                k != api_key@ ==> final(self).key_info(k) == old(self).key_info(k),
            match r {
                Ok(()) => {
                    &&& old(self).key_info(api_key@) is Some
                    &&& final(self).key_info(api_key@) == Some(
                        (ApiKey { is_active: false, ..old(self).key_info(api_key@)->0 }),
                    )
                },
                Err(e) => {
                    &&& e == PoolError::TenantNotFound
                    &&& old(self).key_info(api_key@) is None
                    &&& *final(self) == *old(self)
                },
            },
    {
        let ghost pre = *self;
        let ki = match self.api_keys.find(api_key) {
            Some(i) => i,
            None => {
                return Err(PoolError::TenantNotFound);
            },
        };
        let ghost old_pair = pre.api_keys.pairs()[ki as int];
        let info = self.api_keys.value_at_mut(ki);
        info.is_active = false;
        proof {
            StrMap::<ApiKey>::lemma_get_after_update(
                pre.api_keys,
                self.api_keys,
                ki as int,
                (ApiKey { is_active: false, ..old_pair.1 }),
            );
            pre.api_keys.lemma_index_unique(api_key@, ki as int);
        }
        Ok(())
    }

    /// Drop every key past its expiry, with its token list; keys without an
    /// expiry stay. Returns how many keys went.
    pub fn cleanup_expired_keys(&mut self, now: u64) -> (removed: usize)
        requires
            old(self).wf(),
        ensures
            final(self).wf(),
            forall|k: Seq<char>|
                final(self).key_info(k) == (match old(self).key_info(k) {
                    Some(info) => if info.expires_at matches Some(t) && now > t {
                        None::<ApiKey>
                    } else {
                        Some(info)
                    },
                    None => None::<ApiKey>,
                }),
            forall|k: Seq<char>|
                final(self).tokens_of(k) == (if old(self).key_info(k) matches Some(info)
                    && (info.expires_at matches Some(t) && now > t) {
                    None::<Vec<String>>
                } else {
                    old(self).tokens_of(k)
                }),
            removed == old(self).spec_key_count() - final(self).spec_key_count(),
    {
        let ghost pre = *self;
        let ghost pairs = pre.api_keys.pairs();
        let n = self.api_keys.len();
        let mut expired_keys: Vec<String> = Vec::new();
        let ghost mut src: Seq<int> = Seq::empty();
        let mut i: usize = 0;
        while i < n
            invariant
                n == pre.api_keys.spec_len(),
                pairs == pre.api_keys.pairs(),
                i <= n,
                *self == pre,
                pre.wf(),
                src.len() == expired_keys@.len(),
                forall|m: int|
                    0 <= m < src.len() ==> 0 <= #[trigger] src[m] < i && expired_keys@[m]@
                        == pairs[src[m]].0 && (pairs[src[m]].1.expires_at matches Some(t) && now
                        > t),
                forall|m1: int, m2: int| 0 <= m1 < m2 < src.len() ==> src[m1] < src[m2],
                forall|j: int|
                    0 <= j < i && ((#[trigger] pairs[j]).1.expires_at matches Some(t) && now > t)
                        ==> exists|m: int| 0 <= m < src.len() && src[m] == j,
            decreases n - i,
        {
            let ghost src0 = src;
            let info = self.api_keys.value_at(i);
            let expired = match info.expires_at {
                Some(t) => now > t,
                None => false,
            };
            if expired {
                expired_keys.push(self.api_keys.key_at(i).clone());
                proof {
                    src = src.push(i as int);
                }
            }
            proof {
                assert forall|j: int|
                    0 <= j < i + 1 && ((#[trigger] pairs[j]).1.expires_at matches Some(t) && now
                        > t) implies exists|m: int| 0 <= m < src.len() && src[m] == j by {
                    if j == i {
                        assert(expired);
                        assert(src[src.len() - 1] == i as int);
                    } else {
                        let m0 = choose|m: int| 0 <= m < src0.len() && src0[m] == j;
                        assert(src[m0] == j);
                    }
                }
            }
            i = i + 1;
        }
        let ghost dead = expired_keys@;
        proof {
            // distinct source rows give distinct keys
            assert forall|m1: int, m2: int|
                0 <= m1 < m2 < dead.len() implies dead[m1]@ != dead[m2]@ by {
                assert(pairs[src[m1]].0 != pairs[src[m2]].0);
            }
        }
        let nk = expired_keys.len();
        let mut m: usize = 0;
        while m < nk
            invariant
                nk == dead.len(),
                nk == src.len(),
                m <= nk,
                pre.wf(),
                self.wf(),
                pairs == pre.api_keys.pairs(),
                n == pre.api_keys.spec_len(),
                forall|m1: int, m2: int| 0 <= m1 < m2 < nk ==> dead[m1]@ != dead[m2]@,
                expired_keys@ == dead,
                forall|m1: int|
                    0 <= m1 < nk ==> 0 <= #[trigger] src[m1] < n && dead[m1]@ == pairs[src[m1]].0
                        && (pairs[src[m1]].1.expires_at matches Some(t) && now > t),
                forall|k: Seq<char>|
                    self.key_info(k) == (if exists|m1: int|
                        0 <= m1 < m && (#[trigger] dead[m1])@ == k {
                        None::<ApiKey>
                    } else {
                        pre.key_info(k)
                    }),
                forall|k: Seq<char>|
                    self.tokens_of(k) == (if exists|m1: int|
                        0 <= m1 < m && (#[trigger] dead[m1])@ == k {
                        None::<Vec<String>>
                    } else {
                        pre.tokens_of(k)
                    }),
                self.spec_key_count() == pre.spec_key_count() - m,
            decreases nk - m,
        {
            let ghost self_b = *self;
            let key = &expired_keys[m];
            proof {
                // this key is still present: it was not removed earlier
                pre.api_keys.lemma_index_unique(key@, src[m as int]);
                if exists|m1: int| 0 <= m1 < m && (#[trigger] dead[m1])@ == key@ {
                    let m1 = choose|m1: int| 0 <= m1 < m && (#[trigger] dead[m1])@ == key@;
                    assert(dead[m1]@ != dead[m as int]@);
                    assert(false);
                }
                assert(self_b.key_info(key@) == pre.key_info(key@));
                assert(self_b.key_info(key@) is Some);
                assert(self_b.api_keys.contains_key(key@));
            }
            self.api_keys.remove(key.as_str());
            self.user_tokens.remove(key.as_str());
            proof {
                assert forall|k: Seq<char>|
                    self.key_info(k) == (if exists|m1: int|
                        0 <= m1 < m + 1 && (#[trigger] dead[m1])@ == k {
                        None::<ApiKey>
                    } else {
                        pre.key_info(k)
                    }) by {
                    if k == key@ {
                        assert(dead[m as int]@ == k);
                    } else {
                        assert(self.key_info(k) == self_b.key_info(k));
                        if exists|m1: int| 0 <= m1 < m + 1 && (#[trigger] dead[m1])@ == k {
                            let m1 = choose|m1: int|
                                0 <= m1 < m + 1 && (#[trigger] dead[m1])@ == k;
                            assert(m1 < m);
                            assert(exists|m2: int| 0 <= m2 < m && (#[trigger] dead[m2])@ == k);
                        }
                    }
                }
                assert forall|k: Seq<char>|
                    self.tokens_of(k) == (if exists|m1: int|
                        0 <= m1 < m + 1 && (#[trigger] dead[m1])@ == k {
                        None::<Vec<String>>
                    } else {
                        pre.tokens_of(k)
                    }) by {
                    if k == key@ {
                        assert(dead[m as int]@ == k);
                    } else {
                        assert(self.tokens_of(k) == self_b.tokens_of(k));
                        if exists|m1: int| 0 <= m1 < m + 1 && (#[trigger] dead[m1])@ == k {
                            let m1 = choose|m1: int|
                                0 <= m1 < m + 1 && (#[trigger] dead[m1])@ == k;
                            assert(m1 < m);
                            assert(exists|m2: int| 0 <= m2 < m && (#[trigger] dead[m2])@ == k);
                        }
                    }
                }
            }
            m = m + 1;
        }
        proof {
            assert forall|k: Seq<char>|
                self.key_info(k) == (match pre.key_info(k) {
                    Some(info) => if info.expires_at matches Some(t) && now > t {
                        None::<ApiKey>
                    } else {
                        Some(info)
                    },
                    None => None::<ApiKey>,
                }) by {
                if pre.api_keys.contains_key(k) {
                    let j = pre.api_keys.index_of(k);
                    pre.api_keys.lemma_index_unique(k, j);
                    let info = pairs[j].1;
                    if info.expires_at matches Some(t) && now > t {
                        let m1 = choose|m1: int| 0 <= m1 < src.len() && src[m1] == j;
                        assert(dead[m1]@ == k);
                        assert(exists|m2: int| 0 <= m2 < nk && (#[trigger] dead[m2])@ == k);
                    } else {
                        if exists|m1: int| 0 <= m1 < nk && (#[trigger] dead[m1])@ == k {
                            let m1 = choose|m1: int| 0 <= m1 < nk && (#[trigger] dead[m1])@ == k;
                            pre.api_keys.lemma_index_unique(k, src[m1]);
                        }
                    }
                } else {
                    if exists|m1: int| 0 <= m1 < nk && (#[trigger] dead[m1])@ == k {
                        let m1 = choose|m1: int| 0 <= m1 < nk && (#[trigger] dead[m1])@ == k;
                        pre.api_keys.lemma_index_unique(k, src[m1]);
                    }
                }
            }
            assert forall|k: Seq<char>|
                self.tokens_of(k) == (if pre.key_info(k) matches Some(info) && (
                info.expires_at matches Some(t) && now > t) {
                    None::<Vec<String>>
                } else {
                    pre.tokens_of(k)
                }) by {
                if pre.api_keys.contains_key(k) {
                    let j = pre.api_keys.index_of(k);
                    pre.api_keys.lemma_index_unique(k, j);
                    let info = pairs[j].1;
                    if info.expires_at matches Some(t) && now > t {
                        let m1 = choose|m1: int| 0 <= m1 < src.len() && src[m1] == j;
                        assert(dead[m1]@ == k);
                        assert(exists|m2: int| 0 <= m2 < nk && (#[trigger] dead[m2])@ == k);
                    } else {
                        if exists|m1: int| 0 <= m1 < nk && (#[trigger] dead[m1])@ == k {
                            let m1 = choose|m1: int| 0 <= m1 < nk && (#[trigger] dead[m1])@ == k;
                            pre.api_keys.lemma_index_unique(k, src[m1]);
                        }
                    }
                } else {
                    if exists|m1: int| 0 <= m1 < nk && (#[trigger] dead[m1])@ == k {
                        let m1 = choose|m1: int| 0 <= m1 < nk && (#[trigger] dead[m1])@ == k;
                        pre.api_keys.lemma_index_unique(k, src[m1]);
                    }
                }
            }
        }
        nk
    }
}

/// A fresh vector holding clones of the strings.
fn clone_string_vec(list: &Vec<String>) -> (r: Vec<String>)
    ensures
        r@ == list@,
{
    let n = list.len();
    let mut out: Vec<String> = Vec::new();
    let mut i: usize = 0;
    while i < n
        invariant
            n == list@.len(),
            i <= n,
            out@.len() == i,
            forall|j: int| 0 <= j < i ==> out@[j] == list@[j],
        decreases n - i,
    {
        out.push(list[i].clone());
        i = i + 1;
    }
    proof {
        assert(out@ =~= list@);
    }
    out
}

} // verus!
