//! An association map from strings to values, with insertion order kept.
//!
//! The pool keeps several maps keyed by strings (tenant keys, account
//! emails, conversation identifiers). This module gives them one verified
//! container: a vector of key/value pairs with pairwise-distinct keys.

use vstd::prelude::*;

use crate::text::str_chars;

verus! {

/// Two string slices hold the same text.
pub fn str_eq(a: &str, b: &str) -> (r: bool)
    ensures
        r == (a@ == b@),
{
    let va = str_chars(a);
    let vb = str_chars(b);
    let n = va.len();
    if n != vb.len() {
        return false;
    }
    let mut i: usize = 0;
    while i < n
        invariant
            n == va@.len(),
            n == vb@.len(),
            va@ == a@,
            vb@ == b@,
            i <= n,
            forall|j: int| 0 <= j < i ==> va@[j] == vb@[j],
        decreases n - i,
    {
        if va[i] != vb[i] {
            return false;
        }
        i = i + 1;
    }
    proof {
        assert(a@ =~= b@);
    }
    true
}

/// A map from strings to values, kept as key/value pairs in insertion order.
#[derive(Debug)]
pub struct StrMap<V> {
    entries: Vec<(String, V)>,
}

impl<V> StrMap<V> {
    /// The key/value pairs in insertion order.
    pub closed spec fn pairs(self) -> Seq<(Seq<char>, V)> {
        self.entries@.map_values(|p: (String, V)| (p.0@, p.1))
    }

    /// The keys in insertion order.
    pub open spec fn keys(self) -> Seq<Seq<char>> {
        self.pairs().map_values(|p: (Seq<char>, V)| p.0)
    }

    /// Keys are pairwise distinct.
    pub open spec fn wf(self) -> bool {
        forall|i: int, j: int|
            0 <= i < j < self.pairs().len() ==> self.pairs()[i].0 != self.pairs()[j].0
    }

    pub open spec fn spec_len(self) -> nat {
        self.pairs().len()
    }

    pub open spec fn contains_key(self, k: Seq<char>) -> bool {
        exists|i: int| 0 <= i < self.pairs().len() && self.pairs()[i].0 == k
    }

    /// The index of key `k`; meaningful only when `contains_key(k)`.
    pub open spec fn index_of(self, k: Seq<char>) -> int {
        choose|i: int| 0 <= i < self.pairs().len() && self.pairs()[i].0 == k
    }

    /// The value stored under `k`, if any.
    pub open spec fn spec_get(self, k: Seq<char>) -> Option<V> {
        if self.contains_key(k) {
            Some(self.pairs()[self.index_of(k)].1)
        } else {
            None
        }
    }

    /// In a well-formed map, any index holding key `k` is `index_of(k)`.
    pub proof fn lemma_index_unique(self, k: Seq<char>, i: int)
        requires
            self.wf(),
            0 <= i < self.pairs().len(),
            self.pairs()[i].0 == k,
        ensures
            self.contains_key(k),
            self.index_of(k) == i,
            self.spec_get(k) == Some(self.pairs()[i].1),
    {
        assert(self.contains_key(k));
        let j = self.index_of(k);
        assert(0 <= j < self.pairs().len() && self.pairs()[j].0 == k);
        if i < j {
            assert(self.pairs()[i].0 != self.pairs()[j].0);
        } else if j < i {
            assert(self.pairs()[j].0 != self.pairs()[i].0);
        }
    }

    pub fn new() -> (r: Self)
        ensures
            r.wf(),
            r.spec_len() == 0,
            r.pairs() == Seq::<(Seq<char>, V)>::empty(),
            forall|k: Seq<char>| !r.contains_key(k),
    {
        let r = StrMap { entries: Vec::new() };
        proof {
            assert(r.pairs() =~= Seq::<(Seq<char>, V)>::empty());
        }
        r
    }

    pub fn len(&self) -> (n: usize)
        ensures
            n == self.spec_len(),
    {
        self.entries.len()
    }

    pub fn is_empty(&self) -> (r: bool)
        ensures
            r == (self.spec_len() == 0),
    {
        self.entries.len() == 0
    }

    /// The index of key `k` in the map, if present.
    pub fn find(&self, k: &str) -> (r: Option<usize>)
        requires
            self.wf(),
        ensures
            match r {
                Some(i) => {
                    &&& i < self.spec_len()
                    &&& self.pairs()[i as int].0 == k@
                    &&& self.contains_key(k@)
                    &&& self.index_of(k@) == i as int
                },
                None => !self.contains_key(k@),
            },
    {
        let n = self.entries.len();
        let mut i: usize = 0;
        while i < n
            invariant
                n == self.spec_len(),
                i <= n,
                self.wf(),
                forall|j: int| 0 <= j < i ==> self.pairs()[j].0 != k@,
            decreases n - i,
        {
            if str_eq(self.entries[i].0.as_str(), k) {
                proof {
                    self.lemma_index_unique(k@, i as int);
                }
                return Some(i);
            }
            i = i + 1;
        }
        None
    }

    pub fn contains(&self, k: &str) -> (r: bool)
        requires
            self.wf(),
        ensures
            r == self.contains_key(k@),
    {
        self.find(k).is_some()
    }

    pub fn get(&self, k: &str) -> (r: Option<&V>)
        requires
            self.wf(),
        ensures
            match r {
                Some(v) => self.spec_get(k@) == Some(*v),
                None => self.spec_get(k@) is None,
            },
    {
        match self.find(k) {
            Some(i) => Some(&self.entries[i].1),
            None => None,
        }
    }

    pub fn key_at(&self, i: usize) -> (r: &String)
        requires
            i < self.spec_len(),
        ensures
            r@ == self.pairs()[i as int].0,
    {
        &self.entries[i].0
    }

    pub fn value_at(&self, i: usize) -> (r: &V)
        requires
            i < self.spec_len(),
        ensures
            *r == self.pairs()[i as int].1,
    {
        &self.entries[i].1
    }

    /// Mutable access to the value at index `i`; the key is unchanged.
    pub fn value_at_mut(&mut self, i: usize) -> (r: &mut V)
        requires
            i < old(self).spec_len(),
        ensures
            *r == old(self).pairs()[i as int].1,
            final(self).pairs() == old(self).pairs().update(
                i as int,
                (old(self).pairs()[i as int].0, *final(r)),
            ),
    {
        let p = &mut self.entries[i];
        &mut p.1
    }

    /// Insert `v` under `k`, replacing in place any value already there.
    pub fn insert(&mut self, k: String, v: V)
        requires
            old(self).wf(),
        ensures
            final(self).wf(),
            final(self).contains_key(k@),
            final(self).spec_get(k@) == Some(v),
            forall|k2: Seq<char>| k2 != k@ ==> final(self).spec_get(k2) == old(self).spec_get(k2),
            forall|k2: Seq<char>|
                final(self).contains_key(k2) == (old(self).contains_key(k2) || k2 == k@),
            final(self).pairs() == if old(self).contains_key(k@) {
                old(self).pairs().update(old(self).index_of(k@), (k@, v))
            } else {
                old(self).pairs().push((k@, v))
            },
            final(self).spec_len() == if old(self).contains_key(k@) {
                old(self).spec_len()
            } else {
                old(self).spec_len() + 1
            },
    {
        let ghost pre = *self;
        match self.find(k.as_str()) {
            Some(i) => {
                let ghost ki = pre.pairs()[i as int].0;
                let p = &mut self.entries[i];
                p.1 = v;
                proof {
                    assert(self.pairs() =~= pre.pairs().update(i as int, (k@, v)));
                    Self::lemma_get_after_update(pre, *self, i as int, v);
                }
            },
            None => {
                self.entries.push((k, v));
                proof {
                    assert(self.pairs() =~= pre.pairs().push((k@, v)));
                    Self::lemma_get_after_push(pre, *self, k@, v);
                }
            },
        }
    }

    /// Remove the entry under `k`, if any; later entries shift down.
    pub fn remove(&mut self, k: &str)
        requires
            old(self).wf(),
        ensures
            final(self).wf(),
            !final(self).contains_key(k@),
            final(self).spec_get(k@) is None,
            forall|k2: Seq<char>| k2 != k@ ==> final(self).spec_get(k2) == old(self).spec_get(k2),
            forall|k2: Seq<char>|
                final(self).contains_key(k2) == (old(self).contains_key(k2) && k2 != k@),
            final(self).pairs() == if old(self).contains_key(k@) {
                old(self).pairs().remove(old(self).index_of(k@))
            } else {
                old(self).pairs()
            },
            final(self).spec_len() == if old(self).contains_key(k@) {
                old(self).spec_len() - 1
            } else {
                old(self).spec_len() as int
            },
    {
        let ghost pre = *self;
        match self.find(k) {
            Some(i) => {
                let _ = self.entries.remove(i);
                proof {
                    assert(self.pairs() =~= pre.pairs().remove(i as int));
                    Self::lemma_get_after_remove(pre, *self, i as int);
                }
            },
            None => {},
        }
    }

    /// After an in-place update at index `i` with the key kept, lookups see
    /// the new value under that key and are otherwise unchanged.
    pub proof fn lemma_get_after_update(pre: Self, post: Self, i: int, v: V)
        requires
            pre.wf(),
            0 <= i < pre.pairs().len(),
            post.pairs() == pre.pairs().update(i, (pre.pairs()[i].0, v)),
        ensures
            post.wf(),
            post.contains_key(pre.pairs()[i].0),
            post.spec_get(pre.pairs()[i].0) == Some(v),
            forall|k2: Seq<char>|
                k2 != pre.pairs()[i].0 ==> post.spec_get(k2) == pre.spec_get(k2),
            forall|k2: Seq<char>| post.contains_key(k2) == pre.contains_key(k2),
            post.spec_len() == pre.spec_len(),
    {
        let k = pre.pairs()[i].0;
        assert forall|k2: Seq<char>| post.contains_key(k2) == pre.contains_key(k2) by {
            if pre.contains_key(k2) {
                let w = pre.index_of(k2);
                assert(post.pairs()[w].0 == k2);
            }
            if post.contains_key(k2) {
                let w = post.index_of(k2);
                assert(pre.pairs()[w].0 == k2);
            }
        }
        assert(post.wf());
        post.lemma_index_unique(k, i);
        assert forall|k2: Seq<char>|
            k2 != k implies post.spec_get(k2) == pre.spec_get(k2) by {
            if pre.contains_key(k2) {
                let w = pre.index_of(k2);
                assert(w != i);
                assert(post.pairs()[w].0 == k2);
                post.lemma_index_unique(k2, w);
            }
        }
    }

    /// After pushing a fresh key, lookups see the new pair and are otherwise
    /// unchanged.
    pub proof fn lemma_get_after_push(pre: Self, post: Self, k: Seq<char>, v: V)
        requires
            pre.wf(),
            !pre.contains_key(k),
            post.pairs() == pre.pairs().push((k, v)),
        ensures
            post.wf(),
            post.contains_key(k),
            post.spec_get(k) == Some(v),
            forall|k2: Seq<char>| k2 != k ==> post.spec_get(k2) == pre.spec_get(k2),
            forall|k2: Seq<char>| post.contains_key(k2) == (pre.contains_key(k2) || k2 == k),
            post.spec_len() == pre.spec_len() + 1,
    {
        let n = pre.pairs().len() as int;
        assert forall|i: int, j: int|
            0 <= i < j < post.pairs().len() implies post.pairs()[i].0 != post.pairs()[j].0 by {
            if j < n {
                assert(pre.pairs()[i].0 != pre.pairs()[j].0);
            } else {
                assert(post.pairs()[j].0 == k);
                if post.pairs()[i].0 == k {
                    assert(pre.pairs()[i].0 == k);
                    assert(pre.contains_key(k));
                }
            }
        }
        assert(post.pairs()[n].0 == k);
        post.lemma_index_unique(k, n);
        assert forall|k2: Seq<char>|
            k2 != k implies post.spec_get(k2) == pre.spec_get(k2) by {
            if pre.contains_key(k2) {
                let w = pre.index_of(k2);
                assert(post.pairs()[w].0 == k2);
                post.lemma_index_unique(k2, w);
            } else {
                if post.contains_key(k2) {
                    let w = post.index_of(k2);
                    assert(0 <= w < n + 1 && post.pairs()[w].0 == k2);
                    assert(w != n);
                    assert(pre.pairs()[w].0 == k2);
                }
            }
        }
        assert forall|k2: Seq<char>|
            post.contains_key(k2) == (pre.contains_key(k2) || k2 == k) by {
            if pre.contains_key(k2) {
                let w = pre.index_of(k2);
                assert(post.pairs()[w].0 == k2);
            }
            if post.contains_key(k2) && k2 != k {
                let w = post.index_of(k2);
                assert(w != n);
                assert(pre.pairs()[w].0 == k2);
            }
        }
    }

    /// After removing the entry at index `i`, its key is gone and lookups of
    /// other keys are unchanged.
    pub proof fn lemma_get_after_remove(pre: Self, post: Self, i: int)
        requires
            pre.wf(),
            0 <= i < pre.pairs().len(),
            post.pairs() == pre.pairs().remove(i),
        ensures
            post.wf(),
            !post.contains_key(pre.pairs()[i].0),
            forall|k2: Seq<char>|
                k2 != pre.pairs()[i].0 ==> post.spec_get(k2) == pre.spec_get(k2),
            forall|k2: Seq<char>|
                post.contains_key(k2) == (pre.contains_key(k2) && k2 != pre.pairs()[i].0),
            post.spec_len() == pre.spec_len() - 1,
    {
        let k = pre.pairs()[i].0;
        let n = pre.pairs().len() as int;
        assert forall|a: int, b: int|
            0 <= a < b < post.pairs().len() implies post.pairs()[a].0 != post.pairs()[b].0 by {
            let a0 = if a < i { a } else { a + 1 };
            let b0 = if b < i { b } else { b + 1 };
            assert(post.pairs()[a] == pre.pairs()[a0]);
            assert(post.pairs()[b] == pre.pairs()[b0]);
            assert(pre.pairs()[a0].0 != pre.pairs()[b0].0);
        }
        if post.contains_key(k) {
            let w = post.index_of(k);
            let w0 = if w < i { w } else { w + 1 };
            assert(post.pairs()[w] == pre.pairs()[w0]);
            assert(pre.pairs()[w0].0 == k && pre.pairs()[i].0 == k && w0 != i);
            if w0 < i {
                assert(pre.pairs()[w0].0 != pre.pairs()[i].0);
            } else {
                assert(pre.pairs()[i].0 != pre.pairs()[w0].0);
            }
        }
        assert forall|k2: Seq<char>|
            k2 != k implies post.spec_get(k2) == pre.spec_get(k2) by {
            if pre.contains_key(k2) {
                let w0 = pre.index_of(k2);
                assert(w0 != i);
                let w = if w0 < i { w0 } else { w0 - 1 };
                assert(post.pairs()[w] == pre.pairs()[w0]);
                post.lemma_index_unique(k2, w);
            } else {
                if post.contains_key(k2) {
                    let w = post.index_of(k2);
                    let w0 = if w < i { w } else { w + 1 };
                    assert(post.pairs()[w] == pre.pairs()[w0]);
                }
            }
        }
        assert forall|k2: Seq<char>|
            post.contains_key(k2) == (pre.contains_key(k2) && k2 != k) by {
            if post.contains_key(k2) {
                let w = post.index_of(k2);
                let w0 = if w < i { w } else { w + 1 };
                assert(post.pairs()[w] == pre.pairs()[w0]);
                assert(pre.contains_key(k2));
            }
            if pre.contains_key(k2) && k2 != k {
                let w0 = pre.index_of(k2);
                assert(w0 != i);
                let w = if w0 < i { w0 } else { w0 - 1 };
                assert(post.pairs()[w] == pre.pairs()[w0]);
            }
        }
    }
}

} // verus!
