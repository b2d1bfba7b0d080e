//! The cache backend, modeled: a byte-string key/value store with
//! optional per-entry TTL and an availability flag.
//!
//! The model tracks only entries reachable through the backend: an
//! unreachable backend serves none, so flipping availability off
//! drops the entries.  Reads of an unavailable backend miss; writes to
//! it are dropped.  Deletion is modeled as removing every entry whose
//! key is named, which makes invalidation idempotent by construction.

use vstd::prelude::*;

use crate::store::{first_where, keep_where, lemma_first_where, lemma_first_where_is,
    lemma_keep_where_membership, lookup_where};
use crate::strutil::str_eq;

verus! {

/// One cache entry: a key, a serialized snapshot, and the TTL it was
/// stored with (`None` for an unbounded lifetime).
pub struct CacheEntry {
    pub key: String,
    pub value: Vec<u8>,
    pub ttl_ms: Option<u64>,
}

/// Mathematical value of a [`CacheEntry`]: the TTL is configuration,
/// not content, and stays out of the model.
pub ghost struct EntryV {
    pub key: Seq<char>,
    pub value: Seq<u8>,
}

impl View for CacheEntry {
    type V = EntryV;

    open spec fn view(&self) -> EntryV {
        EntryV { key: self.key@, value: self.value@ }
    }
}

/// The cache backend.
pub struct CacheState {
    pub available: bool,
    pub ttl_ms: u64,
    pub entries: Vec<CacheEntry>,
}

/// Predicate: an entry has the given key.
pub open spec fn by_cache_key(k: Seq<char>) -> spec_fn(EntryV) -> bool {
    |e: EntryV| e.key == k
}

/// Predicate: an entry's key is not in the given set.
pub open spec fn key_not_in(ks: Set<Seq<char>>) -> spec_fn(EntryV) -> bool {
    |e: EntryV| !ks.contains(e.key)
}

/// The bytes stored under a key, if any.
pub open spec fn cache_lookup(s: Seq<EntryV>, k: Seq<char>) -> Option<Seq<u8>> {
    match lookup_where(s, by_cache_key(k)) {
        Some(e) => Some(e.value),
        None => None,
    }
}

/// Predicate on stored entries: the entry has the given key.
pub open spec fn by_stored_key(k: Seq<char>) -> spec_fn(CacheEntry) -> bool {
    |e: CacheEntry| e.key@ == k
}

/// The TTL an entry was stored with, if the key is present: `None`
/// inside means an unbounded lifetime was requested.
pub open spec fn stored_ttl(c: CacheState, k: Seq<char>) -> Option<Option<u64>> {
    match lookup_where(c.entries@, by_stored_key(k)) {
        Some(e) => Some(e.ttl_ms),
        None => None,
    }
}

/// Cache well-formedness: keys are unique, and an unavailable backend
/// serves no entries.
pub open spec fn cache_wf(c: CacheState) -> bool {
    &&& forall|i: int, j: int|
        0 <= i < j < c.entries@.len() ==> #[trigger] c.entries@[i]@.key != #[trigger] c.entries@[j]@.key
    &&& !c.available ==> c.entries@.len() == 0
}

/// The entries, viewed.
pub open spec fn entries_view(c: CacheState) -> Seq<EntryV> {
    crate::seq_view(c.entries@)
}

/// Keeping only what a predicate allows is idempotent.
pub proof fn lemma_keep_where_idempotent<T>(s: Seq<T>, p: spec_fn(T) -> bool)
    ensures
        keep_where(keep_where(s, p), p) == keep_where(s, p),
{
    lemma_keep_where_membership(s, p);
    lemma_keep_where_all(keep_where(s, p), p);
}

/// A sequence whose elements all satisfy `p` is kept whole.
pub proof fn lemma_keep_where_all<T>(s: Seq<T>, p: spec_fn(T) -> bool)
    requires
        forall|i: int| 0 <= i < s.len() ==> p(#[trigger] s[i]),
    ensures
        keep_where(s, p) == s,
    decreases s.len(),
{
    if s.len() > 0 {
        let t = s.drop_first();
        assert(forall|i: int| 0 <= i < t.len() ==> t[i] == s[i + 1]);
        lemma_keep_where_all(t, p);
        assert(keep_where(s, p) =~= seq![s[0]] + t);
        assert(seq![s[0]] + t =~= s);
    }
}

/// Looking up after filtering: matches that all survive keep their
/// first; matches that are all dropped leave nothing.
pub proof fn lemma_lookup_keep_where<T>(s: Seq<T>, p: spec_fn(T) -> bool, q: spec_fn(T) -> bool)
    ensures
        (forall|i: int| 0 <= i < s.len() && p(#[trigger] s[i]) ==> q(s[i])) ==> lookup_where(
            keep_where(s, q),
            p,
        ) == lookup_where(s, p),
        (forall|i: int| 0 <= i < s.len() && p(#[trigger] s[i]) ==> !q(s[i])) ==> lookup_where(
            keep_where(s, q),
            p,
        ) is None,
    decreases s.len(),
{
    if s.len() == 0 {
    } else {
        let t = s.drop_first();
        assert(forall|i: int| 0 <= i < t.len() ==> t[i] == s[i + 1]);
        lemma_lookup_keep_where(t, p, q);
        lemma_first_where(t, p);
        lemma_first_where(keep_where(t, q), p);
        if forall|i: int| 0 <= i < s.len() && p(#[trigger] s[i]) ==> q(s[i]) {
            if q(s[0]) {
                assert(keep_where(s, q) =~= seq![s[0]] + keep_where(t, q));
                assert(keep_where(s, q).drop_first() =~= keep_where(t, q));
                if p(s[0]) {
                    assert(lookup_where(keep_where(s, q), p) == Some(s[0]));
                } else {
                    assert(first_where(keep_where(s, q), p) == {
                        let r = first_where(keep_where(t, q), p);
                        if r < 0 { -1 } else { 1 + r }
                    });
                }
            } else {
                assert(!p(s[0]));
                assert(keep_where(s, q) == keep_where(t, q));
            }
        }
        if forall|i: int| 0 <= i < s.len() && p(#[trigger] s[i]) ==> !q(s[i]) {
            if q(s[0]) {
                assert(!p(s[0]));
                assert(keep_where(s, q) =~= seq![s[0]] + keep_where(t, q));
                assert(keep_where(s, q).drop_first() =~= keep_where(t, q));
            } else {
                assert(keep_where(s, q) == keep_where(t, q));
            }
        }
    }
}

impl CacheState {
    /// A fresh, reachable, empty cache with the given default TTL.
    pub fn new(ttl_ms: u64) -> (r: CacheState)
        ensures
            r.available,
            r.ttl_ms == ttl_ms,
            entries_view(r) =~= Seq::<EntryV>::empty(),
            cache_wf(r),
    {
        CacheState { available: true, ttl_ms, entries: Vec::new() }
    }

    /// Makes the backend reachable or unreachable.  Entries of an
    /// unreachable backend cannot be observed, so they leave the
    /// model.
    pub fn set_available(&mut self, b: bool)
        requires
            cache_wf(*old(self)),
        ensures
            final(self).available == b,
            final(self).ttl_ms == old(self).ttl_ms,
            b ==> entries_view(*final(self)) == entries_view(*old(self)),
            !b ==> entries_view(*final(self)) =~= Seq::<EntryV>::empty(),
            cache_wf(*final(self)),
    {
        if !b {
            self.entries.clear();
            proof {
                assert(entries_view(*self) =~= Seq::<EntryV>::empty());
            }
        }
        self.available = b;
    }

    /// Byte-string get.  An unavailable backend misses.
    pub fn get(&self, key: &String) -> (r: Option<Vec<u8>>)
        requires
            cache_wf(*self),
        ensures
            match r {
                Some(v) => self.available && cache_lookup(entries_view(*self), key@) == Some(v@),
                None => !self.available || cache_lookup(entries_view(*self), key@) is None,
            },
    {
        if !self.available {
            return None;
        }
        let n = self.entries.len();
        for k in 0..n
            invariant
                n == self.entries.len(),
                self.available,
                forall|j: int| 0 <= j < k ==> !by_cache_key(key@)(entries_view(*self)[j]),
        {
            proof {
                assert(entries_view(*self)[k as int] == self.entries@[k as int]@);
            }
            if str_eq(&self.entries[k].key, key) {
                let mut out: Vec<u8> = Vec::new();
                let m = self.entries[k].value.len();
                for t in 0..m
                    invariant
                        m == self.entries@[k as int].value.len(),
                        k < self.entries.len(),
                        out@ =~= self.entries@[k as int].value@.subrange(0, t as int),
                {
                    out.push(self.entries[k].value[t]);
                    proof {
                        assert(out@ =~= self.entries@[k as int].value@.subrange(0, t as int + 1));
                    }
                }
                proof {
                    assert(out@ =~= self.entries@[k as int].value@);
                    assert(entries_view(*self)[k as int] == self.entries@[k as int]@);
                    lemma_first_where_is(entries_view(*self), by_cache_key(key@), k as int);
                }
                return Some(out);
            }
        }
        proof {
            lemma_first_where(entries_view(*self), by_cache_key(key@));
        }
        None
    }

    /// Byte-string set with optional TTL.  A write to an unavailable
    /// backend is dropped.
    pub fn set(&mut self, key: String, value: Vec<u8>, ttl_ms: Option<u64>)
        requires
            cache_wf(*old(self)),
        ensures
            final(self).available == old(self).available,
            final(self).ttl_ms == old(self).ttl_ms,
            cache_wf(*final(self)),
            !old(self).available ==> entries_view(*final(self)) == entries_view(*old(self)),
            old(self).available ==> entries_view(*final(self)) =~= keep_where(
                entries_view(*old(self)),
                key_not_in(Set::empty().insert(key@)),
            ).push(EntryV { key: key@, value: value@ }),
            old(self).available ==> stored_ttl(*final(self), key@) == Some(ttl_ms),
    {
        if !self.available {
            return ;
        }
        let ghost ks = Set::<Seq<char>>::empty().insert(key@);
        self.remove_keyed(&key);
        let ghost mid = entries_view(*self);
        let ghost kv = key@;
        self.entries.push(CacheEntry { key, value, ttl_ms });
        proof {
            assert(entries_view(*self) =~= mid.push(
                EntryV {
                    key: self.entries@[self.entries@.len() - 1].key@,
                    value: self.entries@[self.entries@.len() - 1].value@,
                },
            ));
            lemma_keep_where_membership(entries_view(*old(self)), key_not_in(ks));
            assert forall|i: int, j: int|
                0 <= i < j < self.entries@.len() implies #[trigger] self.entries@[i]@.key
                != #[trigger] self.entries@[j]@.key by {
                if j == self.entries@.len() - 1 {
                    assert(mid[i] == entries_view(*self)[i]);
                    assert(!ks.contains(mid[i].key));
                }
            }
            assert forall|i: int|
                0 <= i < self.entries@.len() - 1 implies !by_stored_key(kv)(
                #[trigger] self.entries@[i],
            ) by {
                assert(mid[i] == entries_view(*self)[i]);
                assert(mid[i] == self.entries@[i]@);
                assert(!ks.contains(mid[i].key));
            }
            lemma_first_where_is(
                self.entries@,
                by_stored_key(kv),
                self.entries@.len() - 1,
            );
        }
    }

    /// Removes every entry with the given key (at most one, by
    /// well-formedness).  Helper for set and delete.
    fn remove_keyed(&mut self, key: &String)
        requires
            cache_wf(*old(self)),
            old(self).available,
        ensures
            final(self).available == old(self).available,
            final(self).ttl_ms == old(self).ttl_ms,
            cache_wf(*final(self)),
            entries_view(*final(self)) =~= keep_where(
                entries_view(*old(self)),
                key_not_in(Set::empty().insert(key@)),
            ),
    {
        let ghost p = key_not_in(Set::<Seq<char>>::empty().insert(key@));
        let ghost prior = entries_view(*self);
        let n = self.entries.len();
        let mut out: Vec<CacheEntry> = Vec::new();
        proof {
            assert(prior.skip(0) =~= prior);
            assert(crate::seq_view(out@) =~= Seq::<EntryV>::empty());
        }
        for k in 0..n
            invariant
                n == self.entries.len(),
                prior == entries_view(*self),
                keep_where(prior, p) =~= crate::seq_view(out@) + keep_where(
                    prior.skip(k as int),
                    p,
                ),
                p == key_not_in(Set::<Seq<char>>::empty().insert(key@)),
        {
            let ghost tail = prior.skip(k as int);
            proof {
                assert(prior[k as int] == self.entries@[k as int]@);
                assert(tail[0] == prior[k as int]);
                assert(tail.drop_first() =~= prior.skip(k as int + 1));
            }
            if !str_eq(&self.entries[k].key, key) {
                let e = CacheEntry {
                    key: self.entries[k].key.clone(),
                    value: clone_bytes(&self.entries[k].value),
                    ttl_ms: self.entries[k].ttl_ms,
                };
                proof {
                    assert(e@ == tail[0]);
                }
                out.push(e);
                proof {
                    assert(keep_where(tail, p) =~= seq![tail[0]] + keep_where(tail.drop_first(), p));
                    assert(crate::seq_view(out@) =~= crate::seq_view(out@.drop_last()).push(
                        tail[0],
                    ));
                }
            }
        }
        proof {
            assert(keep_where(prior.skip(n as int), p) =~= Seq::<EntryV>::empty());
        }
        self.entries = out;
        proof {
            assert(entries_view(*self) =~= keep_where(prior, p));
            lemma_keep_where_membership(prior, p);
            assert forall|i: int, j: int|
                0 <= i < j < self.entries@.len() implies #[trigger] self.entries@[i]@.key
                != #[trigger] self.entries@[j]@.key by {
                let a = entries_view(*self)[i];
                let b = entries_view(*self)[j];
                lemma_keep_where_distinct(prior, p, i, j);
            }
        }
    }

    /// Pipeline delete of a set of keys: best-effort invalidation.  A
    /// delete against an unavailable backend is dropped (there is
    /// nothing it could serve anyway).
    pub fn del_keys(&mut self, keys: &Vec<String>)
        requires
            cache_wf(*old(self)),
        ensures
            final(self).available == old(self).available,
            final(self).ttl_ms == old(self).ttl_ms,
            cache_wf(*final(self)),
            entries_view(*final(self)) =~= keep_where(
                entries_view(*old(self)),
                key_not_in(key_set(keys@)),
            ),
    {
        if !self.available {
            proof {
                assert(entries_view(*self) =~= Seq::<EntryV>::empty());
                assert(keep_where(entries_view(*old(self)), key_not_in(key_set(keys@))) =~= Seq::<
                    EntryV,
                >::empty());
            }
            return ;
        }
        let n = keys.len();
        proof {
            assert(keys@.subrange(0, 0) =~= Seq::<String>::empty());
            let p0 = key_not_in(key_set(keys@.subrange(0, 0)));
            assert forall|i: int| 0 <= i < entries_view(*self).len() implies p0(
                #[trigger] entries_view(*self)[i],
            ) by {}
            lemma_keep_where_all(entries_view(*self), p0);
        }
        for k in 0..n
            invariant
                n == keys.len(),
                self.available,
                self.ttl_ms == old(self).ttl_ms,
                cache_wf(*self),
                entries_view(*self) =~= keep_where(
                    entries_view(*old(self)),
                    key_not_in(key_set(keys@.subrange(0, k as int))),
                ),
        {
            let ghost before = entries_view(*self);
            self.remove_keyed(&keys[k]);
            proof {
                let s0 = entries_view(*old(self));
                let ka = key_set(keys@.subrange(0, k as int));
                let kb = key_set(keys@.subrange(0, k as int + 1));
                assert(keys@.subrange(0, k as int + 1).drop_last() =~= keys@.subrange(0, k as int));
                assert(kb == ka.insert(keys@[k as int]@));
                assert forall|m: int| 0 <= m < s0.len() implies #[trigger] key_not_in(kb)(s0[m])
                    == (key_not_in(ka)(s0[m]) && key_not_in(
                    Set::<Seq<char>>::empty().insert(keys@[k as int]@),
                )(s0[m])) by {}
                lemma_keep_where_compose(
                    s0,
                    key_not_in(ka),
                    key_not_in(Set::<Seq<char>>::empty().insert(keys@[k as int]@)),
                    key_not_in(kb),
                );
            }
        }
        proof {
            assert(keys@.subrange(0, n as int) =~= keys@);
        }
    }
}

/// The set of (viewed) keys in a list of key strings.
pub open spec fn key_set(keys: Seq<String>) -> Set<Seq<char>>
    decreases keys.len(),
{
    if keys.len() == 0 {
        Set::empty()
    } else {
        key_set(keys.drop_last()).insert(keys.last()@)
    }
}

/// Two entries a filter keeps at distinct positions come from
/// distinct positions of the original sequence.
proof fn lemma_keep_where_distinct<T>(s: Seq<T>, p: spec_fn(T) -> bool, i: int, j: int)
    requires
        0 <= i < j < keep_where(s, p).len(),
    ensures
        exists|a: int, b: int|
            0 <= a < b < s.len() && keep_where(s, p)[i] == s[a] && keep_where(s, p)[j] == s[b],
    decreases s.len(),
{
    let t = s.drop_first();
    assert(forall|m: int| 0 <= m < t.len() ==> t[m] == s[m + 1]);
    if p(s[0]) {
        assert(keep_where(s, p) =~= seq![s[0]] + keep_where(t, p));
        if i == 0 {
            lemma_keep_where_membership(t, p);
            let b0 = choose|b0: int| 0 <= b0 < t.len() && t[b0] == keep_where(t, p)[j - 1];
            assert(keep_where(s, p)[j] == keep_where(t, p)[j - 1]);
            assert(keep_where(s, p)[0] == s[0] && keep_where(s, p)[j] == s[b0 + 1]);
        } else {
            lemma_keep_where_distinct(t, p, i - 1, j - 1);
            let (a0, b0) = choose|a0: int, b0: int|
                0 <= a0 < b0 < t.len() && keep_where(t, p)[i - 1] == t[a0] && keep_where(t, p)[j
                    - 1] == t[b0];
            assert(keep_where(s, p)[i] == s[a0 + 1] && keep_where(s, p)[j] == s[b0 + 1]);
        }
    } else {
        assert(keep_where(s, p) == keep_where(t, p));
        lemma_keep_where_distinct(t, p, i, j);
        let (a0, b0) = choose|a0: int, b0: int|
            0 <= a0 < b0 < t.len() && keep_where(t, p)[i] == t[a0] && keep_where(t, p)[j] == t[b0];
        assert(keep_where(s, p)[i] == s[a0 + 1] && keep_where(s, p)[j] == s[b0 + 1]);
    }
}

/// Filtering by `q` after filtering by `p` is filtering by their
/// conjunction.
proof fn lemma_keep_where_compose<T>(
    s: Seq<T>,
    p: spec_fn(T) -> bool,
    q: spec_fn(T) -> bool,
    r: spec_fn(T) -> bool,
)
    requires
        forall|i: int| 0 <= i < s.len() ==> #[trigger] r(s[i]) == (p(s[i]) && q(s[i])),
    ensures
        keep_where(keep_where(s, p), q) == keep_where(s, r),
    decreases s.len(),
{
    if s.len() > 0 {
        let t = s.drop_first();
        assert(forall|m: int| 0 <= m < t.len() ==> t[m] == s[m + 1]);
        assert forall|m: int| 0 <= m < t.len() implies #[trigger] r(t[m]) == (p(t[m]) && q(t[m])) by {
            assert(r(s[m + 1]) == (p(s[m + 1]) && q(s[m + 1])));
        }
        lemma_keep_where_compose(t, p, q, r);
        if p(s[0]) {
            assert(keep_where(s, p) =~= seq![s[0]] + keep_where(t, p));
            assert(keep_where(s, p).drop_first() =~= keep_where(t, p));
            if q(s[0]) {
                assert(keep_where(keep_where(s, p), q) =~= seq![s[0]] + keep_where(
                    keep_where(t, p),
                    q,
                ));
                assert(keep_where(s, r) =~= seq![s[0]] + keep_where(t, r));
            } else {
                assert(keep_where(keep_where(s, p), q) =~= keep_where(keep_where(t, p), q));
                assert(keep_where(s, r) =~= keep_where(t, r));
            }
        } else {
            assert(keep_where(s, p) == keep_where(t, p));
            assert(keep_where(s, r) == keep_where(t, r));
        }
    }
}

/// A byte vector copy with an exact contract.
pub fn clone_bytes(v: &Vec<u8>) -> (r: Vec<u8>)
    ensures
        r@ == v@,
{
    let n = v.len();
    let mut out: Vec<u8> = Vec::new();
    for k in 0..n
        invariant
            n == v.len(),
            out@ =~= v@.subrange(0, k as int),
    {
        out.push(v[k]);
        proof {
            assert(out@ =~= v@.subrange(0, k as int + 1));
        }
    }
    proof {
        assert(out@ =~= v@);
    }
    out
}

} // verus!
