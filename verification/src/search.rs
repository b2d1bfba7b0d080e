//! The search collaborator, modeled: a per-collection document index
//! with an availability-of-indexing flag.  Synchronization is
//! best-effort and eventually consistent: the index serves the
//! documents of the last completed sync, not the live store.

use vstd::prelude::*;

use crate::strutil::{contains_seq, str_contains};
use crate::{User, UserV};

verus! {

/// The search index for the user collection.
pub struct SearchState {
    /// Whether the index exists and answers queries.
    pub index_ready: bool,
    /// Whether indexing runs complete.  When the engine cannot finish
    /// an indexing run, upserts are accepted but the index never
    /// becomes ready.
    pub accepting: bool,
    /// The documents of the last accepted upsert.
    pub docs: Vec<User>,
    /// How many indexing runs were started.
    pub sync_attempts: u64,
}

/// Whether a user document matches a free-text query: the query
/// occurs in the username or in the display name.
pub open spec fn user_matches(u: UserV, q: Seq<char>) -> bool {
    contains_seq(u.username, q) || match u.name {
        Some(n) => contains_seq(n, q),
        None => false,
    }
}

/// The hits for a query, in index order.
pub open spec fn search_hits(docs: Seq<UserV>, q: Seq<char>) -> Seq<UserV> {
    crate::store::keep_where(docs, by_match(q))
}

pub open spec fn by_match(q: Seq<char>) -> spec_fn(UserV) -> bool {
    |u: UserV| user_matches(u, q)
}

impl SearchState {
    /// A fresh index backend: nothing indexed yet.
    pub fn new(accepting: bool) -> (r: SearchState)
        ensures
            !r.index_ready,
            r.accepting == accepting,
            crate::seq_view(r.docs@) =~= Seq::<UserV>::empty(),
            r.sync_attempts == 0,
    {
        let s = SearchState { index_ready: false, accepting, docs: Vec::new(), sync_attempts: 0 };
        proof {
            assert(crate::seq_view(s.docs@) =~= Seq::<UserV>::empty());
        }
        s
    }

    /// Per-collection document upsert, keyed by entity id: replaces
    /// the indexed documents with the given collection and starts an
    /// indexing run.  The run completes — and the index becomes ready —
    /// only when the backend accepts indexing.
    pub fn add_documents(&mut self, users: &Vec<User>)
        ensures
            crate::seq_view(final(self).docs@) == crate::seq_view(users@),
            final(self).accepting == old(self).accepting,
            final(self).index_ready == (old(self).index_ready || old(self).accepting),
            old(self).sync_attempts < u64::MAX ==> final(self).sync_attempts == old(
                self,
            ).sync_attempts + 1,
    {
        let mut copy: Vec<User> = Vec::new();
        let n = users.len();
        for k in 0..n
            invariant
                n == users.len(),
                copy.len() == k,
                forall|j: int| 0 <= j < k ==> #[trigger] copy@[j]@ == crate::seq_view(users@)[j],
        {
            copy.push(users[k].duplicate());
        }
        proof {
            assert(crate::seq_view(copy@) =~= crate::seq_view(users@));
        }
        self.docs = copy;
        if self.accepting {
            self.index_ready = true;
        }
        if self.sync_attempts < u64::MAX {
            self.sync_attempts = self.sync_attempts + 1;
        }
    }

    /// Free-text query execution over the indexed documents, hits in
    /// index order.
    pub fn execute_query(&self, query: &str) -> (r: Vec<User>)
        requires
            self.index_ready,
        ensures
            crate::seq_view(r@) == search_hits(crate::seq_view(self.docs@), query@),
    {
        let ghost dv = crate::seq_view(self.docs@);
        let ghost p = by_match(query@);
        let n = self.docs.len();
        let mut out: Vec<User> = Vec::new();
        proof {
            assert(dv.skip(0) =~= dv);
            assert(crate::seq_view(out@) =~= Seq::<UserV>::empty());
        }
        for k in 0..n
            invariant
                n == self.docs.len(),
                dv == crate::seq_view(self.docs@),
                crate::store::keep_where(dv, p) =~= crate::seq_view(out@)
                    + crate::store::keep_where(dv.skip(k as int), p),
                p == by_match(query@),
        {
            let ghost tail = dv.skip(k as int);
            proof {
                assert(dv[k as int] == self.docs@[k as int]@);
                assert(tail[0] == dv[k as int]);
                assert(tail.drop_first() =~= dv.skip(k as int + 1));
            }
            let u = &self.docs[k];
            let hit = if str_contains(u.username.as_str(), query) {
                true
            } else {
                match &u.name {
                    Some(nm) => str_contains(nm.as_str(), query),
                    None => false,
                }
            };
            proof {
                assert(hit == p(tail[0]));
            }
            if hit {
                out.push(self.docs[k].duplicate());
                proof {
                    assert(crate::store::keep_where(tail, p) =~= seq![tail[0]]
                        + crate::store::keep_where(tail.drop_first(), p));
                    assert(crate::seq_view(out@) =~= crate::seq_view(out@.drop_last()).push(
                        tail[0],
                    ));
                }
            }
        }
        proof {
            assert(crate::store::keep_where(dv.skip(n as int), p) =~= Seq::<UserV>::empty());
            assert(crate::seq_view(out@) =~= crate::store::keep_where(dv, p));
        }
        out
    }
}

} // verus!
