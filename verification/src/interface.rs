//! The API surface consumed by the transport layer: query, mutation
//! and subscription namespaces over the engine, connection parameter
//! validation, and the configuration the builder takes.  Everything
//! here is thin translation of arguments to engine calls; the engine's
//! contracts carry through.

use vstd::prelude::*;

use crate::client::{account_clean, client_wf, edge_to_session, expected_by_account,
    expected_by_email, expected_by_id, session_of_edge, Client};
use crate::error::{ClientError, CoreError};
use crate::ids::{uuid_chars, Uid};
use crate::store::{by_session_token, by_session_user, by_user_id, first_where, keep_where,
    lookup_session, lookup_token, lookup_user};
use crate::{opt_view, seq_view, Session, User, VerificationToken};

verus! {

/// Where the primary store is reached and as whom.
#[derive(Debug, Clone, Copy)]
pub struct DatabaseCredentials<'a> {
    pub db_dsn: &'a str,
    pub db_user: &'a str,
    pub db_pass: &'a str,
    pub db_ns: &'a str,
    pub db: &'a str,
}

/// How the cache backend is reached and configured.
#[derive(Debug, Clone, Copy)]
pub struct RedisConfig<'a> {
    pub redis_dsn: &'a str,
    pub clustered: bool,
    pub pool_size: u16,
    pub ttl: u64,
}

/// Whether a configuration value is blank: nothing but spacing.
pub open spec fn is_blank(s: Seq<char>) -> bool {
    forall|i: int| 0 <= i < s.len() ==> #[trigger] is_spacing(s[i])
}

pub open spec fn is_spacing(c: char) -> bool {
    c == ' ' || c == '\t' || c == '\n' || c == '\r'
}

/// The fallback rule for configuration variables: a present, non-blank
/// value wins; anything else falls back to the default.
pub fn extract_variable(present: Option<String>, default: &str) -> (r: String)
    ensures
        match present {
            Some(v) => if is_blank(v@) {
                r@ == default@
            } else {
                r@ == v@
            },
            None => r@ == default@,
        },
{
    match present {
        Some(v) => {
            let n = v.as_str().unicode_len();
            let mut blank = true;
            for i in 0..n
                invariant
                    n == v@.len(),
                    blank == is_blank(v@.subrange(0, i as int)),
            {
                let c = v.as_str().get_char(i);
                let sp = c == ' ' || c == '\t' || c == '\n' || c == '\r';
                proof {
                    let pre = v@.subrange(0, i as int);
                    let post = v@.subrange(0, i as int + 1);
                    assert(post =~= pre.push(v@[i as int]));
                    assert(forall|j: int| 0 <= j < i ==> post[j] == pre[j]);
                    assert(sp == is_spacing(v@[i as int]));
                    if is_blank(pre) && sp {
                        assert forall|j: int| 0 <= j < post.len() implies is_spacing(
                            #[trigger] post[j],
                        ) by {
                            if j < i {
                                assert(post[j] == pre[j]);
                            }
                        }
                        assert(is_blank(post));
                    } else if !sp {
                        assert(!is_spacing(post[i as int]));
                        assert(!is_blank(post));
                    } else {
                        let j = choose|j: int| 0 <= j < pre.len() && !is_spacing(#[trigger] pre[j]);
                        assert(!is_spacing(post[j]));
                        assert(!is_blank(post));
                    }
                }
                if !sp {
                    blank = false;
                }
            }
            proof {
                assert(v@.subrange(0, n as int) =~= v@);
            }
            if blank {
                String::from_str(default)
            } else {
                v
            }
        },
        None => String::from_str(default),
    }
}

/// What can go wrong assembling the API over its collaborators.
#[derive(Debug, Clone, PartialEq)]
pub enum SchemaError {
    DatabaseError(ClientError),
}

/// Relay-style connection parameters to page results by cursor and
/// page size.
pub struct Params {
    pub after: Option<String>,
    pub before: Option<String>,
    pub first: Option<i32>,
    pub last: Option<i32>,
}

impl Params {
    /// Validates connection parameters: one of `first` or `last` must
    /// be given, and at most one of `after` or `before`.
    pub fn new(
        after: Option<String>,
        before: Option<String>,
        first: Option<i32>,
        last: Option<i32>,
    ) -> (r: Result<Params, String>)
        ensures
            match r {
                Ok(p) => {
                    &&& (first is Some || last is Some)
                    &&& !(after is Some && before is Some)
                    &&& crate::view_opt_string(p.after) == crate::view_opt_string(after)
                    &&& crate::view_opt_string(p.before) == crate::view_opt_string(before)
                    &&& p.first == first
                    &&& p.last == last
                },
                Err(m) => {
                    &&& (first is None && last is None) || (after is Some && before is Some)
                    &&& (first is None && last is None) ==> m@
                        == "One of 'first' or 'last' should be provided"@
                    &&& !(first is None && last is None) ==> m@
                        == "Only one or none of 'after' or 'before' should be provided"@
                },
            },
    {
        if last.is_none() && first.is_none() {
            return Err(String::from_str("One of 'first' or 'last' should be provided"));
        }
        if after.is_some() && before.is_some() {
            return Err(
                String::from_str("Only one or none of 'after' or 'before' should be provided"),
            );
        }
        Ok(Params { after, before, first, last })
    }
}

/// Cuts a result page out of a collection: the first `first` entries,
/// or the last `last`, the page size capped.
pub fn paginate(items: Vec<User>, p: &Params, cap: usize) -> (r: Vec<User>)
    ensures
        ({
            let s = seq_view(items@);
            match p.first {
                Some(f) => {
                    let n = min3(f, cap as int, s.len() as int);
                    seq_view(r@) == s.take(n)
                },
                None => match p.last {
                    Some(l) => {
                        let n = min3(l, cap as int, s.len() as int);
                        seq_view(r@) == s.skip(s.len() - n)
                    },
                    None => seq_view(r@) == s,
                },
            }
        }),
{
    let ghost s = seq_view(items@);
    let len = items.len();
    let (start, end) = match p.first {
        Some(f) => {
            let f0 = if f < 0 {
                0usize
            } else {
                f as usize
            };
            let n = if f0 < cap {
                f0
            } else {
                cap
            };
            let n = if n < len {
                n
            } else {
                len
            };
            (0usize, n)
        },
        None => {
            match p.last {
                Some(l) => {
                    let l0 = if l < 0 {
                        0usize
                    } else {
                        l as usize
                    };
                    let n = if l0 < cap {
                        l0
                    } else {
                        cap
                    };
                    let n = if n < len {
                        n
                    } else {
                        len
                    };
                    (len - n, len)
                },
                None => (0usize, len),
            }
        },
    };
    let mut out: Vec<User> = Vec::new();
    let mut k = start;
    while k < end
        invariant
            start <= k <= end <= items.len(),
            out.len() == k - start,
            forall|j: int|
                0 <= j < out.len() ==> #[trigger] out@[j]@ == seq_view(items@)[start + j],
        decreases end - k,
    {
        out.push(items[k].duplicate());
        k = k + 1;
    }
    proof {
        match p.first {
            Some(f) => {
                let n = min3(f, cap as int, s.len() as int);
                assert(seq_view(out@) =~= s.take(n));
            },
            None => {
                match p.last {
                    Some(l) => {
                        let n = min3(l, cap as int, s.len() as int);
                        assert(seq_view(out@) =~= s.skip(s.len() - n));
                    },
                    None => {
                        assert(seq_view(out@) =~= s);
                    },
                }
            },
        }
    }
    out
}

/// The page size actually served: the request, the cap and the
/// collection size, whichever is least (a negative request serves
/// nothing).
pub open spec fn min3(req: i32, cap: int, len: int) -> int {
    let a = if req < 0 {
        0
    } else {
        req as int
    };
    let b = if a < cap {
        a
    } else {
        cap
    };
    if b < len {
        b
    } else {
        len
    }
}

/// A search hit together with the owning collection's name, when one
/// applies.
pub struct SearchResult {
    pub user: User,
    pub parent_name: Option<String>,
}

/// A session joined with its user, as the relation read returns them.
pub struct SessionAndUser {
    pub session: Session,
    pub user: User,
}

/// The query namespace.
pub struct Query {
    pub users: UserQuery,
    pub sessions: SessionQuery,
    pub verification_tokens: VerificationTokenQuery,
}

/// The mutation namespace.
pub struct Mutation {
    pub users: UserMutation,
    pub accounts: AccountMutation,
    pub sessions: SessionMutation,
    pub verification_tokens: VerificationTokenMutation,
}

/// The subscription namespace.
pub struct Subscription {
    pub users: UserSubscription,
}

pub struct UserQuery {}

pub struct SessionQuery {}

pub struct VerificationTokenQuery {}

pub struct UserMutation {}

pub struct AccountMutation {}

pub struct SessionMutation {}

pub struct VerificationTokenMutation {}

pub struct UserSubscription {}

impl UserQuery {
    /// Pages through all users.
    pub fn users(
        &self,
        db: &mut Client,
        after: Option<String>,
        before: Option<String>,
        first: Option<i32>,
        last: Option<i32>,
    ) -> (r: Result<Vec<User>, CoreError>)
        requires
            client_wf(*old(db)),
        ensures
            client_wf(*final(db)),
            match r {
                Ok(us) => {
                    let s = old(db).store@.users;
                    match first {
                        Some(f) => seq_view(us@) == s.take(min3(f, 100, s.len() as int)),
                        None => match last {
                            Some(l) => seq_view(us@) == s.skip(
                                s.len() - min3(l, 100, s.len() as int),
                            ),
                            None => false,
                        },
                    }
                },
                Err(_) => first is None && last is None || (after is Some && before is Some),
            },
    {
        let p = match Params::new(after, before, first, last) {
            Ok(p) => p,
            Err(m) => {
                return Err(CoreError::Other(m));
            },
        };
        let all = match db.get_users() {
            Ok(us) => us,
            Err(e) => {
                return Err(e);
            },
        };
        let page = paginate(all, &p, 100);
        Ok(page)
    }

    /// Point lookup by identifier.
    pub fn user_by_id(&self, db: &mut Client, id: &Uid) -> (r: Result<Option<User>, CoreError>)
        requires
            client_wf(*old(db)),
        ensures
            client_wf(*final(db)),
            r is Ok && opt_view(r.unwrap()) == expected_by_id(old(db).store@, id.value),
    {
        db.get_user_by_id(id)
    }

    /// Point lookup by email.
    pub fn user_by_email(&self, db: &mut Client, email: &str) -> (r: Result<
        Option<User>,
        CoreError,
    >)
        requires
            client_wf(*old(db)),
        ensures
            client_wf(*final(db)),
            r is Ok && opt_view(r.unwrap()) == expected_by_email(old(db).store@, email@),
    {
        db.get_user_by_email(email)
    }

    /// Point lookup by linked account.
    pub fn user_by_account(
        &self,
        db: &mut Client,
        provider_account_id: &str,
        provider: &str,
    ) -> (r: Result<Option<User>, CoreError>)
        requires
            client_wf(*old(db)),
        ensures
            client_wf(*final(db)),
            match r {
                Ok(ou) => opt_view(ou) == expected_by_account(
                    old(db).store@,
                    provider@,
                    provider_account_id@,
                ),
                Err(e) => e == CoreError::Unreachable && !account_clean(
                    old(db).store@,
                    provider@,
                    provider_account_id@,
                ),
            },
    {
        db.get_user_by_account(provider, provider_account_id)
    }

    /// The session with the given token, joined with its user.
    pub fn user_and_session(&self, db: &mut Client, session_token: &str) -> (r: Result<
        Option<SessionAndUser>,
        CoreError,
    >)
        requires
            client_wf(*old(db)),
        ensures
            client_wf(*final(db)),
            ({
                let s = old(db).store@;
                match lookup_session(s.sessions, session_token@) {
                    None => r is Ok && r.unwrap() is None,
                    Some(e) => match lookup_user(s.users, e.user_id) {
                        None => r matches Err(CoreError::Unreachable),
                        Some(u) => {
                            &&& r is Ok
                            &&& r.unwrap() is Some
                            &&& r.unwrap().unwrap().user@ == u
                            &&& r.unwrap().unwrap().session@ == session_of_edge(s, e)
                        },
                    },
                }
            }),
    {
        match db.get_session_and_user(session_token) {
            Ok(Some(pair)) => Ok(Some(SessionAndUser { session: pair.1, user: pair.0 })),
            Ok(None) => Ok(None),
            Err(e) => Err(e),
        }
    }

    /// Pages through free-text search hits.
    pub fn search(
        &self,
        db: &mut Client,
        query: &str,
        after: Option<String>,
        before: Option<String>,
        first: Option<i32>,
        last: Option<i32>,
    ) -> (r: Result<Vec<SearchResult>, CoreError>)
        requires
            client_wf(*old(db)),
        ensures
            client_wf(*final(db)),
            match r {
                Ok(hits) => forall|j: int|
                    0 <= j < hits@.len() ==> (#[trigger] hits@[j]).parent_name is None,
                Err(_) => true,
            },
    {
        let p = match Params::new(after, before, first, last) {
            Ok(p) => p,
            Err(m) => {
                return Err(CoreError::Other(m));
            },
        };
        let hits = match db.search(query) {
            Ok(us) => us,
            Err(e) => {
                return Err(e);
            },
        };
        let page = paginate(hits, &p, 100);
        let mut out: Vec<SearchResult> = Vec::new();
        let n = page.len();
        for k in 0..n
            invariant
                n == page.len(),
                out.len() == k,
                forall|j: int| 0 <= j < k ==> (#[trigger] out@[j]).parent_name is None,
        {
            out.push(SearchResult { user: page[k].duplicate(), parent_name: None });
        }
        Ok(out)
    }
}

impl SessionQuery {
    /// All sessions of a user, order unspecified.
    pub fn user_sessions(&self, db: &Client, user_id: &Uid) -> (r: Result<Vec<Session>, CoreError>)
        requires
            client_wf(*db),
        ensures
            r is Ok && seq_view(r.unwrap()@) == keep_where(
                db.store@.sessions,
                by_session_user(user_id.value),
            ).map_values(edge_to_session(db.store@)),
    {
        db.get_user_sessions(user_id)
    }
}

impl VerificationTokenQuery {
    /// Point lookup of a verification token.
    pub fn verification_token(&self, db: &mut Client, token: &str, identifier: &str) -> (r: Result<
        Option<VerificationToken>,
        CoreError,
    >)
        requires
            client_wf(*old(db)),
        ensures
            client_wf(*final(db)),
            r is Ok && opt_view(r.unwrap()) == lookup_token(
                old(db).store@.tokens,
                identifier@,
                token@,
            ),
    {
        db.get_verification_token(token, identifier)
    }
}

/// What kind of change a mutation event reports.
#[derive(Debug, Clone, Copy, PartialEq, Eq, Structural)]
pub enum MutationType {
    Created,
    Updated,
    Deleted,
}

/// A user-change event for subscribers.
#[derive(Debug, Clone, Copy, PartialEq, Eq, Structural)]
pub struct UserChanged {
    pub mutation_type: MutationType,
    pub id: Uid,
}

impl UserChanged {
    /// The kind of change.
    pub fn mutation_type(&self) -> (r: MutationType)
        ensures
            r == self.mutation_type,
    {
        self.mutation_type
    }

    /// The changed entity's identifier, rendered.
    pub fn id(&self) -> (r: String)
        ensures
            r@ == uuid_chars(self.id.value),
    {
        self.id.render()
    }

    /// The changed entity, fetched fresh.
    pub fn user(&self, db: &mut Client) -> (r: Result<Option<User>, CoreError>)
        requires
            client_wf(*old(db)),
        ensures
            client_wf(*final(db)),
            r is Ok && opt_view(r.unwrap()) == expected_by_id(old(db).store@, self.id.value),
    {
        db.get_user_by_id(&self.id)
    }
}

impl UserSubscription {
    /// The events a subscriber with the given filter sees, in arrival
    /// order: all of them, or only those of the chosen kind.
    pub fn users(&self, mutation_type: Option<MutationType>, events: &Vec<UserChanged>) -> (r: Vec<
        UserChanged,
    >)
        ensures
            match mutation_type {
                None => r@ == events@,
                Some(t) => r@ == events@.filter(|e: UserChanged| e.mutation_type == t),
            },
    {
        match mutation_type {
            None => {
                let mut out: Vec<UserChanged> = Vec::new();
                let n = events.len();
                for k in 0..n
                    invariant
                        n == events.len(),
                        out@ =~= events@.subrange(0, k as int),
                {
                    out.push(events[k]);
                    proof {
                        assert(out@ =~= events@.subrange(0, k as int + 1));
                    }
                }
                proof {
                    assert(out@ =~= events@);
                }
                out
            },
            Some(t) => {
                let mut out: Vec<UserChanged> = Vec::new();
                let n = events.len();
                proof {
                    reveal(Seq::filter);
                    assert(events@.subrange(0, 0).filter(|e: UserChanged| e.mutation_type == t)
                        =~= out@);
                }
                for k in 0..n
                    invariant
                        n == events.len(),
                        out@ =~= events@.subrange(0, k as int).filter(
                            |e: UserChanged| e.mutation_type == t,
                        ),
                {
                    let ghost pre = events@.subrange(0, k as int);
                    proof {
                        assert(events@.subrange(0, k as int + 1) =~= pre.push(events@[k as int]));
                        reveal(Seq::filter);
                        assert(pre.push(events@[k as int]).drop_last() =~= pre);
                    }
                    if events[k].mutation_type == t {
                        out.push(events[k]);
                    }
                }
                proof {
                    assert(events@.subrange(0, n as int) =~= events@);
                }
                out
            },
        }
    }
}

impl UserMutation {
    /// Creates a user and reports the change.
    pub fn create_user(&self, db: &mut Client, input: &User) -> (r: Result<
        (User, UserChanged),
        CoreError,
    >)
        requires
            client_wf(*old(db)),
        ensures
            client_wf(*final(db)),
            match r {
                Ok(p) => {
                    &&& p.1.mutation_type == MutationType::Created
                    &&& p.1.id == p.0.id
                    &&& (p.0@.id >> 76) & 0xf == 7
                    &&& expected_by_id(old(db).store@, p.0@.id) is None
                    &&& final(db).store@.users =~= old(db).store@.users.push(p.0@)
                    &&& final(db).store@.providers == old(db).store@.providers
                    &&& final(db).store@.links == old(db).store@.links
                    &&& final(db).store@.sessions == old(db).store@.sessions
                    &&& final(db).store@.tokens == old(db).store@.tokens
                    &&& exists|now: int| p.0@ == #[trigger] crate::client::created_user_v(
                        input@,
                        p.0@.id,
                        now,
                    )
                },
                Err(_) => final(db).store == old(db).store,
            },
    {
        match db.create_user(input) {
            Ok(u) => {
                let ev = UserChanged { mutation_type: MutationType::Created, id: u.id };
                Ok((u, ev))
            },
            Err(e) => Err(e),
        }
    }

    /// Updates a user and reports the change.
    pub fn update_user(&self, db: &mut Client, id: &Uid, input: &User) -> (r: Result<
        (Option<User>, UserChanged),
        CoreError,
    >)
        requires
            client_wf(*old(db)),
        ensures
            client_wf(*final(db)),
            match r {
                Ok(p) => {
                    let s = old(db).store@;
                    let i = first_where(s.users, by_user_id(id.value));
                    &&& p.1.mutation_type == MutationType::Updated
                    &&& p.1.id == *id
                    &&& if i < 0 {
                        p.0 is None && final(db).store == old(db).store
                    } else {
                        exists|now: int|
                            {
                                let m = #[trigger] crate::store::merged_user(
                                    s.users[i],
                                    input@,
                                    now,
                                );
                                &&& opt_view(p.0) == Some(m)
                                &&& final(db).store@.users =~= s.users.update(i, m)
                                &&& final(db).store@.providers == s.providers
                                &&& final(db).store@.links == s.links
                                &&& final(db).store@.sessions == s.sessions
                                &&& final(db).store@.tokens == s.tokens
                            }
                    }
                },
                Err(_) => false,
            },
    {
        match db.update_user(id, input) {
            Ok(u) => Ok((u, UserChanged { mutation_type: MutationType::Updated, id: *id })),
            Err(e) => Err(e),
        }
    }

    /// Deletes a user and reports the change.
    pub fn delete_user(&self, db: &mut Client, id: &Uid) -> (r: Result<
        (Option<User>, UserChanged),
        CoreError,
    >)
        requires
            client_wf(*old(db)),
        ensures
            client_wf(*final(db)),
            match r {
                Ok(p) => {
                    let s = old(db).store@;
                    let i = first_where(s.users, by_user_id(id.value));
                    &&& p.1.mutation_type == MutationType::Deleted
                    &&& p.1.id == *id
                    &&& if i < 0 {
                        p.0 is None && final(db).store == old(db).store
                    } else {
                        &&& opt_view(p.0) == Some(s.users[i])
                        &&& final(db).store@.users =~= s.users.remove(i)
                        &&& final(db).store@.providers == s.providers
                        &&& final(db).store@.links == s.links
                        &&& final(db).store@.sessions == s.sessions
                        &&& final(db).store@.tokens == s.tokens
                    }
                },
                Err(_) => false,
            },
    {
        match db.delete_user(id) {
            Ok(u) => Ok((u, UserChanged { mutation_type: MutationType::Deleted, id: *id })),
            Err(e) => Err(e),
        }
    }
}

/// A linked account, echoed back to the caller.
pub struct Account {
    pub user_id: Uid,
    pub provider: String,
    pub account_id: String,
}

impl AccountMutation {
    /// Links an account and echoes the linkage.
    pub fn create_account(
        &self,
        db: &mut Client,
        provider_name: &str,
        provider_account_id: &str,
        user_id: &Uid,
    ) -> (r: Result<Account, CoreError>)
        requires
            client_wf(*old(db)),
        ensures
            client_wf(*final(db)),
            final(db).store@.users == old(db).store@.users,
            final(db).store@.sessions == old(db).store@.sessions,
            final(db).store@.tokens == old(db).store@.tokens,
            match r {
                Ok(a) => {
                    let s = old(db).store@;
                    &&& a.user_id == *user_id
                    &&& a.provider@ == provider_name@
                    &&& a.account_id@ == provider_account_id@
                    &&& match crate::store::lookup_provider_by_name(s.providers, provider_name@) {
                        Some(pr) => if crate::store::lookup_link(
                            s.links,
                            pr.id,
                            provider_account_id@,
                        ) is Some {
                            final(db).store == old(db).store
                        } else {
                            final(db).store@.providers == s.providers
                                && final(db).store@.links =~= s.links.push(
                                crate::store::LinkV {
                                    provider_id: pr.id,
                                    user_id: user_id.value,
                                    provider_account_id: provider_account_id@,
                                },
                            )
                        },
                        None => exists|fresh: u128|
                            {
                                &&& final(db).store@.providers =~= s.providers.push(
                                    #[trigger] crate::client::provider_v(fresh, provider_name@),
                                )
                                &&& final(db).store@.links =~= s.links.push(
                                    crate::store::LinkV {
                                        provider_id: fresh,
                                        user_id: user_id.value,
                                        provider_account_id: provider_account_id@,
                                    },
                                )
                            },
                    }
                },
                Err(_) => final(db).store == old(db).store,
            },
    {
        match db.link_account(provider_name, provider_account_id, user_id) {
            Ok(()) => Ok(
                Account {
                    user_id: *user_id,
                    provider: String::from_str(provider_name),
                    account_id: String::from_str(provider_account_id),
                },
            ),
            Err(e) => Err(e),
        }
    }

    /// Unlinks an account.
    pub fn delete_account(&self, db: &mut Client, provider_account_id: &str, provider: &str) -> (r:
        Result<(), CoreError>)
        requires
            client_wf(*old(db)),
        ensures
            client_wf(*final(db)),
            r is Ok,
            final(db).store@.users == old(db).store@.users,
            final(db).store@.providers == old(db).store@.providers,
            final(db).store@.sessions == old(db).store@.sessions,
            final(db).store@.tokens == old(db).store@.tokens,
            ({
                let s = old(db).store@;
                match crate::store::lookup_provider_by_name(s.providers, provider@) {
                    None => final(db).store == old(db).store,
                    Some(pr) => {
                        let i = first_where(
                            s.links,
                            crate::store::by_link_pair(pr.id, provider_account_id@),
                        );
                        if i < 0 {
                            final(db).store@.links == s.links
                        } else {
                            final(db).store@.links =~= s.links.remove(i)
                        }
                    },
                }
            }),
    {
        db.unlink_account(provider, provider_account_id)
    }
}

impl SessionMutation {
    /// Creates a session.
    pub fn create_session(&self, db: &mut Client, input: &Session) -> (r: Result<(), CoreError>)
        requires
            client_wf(*old(db)),
        ensures
            client_wf(*final(db)),
            r is Ok,
            final(db).store@.users == old(db).store@.users,
            final(db).store@.providers == old(db).store@.providers,
            final(db).store@.links == old(db).store@.links,
            final(db).store@.tokens == old(db).store@.tokens,
            ({
                let s = old(db).store@;
                match crate::store::lookup_provider_by_name(
                    s.providers,
                    input@.account_provider.name,
                ) {
                    None => final(db).store@.sessions == s.sessions,
                    Some(pr) => final(db).store@.sessions =~= s.sessions.push(
                        crate::store::SessionEdgeV {
                            user_id: input@.user_id,
                            provider_id: pr.id,
                            session_token: input@.session_token,
                            expires_at: input@.expires_at,
                        },
                    ),
                }
            }),
    {
        db.create_session(input)
    }

    /// Updates a session's expiry.
    pub fn update_session(&self, db: &mut Client, id: &str, expires_at: i64) -> (r: Result<
        Option<Session>,
        CoreError,
    >)
        requires
            client_wf(*old(db)),
        ensures
            client_wf(*final(db)),
            final(db).store@.users == old(db).store@.users,
            final(db).store@.providers == old(db).store@.providers,
            final(db).store@.links == old(db).store@.links,
            final(db).store@.tokens == old(db).store@.tokens,
            ({
                let s = old(db).store@;
                let i = first_where(s.sessions, by_session_token(id@));
                if i < 0 {
                    &&& r is Ok
                    &&& r.unwrap() is None
                    &&& final(db).store == old(db).store
                } else {
                    let m = crate::store::SessionEdgeV {
                        expires_at: expires_at as int,
                        ..s.sessions[i]
                    };
                    &&& r is Ok
                    &&& opt_view(r.unwrap()) == Some(
                        crate::client::session_of_edge(final(db).store@, m),
                    )
                    &&& final(db).store@.sessions =~= s.sessions.update(i, m)
                }
            }),
    {
        db.update_session(id, expires_at)
    }

    /// Deletes a session by token.
    pub fn delete_session(&self, db: &mut Client, id: &str) -> (r: Result<(), CoreError>)
        requires
            client_wf(*old(db)),
        ensures
            client_wf(*final(db)),
            r is Ok,
            final(db).store@.users == old(db).store@.users,
            final(db).store@.providers == old(db).store@.providers,
            final(db).store@.links == old(db).store@.links,
            final(db).store@.tokens == old(db).store@.tokens,
            final(db).store@.sessions =~= keep_where(
                old(db).store@.sessions,
                crate::store::session_token_ne(id@),
            ),
    {
        db.delete_session(id)
    }

    /// Deletes expired sessions.
    pub fn delete_expired_sessions(&self, db: &mut Client) -> (r: Result<(), CoreError>)
        requires
            client_wf(*old(db)),
        ensures
            client_wf(*final(db)),
            r is Ok,
            final(db).store@.users == old(db).store@.users,
            final(db).store@.providers == old(db).store@.providers,
            final(db).store@.links == old(db).store@.links,
            final(db).store@.tokens == old(db).store@.tokens,
            exists|now: int|
                final(db).store@.sessions =~= keep_where(
                    old(db).store@.sessions,
                    #[trigger] crate::store::session_alive_after(now),
                ),
    {
        db.delete_expired_sessions()
    }

    /// Deletes all of a user's sessions.
    pub fn delete_user_session(&self, db: &mut Client, user_id: &Uid) -> (r: Result<(), CoreError>)
        requires
            client_wf(*old(db)),
        ensures
            client_wf(*final(db)),
            r is Ok,
            final(db).store@.users == old(db).store@.users,
            final(db).store@.providers == old(db).store@.providers,
            final(db).store@.links == old(db).store@.links,
            final(db).store@.tokens == old(db).store@.tokens,
            final(db).store@.sessions =~= keep_where(
                old(db).store@.sessions,
                crate::store::session_user_ne(user_id.value),
            ),
    {
        db.delete_user_sessions(user_id)
    }
}

impl VerificationTokenMutation {
    /// Creates a verification token.
    pub fn create_verification_token(&self, db: &mut Client, input: &VerificationToken) -> (r:
        Result<VerificationToken, CoreError>)
        requires
            client_wf(*old(db)),
        ensures
            client_wf(*final(db)),
            match r {
                Ok(t) => {
                    &&& t@.identifier == input@.identifier
                    &&& t@.token == input@.token
                    &&& t@.expires_at == input@.expires_at
                    &&& (t@.id >> 76) & 0xf == 7
                    &&& final(db).store@.tokens =~= old(db).store@.tokens.push(t@)
                    &&& final(db).store@.users == old(db).store@.users
                    &&& final(db).store@.providers == old(db).store@.providers
                    &&& final(db).store@.links == old(db).store@.links
                    &&& final(db).store@.sessions == old(db).store@.sessions
                },
                Err(_) => final(db).store == old(db).store,
            },
    {
        db.create_verification_token(input)
    }

    /// Consumes a verification token: finds and returns it, leaving
    /// deletion to the caller; a missing token is an ordinary `None`.
    pub fn delete_verification_token(&self, db: &mut Client, token: &str, identifier: &str) -> (r:
        Result<Option<VerificationToken>, CoreError>)
        requires
            client_wf(*old(db)),
        ensures
            client_wf(*final(db)),
            r is Ok,
            opt_view(r.unwrap()) == lookup_token(old(db).store@.tokens, identifier@, token@),
    {
        db.use_verification_token(identifier, token)
    }
}

} // verus!
