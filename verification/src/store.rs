//! The primary store, modeled: collections of user nodes, account
//! provider nodes, link edges and session edges, and verification
//! tokens.  The store is authoritative; every lookup and mutation is
//! specified by first-match recursion over the collections.

use vstd::prelude::*;

use crate::ids::Uid;
use crate::strutil::str_eq;
use crate::{AccountProvider, ProviderV, User, UserV, VerificationToken, TokenV};

verus! {

/// A link edge: connects a user node to an account provider node and
/// carries the provider-side account identifier.
#[derive(Debug, Clone, PartialEq)]
pub struct LinkEdge {
    pub provider_id: Uid,
    pub user_id: Uid,
    pub provider_account_id: String,
}

/// Mathematical value of a [`LinkEdge`].
pub ghost struct LinkV {
    pub provider_id: u128,
    pub user_id: u128,
    pub provider_account_id: Seq<char>,
}

impl View for LinkEdge {
    type V = LinkV;

    open spec fn view(&self) -> LinkV {
        LinkV {
            provider_id: self.provider_id.value,
            user_id: self.user_id.value,
            provider_account_id: self.provider_account_id@,
        }
    }
}

/// A session edge: connects a user node to an account provider node
/// and carries the session token and expiry.
#[derive(Debug, Clone, PartialEq)]
pub struct SessionEdge {
    pub user_id: Uid,
    pub provider_id: Uid,
    pub session_token: String,
    pub expires_at: i64,
}

/// Mathematical value of a [`SessionEdge`].
pub ghost struct SessionEdgeV {
    pub user_id: u128,
    pub provider_id: u128,
    pub session_token: Seq<char>,
    pub expires_at: int,
}

impl View for SessionEdge {
    type V = SessionEdgeV;

    open spec fn view(&self) -> SessionEdgeV {
        SessionEdgeV {
            user_id: self.user_id.value,
            provider_id: self.provider_id.value,
            session_token: self.session_token@,
            expires_at: self.expires_at as int,
        }
    }
}

/// The primary store's collections.
pub struct Store {
    pub users: Vec<User>,
    pub providers: Vec<AccountProvider>,
    pub links: Vec<LinkEdge>,
    pub sessions: Vec<SessionEdge>,
    pub tokens: Vec<VerificationToken>,
}

/// Mathematical value of a [`Store`].
pub ghost struct StoreV {
    pub users: Seq<UserV>,
    pub providers: Seq<ProviderV>,
    pub links: Seq<LinkV>,
    pub sessions: Seq<SessionEdgeV>,
    pub tokens: Seq<TokenV>,
}

impl View for Store {
    type V = StoreV;

    open spec fn view(&self) -> StoreV {
        StoreV {
            users: crate::seq_view(self.users@),
            providers: crate::seq_view(self.providers@),
            links: crate::seq_view(self.links@),
            sessions: crate::seq_view(self.sessions@),
            tokens: crate::seq_view(self.tokens@),
        }
    }
}

// ---------------------------------------------------------------------
// First-match machinery.

/// Index of the first element of `s` that satisfies `p`, or -1.
pub open spec fn first_where<T>(s: Seq<T>, p: spec_fn(T) -> bool) -> int
    decreases s.len(),
{
    if s.len() == 0 {
        -1
    } else if p(s[0]) {
        0
    } else {
        let t = first_where(s.drop_first(), p);
        if t < 0 {
            -1
        } else {
            1 + t
        }
    }
}

/// The first element of `s` that satisfies `p`, if any.
pub open spec fn lookup_where<T>(s: Seq<T>, p: spec_fn(T) -> bool) -> Option<T> {
    let i = first_where(s, p);
    if i >= 0 {
        Some(s[i])
    } else {
        None
    }
}

/// What `first_where` returns: the least matching index, or -1 when
/// nothing matches.
pub proof fn lemma_first_where<T>(s: Seq<T>, p: spec_fn(T) -> bool)
    ensures
        ({
            let i = first_where(s, p);
            &&& -1 <= i < s.len()
            &&& i >= 0 ==> p(s[i]) && (forall|j: int| 0 <= j < i ==> !p(s[j]))
            &&& i < 0 ==> (forall|j: int| 0 <= j < s.len() ==> !p(s[j]))
        }),
    decreases s.len(),
{
    if s.len() > 0 && !p(s[0]) {
        let t = s.drop_first();
        lemma_first_where(t, p);
        assert(forall|j: int| 0 <= j < s.len() - 1 ==> t[j] == s[j + 1]);
        let i = first_where(s, p);
        let k = first_where(t, p);
        if k >= 0 {
            assert(i == k + 1);
            assert(p(s[i]));
            assert forall|j: int| 0 <= j < i implies !p(s[j]) by {
                if j > 0 {
                    assert(s[j] == t[j - 1]);
                }
            }
        } else {
            assert forall|j: int| 0 <= j < s.len() implies !p(s[j]) by {
                if j > 0 {
                    assert(s[j] == t[j - 1]);
                }
            }
        }
    }
}

/// Converse characterization: a least matching index is what
/// `first_where` returns.
pub proof fn lemma_first_where_is<T>(s: Seq<T>, p: spec_fn(T) -> bool, i: int)
    requires
        0 <= i < s.len(),
        p(s[i]),
        forall|j: int| 0 <= j < i ==> !p(s[j]),
    ensures
        first_where(s, p) == i,
    decreases s.len(),
{
    if i > 0 {
        assert(!p(s[0]));
        assert forall|j: int| 0 <= j < s.len() - 1 implies s.drop_first()[j] == s[j + 1] by {}
        lemma_first_where_is(s.drop_first(), p, i - 1);
    }
}

/// Two sequences whose elements satisfy their predicates at the same
/// positions have the same first-match index.
pub proof fn lemma_first_where_pointwise<T, U>(
    s: Seq<T>,
    p: spec_fn(T) -> bool,
    t: Seq<U>,
    q: spec_fn(U) -> bool,
)
    requires
        s.len() == t.len(),
        forall|j: int| 0 <= j < s.len() ==> p(s[j]) == q(t[j]),
    ensures
        first_where(s, p) == first_where(t, q),
{
    lemma_first_where(s, p);
    lemma_first_where(t, q);
    let i = first_where(s, p);
    let k = first_where(t, q);
    if i >= 0 && (k < 0 || k > i) {
        assert(q(t[i]));
        assert(false);
    }
    if k >= 0 && (i < 0 || i > k) {
        assert(p(s[k]));
        assert(false);
    }
}

/// Appending a non-matching element changes no lookup; appending a
/// matching one only fills in a previously empty lookup.
pub proof fn lemma_lookup_where_push<T>(s: Seq<T>, p: spec_fn(T) -> bool, v: T)
    ensures
        lookup_where(s.push(v), p) == if lookup_where(s, p) is Some {
            lookup_where(s, p)
        } else if p(v) {
            Some(v)
        } else {
            None
        },
    decreases s.len(),
{
    lemma_first_where(s, p);
    let i = first_where(s, p);
    if i >= 0 {
        lemma_first_where_is(s.push(v), p, i);
    } else if p(v) {
        lemma_first_where_is(s.push(v), p, s.len() as int);
    } else {
        lemma_first_where(s.push(v), p);
        let k = first_where(s.push(v), p);
        if k >= 0 {
            assert(false);
        }
    }
}

/// Removing a non-matching element changes no lookup.
pub proof fn lemma_lookup_where_remove<T>(s: Seq<T>, p: spec_fn(T) -> bool, i: int)
    requires
        0 <= i < s.len(),
        !p(s[i]),
    ensures
        lookup_where(s.remove(i), p) == lookup_where(s, p),
{
    let t = s.remove(i);
    lemma_first_where(s, p);
    lemma_first_where(t, p);
    let k = first_where(s, p);
    let m = first_where(t, p);
    if k >= 0 {
        if k < i {
            lemma_first_where_is(t, p, k);
        } else {
            assert(k != i);
            assert(t[k - 1] == s[k]);
            assert forall|j: int| 0 <= j < k - 1 implies !p(t[j]) by {
                if j < i {
                    assert(t[j] == s[j]);
                } else {
                    assert(t[j] == s[j + 1]);
                }
            }
            lemma_first_where_is(t, p, k - 1);
        }
    } else {
        if m >= 0 {
            if m < i {
                assert(t[m] == s[m]);
            } else {
                assert(t[m] == s[m + 1]);
            }
            assert(false);
        }
    }
}

/// The subsequence of elements satisfying `p`, in order.
pub open spec fn keep_where<T>(s: Seq<T>, p: spec_fn(T) -> bool) -> Seq<T>
    decreases s.len(),
{
    if s.len() == 0 {
        Seq::empty()
    } else if p(s[0]) {
        seq![s[0]] + keep_where(s.drop_first(), p)
    } else {
        keep_where(s.drop_first(), p)
    }
}

/// Every element kept satisfies `p` and comes from `s`.
pub proof fn lemma_keep_where_membership<T>(s: Seq<T>, p: spec_fn(T) -> bool)
    ensures
        forall|k: int|
            0 <= k < keep_where(s, p).len() ==> p(#[trigger] keep_where(s, p)[k]) && s.contains(
                keep_where(s, p)[k],
            ),
    decreases s.len(),
{
    if s.len() > 0 {
        let t = s.drop_first();
        lemma_keep_where_membership(t, p);
        assert forall|k: int|
            0 <= k < keep_where(s, p).len() implies p(#[trigger] keep_where(s, p)[k])
            && s.contains(keep_where(s, p)[k]) by {
            if p(s[0]) {
                if k == 0 {
                    assert(keep_where(s, p)[0] == s[0]);
                    assert(s.contains(s[0]));
                } else {
                    assert(keep_where(s, p)[k] == keep_where(t, p)[k - 1]);
                    let j = choose|j: int| 0 <= j < t.len() && t[j] == keep_where(t, p)[k - 1];
                    assert(s[j + 1] == t[j]);
                }
            } else {
                let j = choose|j: int| 0 <= j < t.len() && t[j] == keep_where(t, p)[k];
                assert(s[j + 1] == t[j]);
            }
        }
    }
}

// ---------------------------------------------------------------------
// Lookup predicates.

pub open spec fn by_user_id(id: u128) -> spec_fn(UserV) -> bool {
    |u: UserV| u.id == id
}

pub open spec fn by_user_email(email: Seq<char>) -> spec_fn(UserV) -> bool {
    |u: UserV| u.email == Some(email)
}

pub open spec fn by_provider_name(name: Seq<char>) -> spec_fn(ProviderV) -> bool {
    |p: ProviderV| p.name == name
}

pub open spec fn by_provider_id(id: u128) -> spec_fn(ProviderV) -> bool {
    |p: ProviderV| p.id == id
}

pub open spec fn by_link_pair(provider_id: u128, account_id: Seq<char>) -> spec_fn(LinkV) -> bool {
    |l: LinkV| l.provider_id == provider_id && l.provider_account_id == account_id
}

pub open spec fn by_session_token(token: Seq<char>) -> spec_fn(SessionEdgeV) -> bool {
    |s: SessionEdgeV| s.session_token == token
}

pub open spec fn by_session_user(user_id: u128) -> spec_fn(SessionEdgeV) -> bool {
    |s: SessionEdgeV| s.user_id == user_id
}

pub open spec fn by_token_pair(identifier: Seq<char>, token: Seq<char>) -> spec_fn(TokenV) -> bool {
    |t: TokenV| t.identifier == identifier && t.token == token
}

pub open spec fn by_token_id(id: u128) -> spec_fn(TokenV) -> bool {
    |t: TokenV| t.id == id
}

pub open spec fn by_link_user(user_id: u128) -> spec_fn(LinkV) -> bool {
    |l: LinkV| l.user_id == user_id
}

pub open spec fn session_token_ne(token: Seq<char>) -> spec_fn(SessionEdgeV) -> bool {
    |s: SessionEdgeV| s.session_token != token
}

pub open spec fn session_user_ne(user_id: u128) -> spec_fn(SessionEdgeV) -> bool {
    |s: SessionEdgeV| s.user_id != user_id
}

pub open spec fn session_alive_after(now: int) -> spec_fn(SessionEdgeV) -> bool {
    |s: SessionEdgeV| s.expires_at > now
}

// ---------------------------------------------------------------------
// First-match lookups.

/// First user with the given identifier.
pub open spec fn lookup_user(users: Seq<UserV>, id: u128) -> Option<UserV> {
    lookup_where(users, by_user_id(id))
}

/// First user with the given email.
pub open spec fn lookup_user_by_email(users: Seq<UserV>, email: Seq<char>) -> Option<UserV> {
    lookup_where(users, by_user_email(email))
}

/// First provider with the given name.
pub open spec fn lookup_provider_by_name(providers: Seq<ProviderV>, name: Seq<char>) -> Option<
    ProviderV,
> {
    lookup_where(providers, by_provider_name(name))
}

/// First provider with the given identifier.
pub open spec fn lookup_provider_by_id(providers: Seq<ProviderV>, id: u128) -> Option<ProviderV> {
    lookup_where(providers, by_provider_id(id))
}

/// First link for a (provider id, provider account id) pair.
pub open spec fn lookup_link(links: Seq<LinkV>, provider_id: u128, account_id: Seq<char>) -> Option<
    LinkV,
> {
    lookup_where(links, by_link_pair(provider_id, account_id))
}

/// First session with the given token.
pub open spec fn lookup_session(sessions: Seq<SessionEdgeV>, token: Seq<char>) -> Option<
    SessionEdgeV,
> {
    lookup_where(sessions, by_session_token(token))
}

/// First verification token for a (identifier, token) pair.
pub open spec fn lookup_token(
    tokens: Seq<TokenV>,
    identifier: Seq<char>,
    token: Seq<char>,
) -> Option<TokenV> {
    lookup_where(tokens, by_token_pair(identifier, token))
}

/// First verification token with the given identifier value.
pub open spec fn lookup_token_by_id(tokens: Seq<TokenV>, id: u128) -> Option<TokenV> {
    lookup_where(tokens, by_token_id(id))
}

// ---------------------------------------------------------------------
// Well-formedness.

pub open spec fn unique_user_ids(users: Seq<UserV>) -> bool {
    forall|i: int, j: int| 0 <= i < j < users.len() ==> #[trigger] users[i].id != #[trigger] users[j].id
}

pub open spec fn unique_token_ids(tokens: Seq<TokenV>) -> bool {
    forall|i: int, j: int|
        0 <= i < j < tokens.len() ==> #[trigger] tokens[i].id != #[trigger] tokens[j].id
}

pub open spec fn unique_provider_ids(providers: Seq<ProviderV>) -> bool {
    forall|i: int, j: int|
        0 <= i < j < providers.len() ==> #[trigger] providers[i].id != #[trigger] providers[j].id
}

pub open spec fn unique_provider_names(providers: Seq<ProviderV>) -> bool {
    forall|i: int, j: int|
        0 <= i < j < providers.len() ==> #[trigger] providers[i].name != #[trigger] providers[j].name
}

/// Every link's provider endpoint exists (providers are never
/// deleted), and at most one link stands per (provider, account) pair.
pub open spec fn links_wf(links: Seq<LinkV>, providers: Seq<ProviderV>) -> bool {
    &&& forall|i: int|
        0 <= i < links.len() ==> #[trigger] lookup_provider_by_id(providers, links[i].provider_id)
            is Some
    &&& forall|i: int, j: int|
        0 <= i < j < links.len() ==> !(#[trigger] links[i].provider_id
            == #[trigger] links[j].provider_id && links[i].provider_account_id
            == links[j].provider_account_id)
}

/// Every session's provider endpoint exists.
pub open spec fn sessions_wf(sessions: Seq<SessionEdgeV>, providers: Seq<ProviderV>) -> bool {
    forall|i: int|
        0 <= i < sessions.len() ==> #[trigger] lookup_provider_by_id(
            providers,
            sessions[i].provider_id,
        ) is Some
}

/// The store's invariant.
pub open spec fn store_wf(s: StoreV) -> bool {
    &&& unique_user_ids(s.users)
    &&& unique_provider_ids(s.providers)
    &&& unique_provider_names(s.providers)
    &&& links_wf(s.links, s.providers)
    &&& sessions_wf(s.sessions, s.providers)
    &&& unique_token_ids(s.tokens)
}

impl LinkEdge {
    /// Clone with a contract: the copy has the same mathematical value.
    pub fn duplicate(&self) -> (r: LinkEdge)
        ensures
            r@ == self@,
    {
        LinkEdge {
            provider_id: self.provider_id,
            user_id: self.user_id,
            provider_account_id: self.provider_account_id.clone(),
        }
    }
}

impl SessionEdge {
    /// Clone with a contract: the copy has the same mathematical value.
    pub fn duplicate(&self) -> (r: SessionEdge)
        ensures
            r@ == self@,
    {
        SessionEdge {
            user_id: self.user_id,
            provider_id: self.provider_id,
            session_token: self.session_token.clone(),
            expires_at: self.expires_at,
        }
    }
}

/// The merge an update applies to a stored user: replaceable fields
/// come from the input, the identifier, phone number and creation time
/// are kept, and the update time is stamped.
pub open spec fn merged_user(orig: UserV, data: UserV, now: int) -> UserV {
    UserV {
        id: orig.id,
        username: data.username,
        email: data.email,
        name: data.name,
        avatar: data.avatar,
        user_type: data.user_type,
        phone_number: orig.phone_number,
        created: orig.created,
        updated: now,
    }
}

impl Store {
    /// An empty store.
    pub fn new() -> (r: Store)
        ensures
            r@.users =~= Seq::<UserV>::empty(),
            r@.providers =~= Seq::<ProviderV>::empty(),
            r@.links =~= Seq::<LinkV>::empty(),
            r@.sessions =~= Seq::<SessionEdgeV>::empty(),
            r@.tokens =~= Seq::<TokenV>::empty(),
            store_wf(r@),
    {
        let s = Store {
            users: Vec::new(),
            providers: Vec::new(),
            links: Vec::new(),
            sessions: Vec::new(),
            tokens: Vec::new(),
        };
        proof {
            assert(s@.users =~= Seq::<UserV>::empty());
            assert(s@.providers =~= Seq::<ProviderV>::empty());
            assert(s@.links =~= Seq::<LinkV>::empty());
            assert(s@.sessions =~= Seq::<SessionEdgeV>::empty());
            assert(s@.tokens =~= Seq::<TokenV>::empty());
        }
        s
    }
}

impl Store {
    /// Index of the first user with the given identifier.
    fn user_index(&self, id: &Uid) -> (r: Option<usize>)
        ensures
            match r {
                Some(k) => k as int == first_where(self@.users, by_user_id(id.value)),
                None => first_where(self@.users, by_user_id(id.value)) == -1,
            },
    {
        let n = self.users.len();
        for k in 0..n
            invariant
                n == self.users.len(),
                forall|j: int| 0 <= j < k ==> !by_user_id(id.value)(self@.users[j]),
        {
            proof {
                assert(self@.users[k as int] == self.users@[k as int]@);
            }
            if self.users[k].id.value == id.value {
                proof {
                    lemma_first_where_is(self@.users, by_user_id(id.value), k as int);
                }
                return Some(k);
            }
        }
        proof {
            lemma_first_where(self@.users, by_user_id(id.value));
        }
        None
    }

    /// Index of the first user with the given email.
    fn user_index_by_email(&self, email: &String) -> (r: Option<usize>)
        ensures
            match r {
                Some(k) => k as int == first_where(self@.users, by_user_email(email@)),
                None => first_where(self@.users, by_user_email(email@)) == -1,
            },
    {
        let n = self.users.len();
        for k in 0..n
            invariant
                n == self.users.len(),
                forall|j: int| 0 <= j < k ==> !by_user_email(email@)(self@.users[j]),
        {
            proof {
                assert(self@.users[k as int] == self.users@[k as int]@);
            }
            let matches_email = match &self.users[k].email {
                Some(e) => str_eq(e, email),
                None => false,
            };
            if matches_email {
                proof {
                    lemma_first_where_is(self@.users, by_user_email(email@), k as int);
                }
                return Some(k);
            }
        }
        proof {
            lemma_first_where(self@.users, by_user_email(email@));
        }
        None
    }

    /// Index of the first provider with the given name.
    fn provider_index_by_name(&self, name: &String) -> (r: Option<usize>)
        ensures
            match r {
                Some(k) => k as int == first_where(self@.providers, by_provider_name(name@)),
                None => first_where(self@.providers, by_provider_name(name@)) == -1,
            },
    {
        let n = self.providers.len();
        for k in 0..n
            invariant
                n == self.providers.len(),
                forall|j: int| 0 <= j < k ==> !by_provider_name(name@)(self@.providers[j]),
        {
            proof {
                assert(self@.providers[k as int] == self.providers@[k as int]@);
            }
            if str_eq(&self.providers[k].name, name) {
                proof {
                    lemma_first_where_is(self@.providers, by_provider_name(name@), k as int);
                }
                return Some(k);
            }
        }
        proof {
            lemma_first_where(self@.providers, by_provider_name(name@));
        }
        None
    }

    /// Index of the first provider with the given identifier.
    fn provider_index_by_id(&self, id: &Uid) -> (r: Option<usize>)
        ensures
            match r {
                Some(k) => k as int == first_where(self@.providers, by_provider_id(id.value)),
                None => first_where(self@.providers, by_provider_id(id.value)) == -1,
            },
    {
        let n = self.providers.len();
        for k in 0..n
            invariant
                n == self.providers.len(),
                forall|j: int| 0 <= j < k ==> !by_provider_id(id.value)(self@.providers[j]),
        {
            proof {
                assert(self@.providers[k as int] == self.providers@[k as int]@);
            }
            if self.providers[k].id.value == id.value {
                proof {
                    lemma_first_where_is(self@.providers, by_provider_id(id.value), k as int);
                }
                return Some(k);
            }
        }
        proof {
            lemma_first_where(self@.providers, by_provider_id(id.value));
        }
        None
    }

    /// Index of the first link for a (provider, account) pair.
    fn link_index(&self, provider_id: &Uid, account_id: &String) -> (r: Option<usize>)
        ensures
            match r {
                Some(k) => k as int == first_where(
                    self@.links,
                    by_link_pair(provider_id.value, account_id@),
                ),
                None => first_where(self@.links, by_link_pair(provider_id.value, account_id@))
                    == -1,
            },
    {
        let n = self.links.len();
        for k in 0..n
            invariant
                n == self.links.len(),
                forall|j: int|
                    0 <= j < k ==> !by_link_pair(provider_id.value, account_id@)(self@.links[j]),
        {
            proof {
                assert(self@.links[k as int] == self.links@[k as int]@);
            }
            if self.links[k].provider_id.value == provider_id.value && str_eq(
                &self.links[k].provider_account_id,
                account_id,
            ) {
                proof {
                    lemma_first_where_is(
                        self@.links,
                        by_link_pair(provider_id.value, account_id@),
                        k as int,
                    );
                }
                return Some(k);
            }
        }
        proof {
            lemma_first_where(self@.links, by_link_pair(provider_id.value, account_id@));
        }
        None
    }

    /// Index of the first session with the given token.
    fn session_index(&self, token: &String) -> (r: Option<usize>)
        ensures
            match r {
                Some(k) => k as int == first_where(self@.sessions, by_session_token(token@)),
                None => first_where(self@.sessions, by_session_token(token@)) == -1,
            },
    {
        let n = self.sessions.len();
        for k in 0..n
            invariant
                n == self.sessions.len(),
                forall|j: int| 0 <= j < k ==> !by_session_token(token@)(self@.sessions[j]),
        {
            proof {
                assert(self@.sessions[k as int] == self.sessions@[k as int]@);
            }
            if str_eq(&self.sessions[k].session_token, token) {
                proof {
                    lemma_first_where_is(self@.sessions, by_session_token(token@), k as int);
                }
                return Some(k);
            }
        }
        proof {
            lemma_first_where(self@.sessions, by_session_token(token@));
        }
        None
    }

    /// Index of the first verification token for a pair.
    fn token_index(&self, identifier: &String, token: &String) -> (r: Option<usize>)
        ensures
            match r {
                Some(k) => k as int == first_where(self@.tokens, by_token_pair(identifier@, token@)),
                None => first_where(self@.tokens, by_token_pair(identifier@, token@)) == -1,
            },
    {
        let n = self.tokens.len();
        for k in 0..n
            invariant
                n == self.tokens.len(),
                forall|j: int| 0 <= j < k ==> !by_token_pair(identifier@, token@)(self@.tokens[j]),
        {
            proof {
                assert(self@.tokens[k as int] == self.tokens@[k as int]@);
            }
            if str_eq(&self.tokens[k].identifier, identifier) && str_eq(&self.tokens[k].token, token) {
                proof {
                    lemma_first_where_is(self@.tokens, by_token_pair(identifier@, token@), k as int);
                }
                return Some(k);
            }
        }
        proof {
            lemma_first_where(self@.tokens, by_token_pair(identifier@, token@));
        }
        None
    }

    // -----------------------------------------------------------------
    // Reads.

    /// Point select of a user by identifier.
    pub fn get_user(&self, id: &Uid) -> (r: Option<User>)
        ensures
            crate::opt_view(r) == lookup_user(self@.users, id.value),
    {
        match self.user_index(id) {
            Some(i) => {
                proof {
                    lemma_first_where(self@.users, by_user_id(id.value));
                    assert(self@.users[i as int] == self.users@[i as int]@);
                }
                Some(self.users[i].duplicate())
            },
            None => None,
        }
    }

    /// Filtered select of a user by email.
    pub fn get_user_by_email(&self, email: &String) -> (r: Option<User>)
        ensures
            crate::opt_view(r) == lookup_user_by_email(self@.users, email@),
    {
        match self.user_index_by_email(email) {
            Some(i) => {
                proof {
                    lemma_first_where(self@.users, by_user_email(email@));
                    assert(self@.users[i as int] == self.users@[i as int]@);
                }
                Some(self.users[i].duplicate())
            },
            None => None,
        }
    }

    /// Select of the whole user collection.
    pub fn all_users(&self) -> (r: Vec<User>)
        ensures
            crate::seq_view(r@) == self@.users,
    {
        let n = self.users.len();
        let mut out: Vec<User> = Vec::new();
        for k in 0..n
            invariant
                n == self.users.len(),
                out.len() == k,
                forall|j: int| 0 <= j < k ==> #[trigger] out@[j]@ == self@.users[j],
        {
            out.push(self.users[k].duplicate());
        }
        proof {
            assert(crate::seq_view(out@) =~= self@.users);
        }
        out
    }

    /// Point select of a provider by name.
    pub fn get_provider_by_name(&self, name: &String) -> (r: Option<AccountProvider>)
        ensures
            crate::opt_view(r) == lookup_provider_by_name(self@.providers, name@),
    {
        match self.provider_index_by_name(name) {
            Some(i) => {
                proof {
                    lemma_first_where(self@.providers, by_provider_name(name@));
                    assert(self@.providers[i as int] == self.providers@[i as int]@);
                }
                Some(self.providers[i].duplicate())
            },
            None => None,
        }
    }

    /// Point select of a provider by identifier.
    pub fn get_provider_by_id(&self, id: &Uid) -> (r: Option<AccountProvider>)
        ensures
            crate::opt_view(r) == lookup_provider_by_id(self@.providers, id.value),
    {
        match self.provider_index_by_id(id) {
            Some(i) => {
                proof {
                    lemma_first_where(self@.providers, by_provider_id(id.value));
                    assert(self@.providers[i as int] == self.providers@[i as int]@);
                }
                Some(self.providers[i].duplicate())
            },
            None => None,
        }
    }

    /// Point select of a link edge by its (provider, account) pair.
    pub fn get_link(&self, provider_id: &Uid, account_id: &String) -> (r: Option<LinkEdge>)
        ensures
            crate::opt_view(r) == lookup_link(self@.links, provider_id.value, account_id@),
    {
        match self.link_index(provider_id, account_id) {
            Some(i) => {
                proof {
                    lemma_first_where(self@.links, by_link_pair(provider_id.value, account_id@));
                    assert(self@.links[i as int] == self.links@[i as int]@);
                }
                Some(self.links[i].duplicate())
            },
            None => None,
        }
    }

    /// Point select of a session edge by token.
    pub fn get_session(&self, token: &String) -> (r: Option<SessionEdge>)
        ensures
            crate::opt_view(r) == lookup_session(self@.sessions, token@),
    {
        match self.session_index(token) {
            Some(i) => {
                proof {
                    lemma_first_where(self@.sessions, by_session_token(token@));
                    assert(self@.sessions[i as int] == self.sessions@[i as int]@);
                }
                Some(self.sessions[i].duplicate())
            },
            None => None,
        }
    }

    /// All session edges incident to a user, in store order.
    pub fn sessions_of_user(&self, user_id: &Uid) -> (r: Vec<SessionEdge>)
        ensures
            crate::seq_view(r@) == keep_where(self@.sessions, by_session_user(user_id.value)),
    {
        let ghost p = by_session_user(user_id.value);
        let n = self.sessions.len();
        let mut out: Vec<SessionEdge> = Vec::new();
        proof {
            assert(self@.sessions.skip(0) =~= self@.sessions);
            assert(crate::seq_view(out@) =~= Seq::<SessionEdgeV>::empty());
        }
        for k in 0..n
            invariant
                n == self.sessions.len(),
                keep_where(self@.sessions, p) =~= crate::seq_view(out@) + keep_where(
                    self@.sessions.skip(k as int),
                    p,
                ),
                p == by_session_user(user_id.value),
        {
            let ghost tail = self@.sessions.skip(k as int);
            proof {
                assert(self@.sessions[k as int] == self.sessions@[k as int]@);
                assert(tail[0] == self@.sessions[k as int]);
                assert(tail.drop_first() =~= self@.sessions.skip(k as int + 1));
            }
            if self.sessions[k].user_id.value == user_id.value {
                out.push(self.sessions[k].duplicate());
                proof {
                    assert(keep_where(tail, p) =~= seq![tail[0]] + keep_where(tail.drop_first(), p));
                    assert(crate::seq_view(out@) =~= crate::seq_view(out@.drop_last()).push(
                        tail[0],
                    ));
                }
            }
        }
        proof {
            assert(keep_where(self@.sessions.skip(n as int), p) =~= Seq::<SessionEdgeV>::empty());
            assert(crate::seq_view(out@) =~= keep_where(self@.sessions, p));
        }
        out
    }

    /// All link edges incident to a user, in store order.
    pub fn links_of_user(&self, user_id: &Uid) -> (r: Vec<LinkEdge>)
        ensures
            crate::seq_view(r@) == keep_where(self@.links, by_link_user(user_id.value)),
    {
        let ghost p = by_link_user(user_id.value);
        let n = self.links.len();
        let mut out: Vec<LinkEdge> = Vec::new();
        proof {
            assert(self@.links.skip(0) =~= self@.links);
            assert(crate::seq_view(out@) =~= Seq::<LinkV>::empty());
        }
        for k in 0..n
            invariant
                n == self.links.len(),
                keep_where(self@.links, p) =~= crate::seq_view(out@) + keep_where(
                    self@.links.skip(k as int),
                    p,
                ),
                p == by_link_user(user_id.value),
        {
            let ghost tail = self@.links.skip(k as int);
            proof {
                assert(self@.links[k as int] == self.links@[k as int]@);
                assert(tail[0] == self@.links[k as int]);
                assert(tail.drop_first() =~= self@.links.skip(k as int + 1));
            }
            if self.links[k].user_id.value == user_id.value {
                out.push(self.links[k].duplicate());
                proof {
                    assert(keep_where(tail, p) =~= seq![tail[0]] + keep_where(tail.drop_first(), p));
                    assert(crate::seq_view(out@) =~= crate::seq_view(out@.drop_last()).push(
                        tail[0],
                    ));
                }
            }
        }
        proof {
            assert(keep_where(self@.links.skip(n as int), p) =~= Seq::<LinkV>::empty());
            assert(crate::seq_view(out@) =~= keep_where(self@.links, p));
        }
        out
    }

    /// Point select of a verification token by its pair.
    pub fn get_token(&self, identifier: &String, token: &String) -> (r: Option<VerificationToken>)
        ensures
            crate::opt_view(r) == lookup_token(self@.tokens, identifier@, token@),
    {
        match self.token_index(identifier, token) {
            Some(i) => {
                proof {
                    lemma_first_where(self@.tokens, by_token_pair(identifier@, token@));
                    assert(self@.tokens[i as int] == self.tokens@[i as int]@);
                }
                Some(self.tokens[i].duplicate())
            },
            None => None,
        }
    }

    // -----------------------------------------------------------------
    // Mutations.

    /// Content create of a user node with a caller-chosen identifier.
    pub fn insert_user(&mut self, u: User)
        requires
            store_wf(old(self)@),
            lookup_user(old(self)@.users, u@.id) is None,
        ensures
            final(self)@.users =~= old(self)@.users.push(u@),
            final(self)@.providers == old(self)@.providers,
            final(self)@.links == old(self)@.links,
            final(self)@.sessions == old(self)@.sessions,
            final(self)@.tokens == old(self)@.tokens,
            store_wf(final(self)@),
    {
        proof {
            lemma_first_where(old(self)@.users, by_user_id(u@.id));
        }
        let ghost prior = self@.users;
        self.users.push(u);
        proof {
            assert(self@.users =~= prior.push(u@));
            assert forall|i: int, j: int|
                0 <= i < j < self@.users.len() implies #[trigger] self@.users[i].id
                != #[trigger] self@.users[j].id by {
                if j == prior.len() as int {
                    assert(!by_user_id(u@.id)(prior[i]));
                }
            }
        }
    }

    /// Content/merge update of a user node: replaceable fields come
    /// from `data`, and the update time is stamped with `now`.
    pub fn update_user(&mut self, id: &Uid, data: &User, now: i64) -> (r: Option<User>)
        requires
            store_wf(old(self)@),
        ensures
            ({
                let i = first_where(old(self)@.users, by_user_id(id.value));
                if i < 0 {
                    *final(self) == *old(self) && r is None
                } else {
                    let m = merged_user(old(self)@.users[i], data@, now as int);
                    &&& final(self)@.users =~= old(self)@.users.update(i, m)
                    &&& final(self)@.providers == old(self)@.providers
                    &&& final(self)@.links == old(self)@.links
                    &&& final(self)@.sessions == old(self)@.sessions
                    &&& final(self)@.tokens == old(self)@.tokens
                    &&& crate::opt_view(r) == Some(m)
                    &&& store_wf(final(self)@)
                }
            }),
    {
        let ghost prior = self@.users;
        let ghost p = by_user_id(id.value);
        match self.user_index(id) {
            None => None,
            Some(i) => {
                proof {
                    lemma_first_where(prior, p);
                    assert(prior[i as int] == self.users@[i as int]@);
                }
                let updated = User {
                    id: self.users[i].id,
                    username: data.username.clone(),
                    email: crate::clone_opt_string(&data.email),
                    name: crate::clone_opt_string(&data.name),
                    avatar: crate::clone_opt_string(&data.avatar),
                    user_type: data.user_type,
                    phone_number: crate::clone_opt_string(&self.users[i].phone_number),
                    created: self.users[i].created,
                    updated: now,
                };
                let ret = updated.duplicate();
                proof {
                    assert(updated@ == merged_user(prior[i as int], data@, now as int));
                }
                let removed = self.users.remove(i);
                self.users.insert(i, updated);
                proof {
                    let m = merged_user(prior[i as int], data@, now as int);
                    assert(self@.users =~= prior.update(i as int, m));
                    assert forall|a: int, b: int|
                        0 <= a < b < self@.users.len() implies #[trigger] self@.users[a].id
                        != #[trigger] self@.users[b].id by {
                        assert(self@.users[a].id == prior[a].id);
                        assert(self@.users[b].id == prior[b].id);
                    }
                }
                Some(ret)
            },
        }
    }

    /// Delete of a user node, returning the last-known value.
    pub fn remove_user(&mut self, id: &Uid) -> (r: Option<User>)
        requires
            store_wf(old(self)@),
        ensures
            ({
                let i = first_where(old(self)@.users, by_user_id(id.value));
                if i < 0 {
                    *final(self) == *old(self) && r is None
                } else {
                    &&& final(self)@.users =~= old(self)@.users.remove(i)
                    &&& final(self)@.providers == old(self)@.providers
                    &&& final(self)@.links == old(self)@.links
                    &&& final(self)@.sessions == old(self)@.sessions
                    &&& final(self)@.tokens == old(self)@.tokens
                    &&& crate::opt_view(r) == Some(old(self)@.users[i])
                    &&& store_wf(final(self)@)
                }
            }),
    {
        let ghost prior = self@.users;
        match self.user_index(id) {
            None => None,
            Some(i) => {
                proof {
                    lemma_first_where(prior, by_user_id(id.value));
                    assert(prior[i as int] == self.users@[i as int]@);
                }
                let removed = self.users.remove(i);
                proof {
                    assert(self@.users =~= prior.remove(i as int));
                    assert forall|a: int, b: int|
                        0 <= a < b < self@.users.len() implies #[trigger] self@.users[a].id
                        != #[trigger] self@.users[b].id by {
                        let a0 = if a < i as int { a } else { a + 1 };
                        let b0 = if b < i as int { b } else { b + 1 };
                        assert(self@.users[a] == prior[a0]);
                        assert(self@.users[b] == prior[b0]);
                    }
                }
                Some(removed)
            },
        }
    }

    /// Content create of an account provider node; providers are
    /// deduplicated by name, so both the name and the identifier must
    /// be fresh.
    pub fn insert_provider(&mut self, p: AccountProvider)
        requires
            store_wf(old(self)@),
            lookup_provider_by_name(old(self)@.providers, p@.name) is None,
            lookup_provider_by_id(old(self)@.providers, p@.id) is None,
        ensures
            final(self)@.providers =~= old(self)@.providers.push(p@),
            final(self)@.users == old(self)@.users,
            final(self)@.links == old(self)@.links,
            final(self)@.sessions == old(self)@.sessions,
            final(self)@.tokens == old(self)@.tokens,
            store_wf(final(self)@),
    {
        proof {
            lemma_first_where(old(self)@.providers, by_provider_name(p@.name));
            lemma_first_where(old(self)@.providers, by_provider_id(p@.id));
        }
        let ghost prior = self@.providers;
        self.providers.push(p);
        proof {
            assert(self@.providers =~= prior.push(p@));
            assert forall|a: int, b: int|
                0 <= a < b < self@.providers.len() implies #[trigger] self@.providers[a].id
                != #[trigger] self@.providers[b].id by {
                if b == prior.len() as int {
                    assert(!by_provider_id(p@.id)(prior[a]));
                }
            }
            assert forall|a: int, b: int|
                0 <= a < b < self@.providers.len() implies #[trigger] self@.providers[a].name
                != #[trigger] self@.providers[b].name by {
                if b == prior.len() as int {
                    assert(!by_provider_name(p@.name)(prior[a]));
                }
            }
            assert forall|a: int|
                0 <= a < self@.links.len() implies #[trigger] lookup_provider_by_id(
                self@.providers,
                self@.links[a].provider_id,
            ) is Some by {
                assert(self@.links[a] == old(self)@.links[a]);
                assert(lookup_provider_by_id(prior, self@.links[a].provider_id) is Some);
                lemma_lookup_where_push(prior, by_provider_id(self@.links[a].provider_id), p@);
            }
            assert forall|a: int|
                0 <= a < self@.sessions.len() implies #[trigger] lookup_provider_by_id(
                self@.providers,
                self@.sessions[a].provider_id,
            ) is Some by {
                assert(self@.sessions[a] == old(self)@.sessions[a]);
                assert(lookup_provider_by_id(prior, self@.sessions[a].provider_id) is Some);
                lemma_lookup_where_push(prior, by_provider_id(self@.sessions[a].provider_id), p@);
            }
        }
    }

    /// Creates a link edge for a (provider, account) pair that has
    /// none yet.
    pub fn insert_link(&mut self, l: LinkEdge)
        requires
            store_wf(old(self)@),
            lookup_provider_by_id(old(self)@.providers, l@.provider_id) is Some,
            lookup_link(old(self)@.links, l@.provider_id, l@.provider_account_id) is None,
        ensures
            final(self)@.links =~= old(self)@.links.push(l@),
            final(self)@.users == old(self)@.users,
            final(self)@.providers == old(self)@.providers,
            final(self)@.sessions == old(self)@.sessions,
            final(self)@.tokens == old(self)@.tokens,
            store_wf(final(self)@),
    {
        proof {
            lemma_first_where(
                old(self)@.links,
                by_link_pair(l@.provider_id, l@.provider_account_id),
            );
        }
        let ghost prior = self@.links;
        self.links.push(l);
        proof {
            assert(self@.links =~= prior.push(l@));
            assert forall|a: int, b: int|
                0 <= a < b < self@.links.len() implies !(#[trigger] self@.links[a].provider_id
                == #[trigger] self@.links[b].provider_id && self@.links[a].provider_account_id
                == self@.links[b].provider_account_id) by {
                if b == prior.len() as int {
                    assert(!by_link_pair(l@.provider_id, l@.provider_account_id)(prior[a]));
                }
            }
        }
    }

    /// Deletes the link edge for a (provider, account) pair, if any.
    pub fn remove_link(&mut self, provider_id: &Uid, account_id: &String)
        requires
            store_wf(old(self)@),
        ensures
            ({
                let i = first_where(
                    old(self)@.links,
                    by_link_pair(provider_id.value, account_id@),
                );
                if i < 0 {
                    *final(self) == *old(self)
                } else {
                    &&& final(self)@.links =~= old(self)@.links.remove(i)
                    &&& final(self)@.users == old(self)@.users
                    &&& final(self)@.providers == old(self)@.providers
                    &&& final(self)@.sessions == old(self)@.sessions
                    &&& final(self)@.tokens == old(self)@.tokens
                    &&& store_wf(final(self)@)
                }
            }),
    {
        let ghost prior = self@.links;
        match self.link_index(provider_id, account_id) {
            None => {},
            Some(i) => {
                proof {
                    lemma_first_where(prior, by_link_pair(provider_id.value, account_id@));
                }
                self.links.remove(i);
                proof {
                    assert(self@.links =~= prior.remove(i as int));
                    assert forall|a: int, b: int|
                        0 <= a < b < self@.links.len() implies !(#[trigger] self@.links[
                        a
                    ].provider_id == #[trigger] self@.links[b].provider_id && self@.links[
                        a
                    ].provider_account_id == self@.links[b].provider_account_id) by {
                        let a0 = if a < i as int { a } else { a + 1 };
                        let b0 = if b < i as int { b } else { b + 1 };
                        assert(self@.links[a] == prior[a0]);
                        assert(self@.links[b] == prior[b0]);
                    }
                    assert forall|a: int|
                        0 <= a < self@.links.len() implies #[trigger] lookup_provider_by_id(
                        self@.providers,
                        self@.links[a].provider_id,
                    ) is Some by {
                        let a0 = if a < i as int { a } else { a + 1 };
                        assert(self@.links[a] == prior[a0]);
                    }
                }
            },
        }
    }

    /// Creates a session edge; its provider endpoint must exist.
    pub fn insert_session(&mut self, s: SessionEdge)
        requires
            store_wf(old(self)@),
            lookup_provider_by_id(old(self)@.providers, s@.provider_id) is Some,
        ensures
            final(self)@.sessions =~= old(self)@.sessions.push(s@),
            final(self)@.users == old(self)@.users,
            final(self)@.providers == old(self)@.providers,
            final(self)@.links == old(self)@.links,
            final(self)@.tokens == old(self)@.tokens,
            store_wf(final(self)@),
    {
        let ghost prior = self@.sessions;
        self.sessions.push(s);
        proof {
            assert(self@.sessions =~= prior.push(s@));
        }
    }

    /// Merge update of the first session with the given token: only
    /// the expiry changes.
    pub fn set_session_expiry(&mut self, token: &String, expires_at: i64) -> (r: Option<
        SessionEdge,
    >)
        requires
            store_wf(old(self)@),
        ensures
            ({
                let i = first_where(old(self)@.sessions, by_session_token(token@));
                if i < 0 {
                    *final(self) == *old(self) && r is None
                } else {
                    let m = SessionEdgeV {
                        expires_at: expires_at as int,
                        ..old(self)@.sessions[i]
                    };
                    &&& final(self)@.sessions =~= old(self)@.sessions.update(i, m)
                    &&& final(self)@.users == old(self)@.users
                    &&& final(self)@.providers == old(self)@.providers
                    &&& final(self)@.links == old(self)@.links
                    &&& final(self)@.tokens == old(self)@.tokens
                    &&& crate::opt_view(r) == Some(m)
                    &&& store_wf(final(self)@)
                }
            }),
    {
        let ghost prior = self@.sessions;
        match self.session_index(token) {
            None => None,
            Some(i) => {
                proof {
                    lemma_first_where(prior, by_session_token(token@));
                    assert(prior[i as int] == self.sessions@[i as int]@);
                }
                let updated = SessionEdge {
                    user_id: self.sessions[i].user_id,
                    provider_id: self.sessions[i].provider_id,
                    session_token: self.sessions[i].session_token.clone(),
                    expires_at,
                };
                let ret = updated.duplicate();
                self.sessions.remove(i);
                self.sessions.insert(i, updated);
                proof {
                    let m = SessionEdgeV { expires_at: expires_at as int, ..prior[i as int] };
                    assert(self@.sessions =~= prior.update(i as int, m));
                    assert forall|a: int|
                        0 <= a < self@.sessions.len() implies #[trigger] lookup_provider_by_id(
                        self@.providers,
                        self@.sessions[a].provider_id,
                    ) is Some by {
                        assert(self@.sessions[a].provider_id == prior[a].provider_id);
                    }
                }
                Some(ret)
            },
        }
    }

    /// Deletes every session with the given token.
    pub fn remove_sessions_by_token(&mut self, token: &String)
        requires
            store_wf(old(self)@),
        ensures
            final(self)@.sessions =~= keep_where(old(self)@.sessions, session_token_ne(token@)),
            final(self)@.users == old(self)@.users,
            final(self)@.providers == old(self)@.providers,
            final(self)@.links == old(self)@.links,
            final(self)@.tokens == old(self)@.tokens,
            store_wf(final(self)@),
    {
        let ghost p = session_token_ne(token@);
        let ghost prior = self@.sessions;
        let n = self.sessions.len();
        let mut out: Vec<SessionEdge> = Vec::new();
        proof {
            assert(prior.skip(0) =~= prior);
            assert(crate::seq_view(out@) =~= Seq::<SessionEdgeV>::empty());
        }
        for k in 0..n
            invariant
                n == self.sessions.len(),
                prior == self@.sessions,
                keep_where(prior, p) =~= crate::seq_view(out@) + keep_where(
                    prior.skip(k as int),
                    p,
                ),
                p == session_token_ne(token@),
        {
            let ghost tail = prior.skip(k as int);
            proof {
                assert(prior[k as int] == self.sessions@[k as int]@);
                assert(tail[0] == prior[k as int]);
                assert(tail.drop_first() =~= prior.skip(k as int + 1));
            }
            if !str_eq(&self.sessions[k].session_token, token) {
                out.push(self.sessions[k].duplicate());
                proof {
                    assert(keep_where(tail, p) =~= seq![tail[0]] + keep_where(tail.drop_first(), p));
                    assert(crate::seq_view(out@) =~= crate::seq_view(out@.drop_last()).push(
                        tail[0],
                    ));
                }
            }
        }
        proof {
            assert(keep_where(prior.skip(n as int), p) =~= Seq::<SessionEdgeV>::empty());
        }
        self.sessions = out;
        proof {
            assert(self@.sessions =~= keep_where(prior, p));
            lemma_keep_where_membership(prior, p);
            assert forall|a: int|
                0 <= a < self@.sessions.len() implies #[trigger] lookup_provider_by_id(
                self@.providers,
                self@.sessions[a].provider_id,
            ) is Some by {
                let e = keep_where(prior, p)[a];
                let j = choose|j: int| 0 <= j < prior.len() && prior[j] == e;
                assert(lookup_provider_by_id(self@.providers, prior[j].provider_id) is Some);
            }
        }
    }

    /// Deletes every session incident to a user.
    pub fn remove_sessions_by_user(&mut self, user_id: &Uid)
        requires
            store_wf(old(self)@),
        ensures
            final(self)@.sessions =~= keep_where(
                old(self)@.sessions,
                session_user_ne(user_id.value),
            ),
            final(self)@.users == old(self)@.users,
            final(self)@.providers == old(self)@.providers,
            final(self)@.links == old(self)@.links,
            final(self)@.tokens == old(self)@.tokens,
            store_wf(final(self)@),
    {
        let ghost p = session_user_ne(user_id.value);
        let ghost prior = self@.sessions;
        let n = self.sessions.len();
        let mut out: Vec<SessionEdge> = Vec::new();
        proof {
            assert(prior.skip(0) =~= prior);
            assert(crate::seq_view(out@) =~= Seq::<SessionEdgeV>::empty());
        }
        for k in 0..n
            invariant
                n == self.sessions.len(),
                prior == self@.sessions,
                keep_where(prior, p) =~= crate::seq_view(out@) + keep_where(
                    prior.skip(k as int),
                    p,
                ),
                p == session_user_ne(user_id.value),
        {
            let ghost tail = prior.skip(k as int);
            proof {
                assert(prior[k as int] == self.sessions@[k as int]@);
                assert(tail[0] == prior[k as int]);
                assert(tail.drop_first() =~= prior.skip(k as int + 1));
            }
            if self.sessions[k].user_id.value != user_id.value {
                out.push(self.sessions[k].duplicate());
                proof {
                    assert(keep_where(tail, p) =~= seq![tail[0]] + keep_where(tail.drop_first(), p));
                    assert(crate::seq_view(out@) =~= crate::seq_view(out@.drop_last()).push(
                        tail[0],
                    ));
                }
            }
        }
        proof {
            assert(keep_where(prior.skip(n as int), p) =~= Seq::<SessionEdgeV>::empty());
        }
        self.sessions = out;
        proof {
            assert(self@.sessions =~= keep_where(prior, p));
            lemma_keep_where_membership(prior, p);
            assert forall|a: int|
                0 <= a < self@.sessions.len() implies #[trigger] lookup_provider_by_id(
                self@.providers,
                self@.sessions[a].provider_id,
            ) is Some by {
                let e = keep_where(prior, p)[a];
                let j = choose|j: int| 0 <= j < prior.len() && prior[j] == e;
                assert(lookup_provider_by_id(self@.providers, prior[j].provider_id) is Some);
            }
        }
    }

    /// Deletes every session whose expiry is at or before `now`.
    pub fn remove_expired_sessions(&mut self, now: i64)
        requires
            store_wf(old(self)@),
        ensures
            final(self)@.sessions =~= keep_where(old(self)@.sessions, session_alive_after(now as int)),
            final(self)@.users == old(self)@.users,
            final(self)@.providers == old(self)@.providers,
            final(self)@.links == old(self)@.links,
            final(self)@.tokens == old(self)@.tokens,
            store_wf(final(self)@),
    {
        let ghost p = session_alive_after(now as int);
        let ghost prior = self@.sessions;
        let n = self.sessions.len();
        let mut out: Vec<SessionEdge> = Vec::new();
        proof {
            assert(prior.skip(0) =~= prior);
            assert(crate::seq_view(out@) =~= Seq::<SessionEdgeV>::empty());
        }
        for k in 0..n
            invariant
                n == self.sessions.len(),
                prior == self@.sessions,
                keep_where(prior, p) =~= crate::seq_view(out@) + keep_where(
                    prior.skip(k as int),
                    p,
                ),
                p == session_alive_after(now as int),
        {
            let ghost tail = prior.skip(k as int);
            proof {
                assert(prior[k as int] == self.sessions@[k as int]@);
                assert(tail[0] == prior[k as int]);
                assert(tail.drop_first() =~= prior.skip(k as int + 1));
            }
            if self.sessions[k].expires_at > now {
                out.push(self.sessions[k].duplicate());
                proof {
                    assert(keep_where(tail, p) =~= seq![tail[0]] + keep_where(tail.drop_first(), p));
                    assert(crate::seq_view(out@) =~= crate::seq_view(out@.drop_last()).push(
                        tail[0],
                    ));
                }
            }
        }
        proof {
            assert(keep_where(prior.skip(n as int), p) =~= Seq::<SessionEdgeV>::empty());
        }
        self.sessions = out;
        proof {
            assert(self@.sessions =~= keep_where(prior, p));
            lemma_keep_where_membership(prior, p);
            assert forall|a: int|
                0 <= a < self@.sessions.len() implies #[trigger] lookup_provider_by_id(
                self@.providers,
                self@.sessions[a].provider_id,
            ) is Some by {
                let e = keep_where(prior, p)[a];
                let j = choose|j: int| 0 <= j < prior.len() && prior[j] == e;
                assert(lookup_provider_by_id(self@.providers, prior[j].provider_id) is Some);
            }
        }
    }

    /// Index of the first verification token with the given
    /// identifier value.
    fn token_index_by_id(&self, id: &Uid) -> (r: Option<usize>)
        ensures
            match r {
                Some(k) => k as int == first_where(self@.tokens, by_token_id(id.value)),
                None => first_where(self@.tokens, by_token_id(id.value)) == -1,
            },
    {
        let n = self.tokens.len();
        for k in 0..n
            invariant
                n == self.tokens.len(),
                forall|j: int| 0 <= j < k ==> !by_token_id(id.value)(self@.tokens[j]),
        {
            proof {
                assert(self@.tokens[k as int] == self.tokens@[k as int]@);
            }
            if self.tokens[k].id.value == id.value {
                proof {
                    lemma_first_where_is(self@.tokens, by_token_id(id.value), k as int);
                }
                return Some(k);
            }
        }
        proof {
            lemma_first_where(self@.tokens, by_token_id(id.value));
        }
        None
    }

    /// Whether a verification token with the given identifier exists.
    pub fn has_token_id(&self, id: &Uid) -> (r: bool)
        ensures
            r == (lookup_token_by_id(self@.tokens, id.value) is Some),
    {
        proof {
            lemma_first_where(self@.tokens, by_token_id(id.value));
        }
        self.token_index_by_id(id).is_some()
    }

    /// Content create of a verification token with a fresh identifier.
    pub fn insert_token(&mut self, t: VerificationToken)
        requires
            store_wf(old(self)@),
            lookup_token_by_id(old(self)@.tokens, t@.id) is None,
        ensures
            final(self)@.tokens =~= old(self)@.tokens.push(t@),
            final(self)@.users == old(self)@.users,
            final(self)@.providers == old(self)@.providers,
            final(self)@.links == old(self)@.links,
            final(self)@.sessions == old(self)@.sessions,
            store_wf(final(self)@),
    {
        proof {
            lemma_first_where(old(self)@.tokens, by_token_id(t@.id));
        }
        let ghost prior = self@.tokens;
        self.tokens.push(t);
        proof {
            assert(self@.tokens =~= prior.push(t@));
            assert forall|a: int, b: int|
                0 <= a < b < self@.tokens.len() implies #[trigger] self@.tokens[a].id
                != #[trigger] self@.tokens[b].id by {
                if b == prior.len() as int {
                    assert(!by_token_id(t@.id)(prior[a]));
                }
            }
        }
    }
}

} // verus!
