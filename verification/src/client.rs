//! The cache-aside query and mutation engine.
//!
//! Reads check the cache, fall through to the primary store on a miss,
//! and repopulate the cache.  Writes mutate the primary store first and
//! then invalidate every cache key that could hold stale data.  The
//! engine's invariant — every cache entry is the encoding of exactly
//! what the primary store would answer today — is what makes every read
//! contract exact: a cache hit can never serve a value the store would
//! not.

use vstd::prelude::*;

use crate::cache::{by_cache_key, cache_lookup, cache_wf, entries_view, key_not_in, key_set,
    CacheState, EntryV};
use crate::cache_key::{all_users_key, key_chars, key_well_formed, lemma_cache_key_injective,
    user_account_key, user_email_key, user_id_key, CacheKey, CacheKeyV};
use crate::codec::{enc_opt_user, enc_users, encode_opt_user, encode_users, decode_opt_user,
    decode_users, opt_user_v_wf, user_v_wf, users_v_wf};
use crate::error::{ClientError, CoreError, SyncError};
use crate::ids::Uid;
use crate::search::SearchState;
use crate::store::{by_provider_id, by_provider_name, by_user_email, by_user_id, first_where,
    keep_where, lemma_first_where, lemma_first_where_is, lemma_keep_where_membership, lookup_link,
    lookup_provider_by_id, lookup_provider_by_name, lookup_session, lookup_token, lookup_user,
    lookup_user_by_email, lookup_where, store_wf, Store, StoreV};
use crate::strutil::contains_char;
use crate::{opt_view, seq_view, User, UserV};

verus! {

/// The data-access client: the authoritative store, an optional cache
/// backend and an optional search backend.
pub struct Client {
    pub store: Store,
    pub cache: Option<CacheState>,
    pub search: Option<SearchState>,
}

// ---------------------------------------------------------------------
// What the store would answer: the authoritative value of each
// queryable access pattern.

pub open spec fn expected_by_id(s: StoreV, id: u128) -> Option<UserV> {
    lookup_user(s.users, id)
}

pub open spec fn expected_by_email(s: StoreV, email: Seq<char>) -> Option<UserV> {
    lookup_user_by_email(s.users, email)
}

/// The link edge an account lookup traverses, if any.
pub open spec fn account_link_of(s: StoreV, provider: Seq<char>, account_id: Seq<char>) -> Option<
    crate::store::LinkV,
> {
    match lookup_provider_by_name(s.providers, provider) {
        None => None,
        Some(pr) => lookup_link(s.links, pr.id, account_id),
    }
}

/// Whether the account path is free of dangling endpoints: if a link
/// edge exists, its user endpoint does too.
pub open spec fn account_clean(s: StoreV, provider: Seq<char>, account_id: Seq<char>) -> bool {
    match account_link_of(s, provider, account_id) {
        None => true,
        Some(l) => lookup_user(s.users, l.user_id) is Some,
    }
}

pub open spec fn expected_by_account(s: StoreV, provider: Seq<char>, account_id: Seq<char>) -> Option<
    UserV,
> {
    match account_link_of(s, provider, account_id) {
        None => None,
        Some(l) => lookup_user(s.users, l.user_id),
    }
}

// ---------------------------------------------------------------------
// Cache coherence.

/// A cache entry is coherent with the store: whatever access pattern
/// its key spells (for the collision-free, well-formed spellings), its
/// bytes encode exactly what the store would answer.
pub open spec fn entry_ok(e: EntryV, s: StoreV) -> bool {
    &&& (e.key == all_users_key() ==> e.value == enc_users(s.users))
    &&& (forall|id: u128|
        e.key == #[trigger] user_id_key(id) ==> e.value == enc_opt_user(expected_by_id(s, id)))
    &&& (forall|em: Seq<char>|
        e.key == #[trigger] user_email_key(em) ==> e.value == enc_opt_user(
            expected_by_email(s, em),
        ))
    &&& (forall|pa: Seq<char>, aa: Seq<char>|
        !pa.contains('|') && e.key == #[trigger] user_account_key(pa, aa) ==> account_clean(
            s,
            pa,
            aa,
        ) && e.value == enc_opt_user(expected_by_account(s, pa, aa)))
}

pub open spec fn cache_entries_ok(es: Seq<EntryV>, s: StoreV) -> bool {
    forall|i: int| 0 <= i < es.len() ==> entry_ok(#[trigger] es[i], s)
}

/// The engine's invariant.
pub open spec fn client_wf(c: Client) -> bool {
    &&& store_wf(c.store@)
    &&& users_v_wf(c.store@.users)
    &&& match c.cache {
        Some(cs) => cache_wf(cs) && cache_entries_ok(entries_view(cs), c.store@),
        None => true,
    }
}

/// The cache configuration (presence, reachability, TTL) — unchanged
/// by reads and writes, only by construction and the availability
/// switch.
pub open spec fn cache_config_unchanged(a: Client, b: Client) -> bool {
    match (a.cache, b.cache) {
        (Some(ca), Some(cb)) => ca.available == cb.available && ca.ttl_ms == cb.ttl_ms,
        (None, None) => true,
        _ => false,
    }
}

// ---------------------------------------------------------------------
// Helper lemmas.

/// A well-formed predicate's key spells no other predicate.
proof fn lemma_key_shape_exclusive(k: CacheKeyV)
    requires
        key_well_formed(k),
    ensures
        key_chars(k) == all_users_key() ==> k == CacheKeyV::AllUsers,
        forall|id: u128|
            key_chars(k) == #[trigger] user_id_key(id) ==> k == (CacheKeyV::UserById { id }),
        forall|em: Seq<char>|
            key_chars(k) == #[trigger] user_email_key(em) ==> k == (CacheKeyV::UserByEmail {
                email: em,
            }),
        forall|pa: Seq<char>, aa: Seq<char>|
            !pa.contains('|') && key_chars(k) == #[trigger] user_account_key(pa, aa) ==> k == (
            CacheKeyV::UserByAccount { provider: pa, provider_account_id: aa }),
{
    if key_chars(k) == all_users_key() {
        lemma_cache_key_injective(k, CacheKeyV::AllUsers);
    }
    assert forall|id: u128| key_chars(k) == #[trigger] user_id_key(id) implies k == (
    CacheKeyV::UserById { id }) by {
        lemma_cache_key_injective(k, CacheKeyV::UserById { id });
    }
    assert forall|em: Seq<char>| key_chars(k) == #[trigger] user_email_key(em) implies k == (
    CacheKeyV::UserByEmail { email: em }) by {
        lemma_cache_key_injective(k, CacheKeyV::UserByEmail { email: em });
    }
    assert forall|pa: Seq<char>, aa: Seq<char>|
        !pa.contains('|') && key_chars(k) == #[trigger] user_account_key(pa, aa) implies k == (
    CacheKeyV::UserByAccount { provider: pa, provider_account_id: aa }) by {
        lemma_cache_key_injective(
            k,
            CacheKeyV::UserByAccount { provider: pa, provider_account_id: aa },
        );
    }
}

/// A freshly written entry for a well-formed predicate, carrying the
/// encoding of what the store answers for it, is coherent.
proof fn lemma_fresh_entry_ok(s: StoreV, shape: CacheKeyV, value: Seq<u8>)
    requires
        key_well_formed(shape),
        match shape {
            CacheKeyV::AllUsers => value == enc_users(s.users),
            CacheKeyV::UserById { id } => value == enc_opt_user(expected_by_id(s, id)),
            CacheKeyV::UserByEmail { email } => value == enc_opt_user(expected_by_email(s, email)),
            CacheKeyV::UserByAccount { provider, provider_account_id } => account_clean(
                s,
                provider,
                provider_account_id,
            ) && value == enc_opt_user(expected_by_account(s, provider, provider_account_id)),
            CacheKeyV::Session { .. } => false,
        },
    ensures
        entry_ok(EntryV { key: key_chars(shape), value }, s),
{
    lemma_key_shape_exclusive(shape);
}

/// Setting one fresh coherent entry keeps the cache coherent.
proof fn lemma_entries_ok_after_set(
    es_old: Seq<EntryV>,
    es_new: Seq<EntryV>,
    s: StoreV,
    shape: CacheKeyV,
    value: Seq<u8>,
)
    requires
        cache_entries_ok(es_old, s),
        key_well_formed(shape),
        es_new == keep_where(
            es_old,
            key_not_in(Set::<Seq<char>>::empty().insert(key_chars(shape))),
        ).push(EntryV { key: key_chars(shape), value }),
        entry_ok(EntryV { key: key_chars(shape), value }, s),
    ensures
        cache_entries_ok(es_new, s),
{
    let kept = keep_where(es_old, key_not_in(Set::<Seq<char>>::empty().insert(key_chars(shape))));
    lemma_keep_where_membership(
        es_old,
        key_not_in(Set::<Seq<char>>::empty().insert(key_chars(shape))),
    );
    assert forall|i: int| 0 <= i < es_new.len() implies entry_ok(#[trigger] es_new[i], s) by {
        if i < kept.len() {
            assert(es_new[i] == kept[i]);
            let j = choose|j: int| 0 <= j < es_old.len() && es_old[j] == kept[i];
            assert(entry_ok(es_old[j], s));
        } else {
            assert(es_new[i] == (EntryV { key: key_chars(shape), value }));
        }
    }
}

/// The entry a cache hit serves is coherent with the store.
proof fn lemma_cache_hit(es: Seq<EntryV>, s: StoreV, k: Seq<char>, v: Seq<u8>)
    requires
        cache_entries_ok(es, s),
        cache_lookup(es, k) == Some(v),
    ensures
        entry_ok(EntryV { key: k, value: v }, s),
{
    lemma_first_where(es, by_cache_key(k));
    let i = first_where(es, by_cache_key(k));
    assert(entry_ok(es[i], s));
    assert(es[i] == (EntryV { key: k, value: v }));
}

/// After an invalidate-then-write of a key, the cache serves exactly
/// the written bytes under it.
proof fn lemma_set_then_lookup(es_old: Seq<EntryV>, k: Seq<char>, v: Seq<u8>)
    ensures
        cache_lookup(
            keep_where(es_old, key_not_in(Set::<Seq<char>>::empty().insert(k))).push(
                EntryV { key: k, value: v },
            ),
            k,
        ) == Some(v),
{
    let kept = keep_where(es_old, key_not_in(Set::<Seq<char>>::empty().insert(k)));
    lemma_keep_where_membership(es_old, key_not_in(Set::<Seq<char>>::empty().insert(k)));
    let fin = kept.push(EntryV { key: k, value: v });
    assert forall|j: int| 0 <= j < kept.len() implies !by_cache_key(k)(fin[j]) by {
        assert(fin[j] == kept[j]);
    }
    lemma_first_where_is(fin, by_cache_key(k), kept.len() as int);
}

/// What the store answers is always a format-carriable value.
proof fn lemma_expected_wf(s: StoreV)
    requires
        users_v_wf(s.users),
    ensures
        forall|id: u128| opt_user_v_wf(#[trigger] expected_by_id(s, id)),
        forall|em: Seq<char>| opt_user_v_wf(#[trigger] expected_by_email(s, em)),
        forall|pa: Seq<char>, aa: Seq<char>| opt_user_v_wf(
            #[trigger] expected_by_account(s, pa, aa),
        ),
{
    assert forall|id: u128| opt_user_v_wf(#[trigger] expected_by_id(s, id)) by {
        lemma_first_where(s.users, by_user_id(id));
    }
    assert forall|em: Seq<char>| opt_user_v_wf(#[trigger] expected_by_email(s, em)) by {
        lemma_first_where(s.users, by_user_email(em));
    }
    assert forall|pa: Seq<char>, aa: Seq<char>| opt_user_v_wf(
        #[trigger] expected_by_account(s, pa, aa),
    ) by {
        match account_link_of(s, pa, aa) {
            None => {},
            Some(l) => {
                lemma_first_where(s.users, by_user_id(l.user_id));
            },
        }
    }
}

/// Coherence depends only on the user, provider and link collections.
proof fn lemma_entry_ok_same(e: EntryV, s1: StoreV, s2: StoreV)
    requires
        s1.users == s2.users,
        s1.providers == s2.providers,
        s1.links == s2.links,
        entry_ok(e, s1),
    ensures
        entry_ok(e, s2),
{
}

/// A store whose session or token collections changed keeps the whole
/// cache coherent.
proof fn lemma_entries_ok_same(es: Seq<EntryV>, s1: StoreV, s2: StoreV)
    requires
        s1.users == s2.users,
        s1.providers == s2.providers,
        s1.links == s2.links,
        cache_entries_ok(es, s1),
    ensures
        cache_entries_ok(es, s2),
{
    assert forall|i: int| 0 <= i < es.len() implies entry_ok(#[trigger] es[i], s2) by {
        lemma_entry_ok_same(es[i], s1, s2);
    }
}

/// The name on the provider node a link or session edge points to.
pub open spec fn provider_name_of(s: StoreV, pid: u128) -> Seq<char> {
    match lookup_provider_by_id(s.providers, pid) {
        Some(pr) => pr.name,
        None => Seq::empty(),
    }
}

/// With unique identifiers and names, each provider node is found by
/// either handle.
proof fn lemma_provider_consistent(s: StoreV, pr: crate::ProviderV)
    requires
        store_wf(s),
        s.providers.contains(pr),
    ensures
        lookup_provider_by_id(s.providers, pr.id) == Some(pr),
        lookup_provider_by_name(s.providers, pr.name) == Some(pr),
{
    let j = choose|j: int| 0 <= j < s.providers.len() && s.providers[j] == pr;
    lemma_first_where(s.providers, by_provider_id(pr.id));
    let i1 = first_where(s.providers, by_provider_id(pr.id));
    if i1 < 0 {
        assert(by_provider_id(pr.id)(s.providers[j]));
        assert(false);
    }
    assert(s.providers[i1].id == s.providers[j].id);
    assert(i1 == j);
    lemma_first_where(s.providers, by_provider_name(pr.name));
    let i2 = first_where(s.providers, by_provider_name(pr.name));
    if i2 < 0 {
        assert(by_provider_name(pr.name)(s.providers[j]));
        assert(false);
    }
    assert(s.providers[i2].name == s.providers[j].name);
    assert(i2 == j);
}

/// The link an account lookup traverses sits in the store, carries
/// the account id, and its provider node bears the looked-up name.
proof fn lemma_account_link_props(s: StoreV, pa: Seq<char>, aa: Seq<char>)
    requires
        store_wf(s),
        account_link_of(s, pa, aa) is Some,
    ensures
        ({
            let l = account_link_of(s, pa, aa).unwrap();
            &&& s.links.contains(l)
            &&& l.provider_account_id == aa
            &&& provider_name_of(s, l.provider_id) == pa
        }),
{
    let pr = lookup_provider_by_name(s.providers, pa).unwrap();
    lemma_first_where(s.providers, by_provider_name(pa));
    let jp = first_where(s.providers, by_provider_name(pa));
    assert(s.providers.contains(s.providers[jp]));
    lemma_provider_consistent(s, pr);
    let l = account_link_of(s, pa, aa).unwrap();
    lemma_first_where(s.links, crate::store::by_link_pair(pr.id, aa));
    let jl = first_where(s.links, crate::store::by_link_pair(pr.id, aa));
    assert(s.links.contains(s.links[jl]));
}

/// An unknown provider node anchors no link.
proof fn lemma_no_link_for_unknown_provider(s: StoreV, pid: u128, aa: Seq<char>)
    requires
        crate::store::links_wf(s.links, s.providers),
        lookup_provider_by_id(s.providers, pid) is None,
    ensures
        lookup_link(s.links, pid, aa) is None,
{
    lemma_first_where(s.links, crate::store::by_link_pair(pid, aa));
    let i = first_where(s.links, crate::store::by_link_pair(pid, aa));
    if i >= 0 {
        assert(lookup_provider_by_id(s.providers, s.links[i].provider_id) is Some);
        assert(false);
    }
}

/// Membership in the set of keys of a key list.
proof fn lemma_key_set_contains(keys: Seq<String>, k: Seq<char>)
    ensures
        key_set(keys).contains(k) <==> exists|i: int| 0 <= i < keys.len() && keys[i]@ == k,
    decreases keys.len(),
{
    if keys.len() > 0 {
        lemma_key_set_contains(keys.drop_last(), k);
        if keys.last()@ == k {
            assert(keys[keys.len() - 1]@ == k);
        } else if key_set(keys.drop_last()).contains(k) {
            let i = choose|i: int| 0 <= i < keys.len() - 1 && keys.drop_last()[i]@ == k;
            assert(keys[i]@ == k);
        } else if exists|i: int| 0 <= i < keys.len() && keys[i]@ == k {
            let i = choose|i: int| 0 <= i < keys.len() && keys[i]@ == k;
            if i < keys.len() - 1 {
                assert(keys.drop_last()[i]@ == k);
            }
        }
    }
}

/// An element a filter accepts appears in the filtered sequence.
proof fn lemma_keep_where_complete<T>(s: Seq<T>, p: spec_fn(T) -> bool, i: int)
    requires
        0 <= i < s.len(),
        p(s[i]),
    ensures
        keep_where(s, p).contains(s[i]),
    decreases s.len(),
{
    let t = s.drop_first();
    assert(forall|m: int| 0 <= m < t.len() ==> t[m] == s[m + 1]);
    if i == 0 {
        assert(keep_where(s, p)[0] == s[0]);
    } else {
        lemma_keep_where_complete(t, p, i - 1);
        let j = choose|j: int| 0 <= j < keep_where(t, p).len() && keep_where(t, p)[j] == t[i - 1];
        if p(s[0]) {
            assert(keep_where(s, p) =~= seq![s[0]] + keep_where(t, p));
            assert(keep_where(s, p)[j + 1] == t[i - 1]);
        } else {
            assert(keep_where(s, p) == keep_where(t, p));
        }
    }
}

// ---------------------------------------------------------------------
// Write-invalidation: the closed key set and its stability arguments.

/// Whether a key set covers the by-account key of a link (when that
/// key is well formed at all).
pub open spec fn link_key_covered(s: StoreV, l: crate::store::LinkV, ks: Set<Seq<char>>) -> bool {
    !provider_name_of(s, l.provider_id).contains('|') ==> ks.contains(
        user_account_key(provider_name_of(s, l.provider_id), l.provider_account_id),
    )
}

/// What a user mutation must invalidate: the by-id key, the collection
/// key, every email key derivable from the old and new field values,
/// and the by-account key of every link incident to the user.
pub open spec fn user_keys_cover(
    s: StoreV,
    id: u128,
    old_email: Option<Seq<char>>,
    new_email: Option<Seq<char>>,
    ks: Set<Seq<char>>,
) -> bool {
    &&& ks.contains(all_users_key())
    &&& ks.contains(user_id_key(id))
    &&& (old_email matches Some(em) ==> ks.contains(user_email_key(em)))
    &&& (new_email matches Some(em) ==> ks.contains(user_email_key(em)))
    &&& forall|l: crate::store::LinkV|
        s.links.contains(l) && l.user_id == id ==> #[trigger] link_key_covered(s, l, ks)
}

/// Builds the closed set of keys a mutation of the given user must
/// invalidate.
fn invalidation_keys_for_user(
    store: &Store,
    id: &Uid,
    old_email: &Option<String>,
    new_email: &Option<String>,
) -> (r: Vec<String>)
    requires
        store_wf(store@),
    ensures
        user_keys_cover(
            store@,
            id.value,
            crate::view_opt_string(*old_email),
            crate::view_opt_string(*new_email),
            key_set(r@),
        ),
{
    let ghost s = store@;
    let mut out: Vec<String> = Vec::new();
    let ghost b0 = out@;
    out.push(CacheKey::AllUsers.render());
    proof {
        lemma_key_set_snoc(out@);
        assert(out@.drop_last() =~= b0);
    }
    let ghost b1 = out@;
    out.push((CacheKey::UserById { id }).render());
    proof {
        lemma_key_set_snoc(out@);
        assert(out@.drop_last() =~= b1);
    }
    match old_email {
        Some(em) => {
            let ghost b2 = out@;
            out.push((CacheKey::UserByEmail { email: em.as_str() }).render());
            proof {
                lemma_key_set_snoc(out@);
                assert(out@.drop_last() =~= b2);
            }
        },
        None => {},
    }
    match new_email {
        Some(em) => {
            let ghost b3 = out@;
            out.push((CacheKey::UserByEmail { email: em.as_str() }).render());
            proof {
                lemma_key_set_snoc(out@);
                assert(out@.drop_last() =~= b3);
            }
        },
        None => {},
    }
    let links = store.links_of_user(id);
    let ghost lv = seq_view(links@);
    let n = links.len();
    for k in 0..n
        invariant
            n == links.len(),
            lv == seq_view(links@),
            lv == keep_where(s.links, crate::store::by_link_user(id.value)),
            store_wf(s),
            s == store@,
            key_set(out@).contains(all_users_key()),
            key_set(out@).contains(user_id_key(id.value)),
            (crate::view_opt_string(*old_email) matches Some(em) ==> key_set(out@).contains(
                user_email_key(em),
            )),
            (crate::view_opt_string(*new_email) matches Some(em) ==> key_set(out@).contains(
                user_email_key(em),
            )),
            forall|j: int| 0 <= j < k ==> #[trigger] link_key_covered(s, lv[j], key_set(out@)),
    {
        proof {
            assert(lv[k as int] == links@[k as int]@);
        }
        let pr = store.get_provider_by_id(&links[k].provider_id);
        match pr {
            Some(p) => {
                proof {
                    assert(provider_name_of(s, lv[k as int].provider_id) == p@.name);
                }
                if !contains_char(p.name.as_str(), '|') {
                    let ghost before = out@;
                    out.push(
                        (CacheKey::UserByAccount {
                            provider: p.name.as_str(),
                            provider_account_id: links[k].provider_account_id.as_str(),
                        }).render(),
                    );
                    proof {
                        lemma_key_set_snoc(out@);
                        assert(out@.drop_last() =~= before);
                        assert(out@.last()@ == user_account_key(
                            provider_name_of(s, lv[k as int].provider_id),
                            lv[k as int].provider_account_id,
                        ));
                        assert forall|j: int|
                            0 <= j < k + 1 implies #[trigger] link_key_covered(
                            s,
                            lv[j],
                            key_set(out@),
                        ) by {
                            assert(key_set(out@) == key_set(before).insert(out@.last()@));
                            if j < k {
                                assert(link_key_covered(s, lv[j], key_set(before)));
                                if !provider_name_of(s, lv[j].provider_id).contains('|') {
                                    assert(key_set(before).contains(
                                        user_account_key(
                                            provider_name_of(s, lv[j].provider_id),
                                            lv[j].provider_account_id,
                                        ),
                                    ));
                                }
                            } else {
                                assert(key_set(out@).contains(out@.last()@));
                                assert(out@.last()@ == user_account_key(
                                    provider_name_of(s, lv[k as int].provider_id),
                                    lv[k as int].provider_account_id,
                                ));
                            }
                        }
                    }
                } else {
                    proof {
                        assert(link_key_covered(s, lv[k as int], key_set(out@)));
                    }
                }
            },
            None => {
                proof {
                    let lk = lv[k as int];
                    assert(keep_where(s.links, crate::store::by_link_user(id.value)).contains(lk));
                    lemma_keep_where_membership(s.links, crate::store::by_link_user(id.value));
                    let j = choose|j: int| 0 <= j < s.links.len() && s.links[j] == lk;
                    assert(lookup_provider_by_id(s.providers, s.links[j].provider_id) is Some);
                    assert(false);
                }
            },
        }
    }
    proof {
        assert forall|l: crate::store::LinkV|
            s.links.contains(l) && l.user_id == id.value implies #[trigger] link_key_covered(
            s,
            l,
            key_set(out@),
        ) by {
            let i = choose|i: int| 0 <= i < s.links.len() && s.links[i] == l;
            lemma_keep_where_complete(s.links, crate::store::by_link_user(id.value), i);
            let j = choose|j: int| 0 <= j < lv.len() && lv[j] == l;
        }
    }
    out
}

/// One growth step of a key set.
proof fn lemma_key_set_snoc(keys: Seq<String>)
    requires
        keys.len() > 0,
    ensures
        key_set(keys) == key_set(keys.drop_last()).insert(keys.last()@),
{
}

/// Stability of coherence across a user creation: every surviving
/// entry still encodes what the store answers.
proof fn lemma_stable_user_create(
    s_old: StoreV,
    s_new: StoreV,
    nu: UserV,
    ks: Set<Seq<char>>,
    e: EntryV,
)
    requires
        store_wf(s_old),
        lookup_user(s_old.users, nu.id) is None,
        s_new.users == s_old.users.push(nu),
        s_new.providers == s_old.providers,
        s_new.links == s_old.links,
        ks.contains(all_users_key()),
        ks.contains(user_id_key(nu.id)),
        (nu.email matches Some(em) ==> ks.contains(user_email_key(em))),
        entry_ok(e, s_old),
        !ks.contains(e.key),
    ensures
        entry_ok(e, s_new),
{
    assert(e.key != all_users_key());
    assert forall|id: u128| e.key == #[trigger] user_id_key(id) implies e.value == enc_opt_user(
        expected_by_id(s_new, id),
    ) by {
        assert(id != nu.id);
        crate::store::lemma_lookup_where_push(s_old.users, by_user_id(id), nu);
    }
    assert forall|em: Seq<char>| e.key == #[trigger] user_email_key(em) implies e.value
        == enc_opt_user(expected_by_email(s_new, em)) by {
        assert(nu.email != Some(em));
        crate::store::lemma_lookup_where_push(s_old.users, by_user_email(em), nu);
    }
    assert forall|pa: Seq<char>, aa: Seq<char>|
        !pa.contains('|') && e.key == #[trigger] user_account_key(pa, aa) implies account_clean(
        s_new,
        pa,
        aa,
    ) && e.value == enc_opt_user(expected_by_account(s_new, pa, aa)) by {
        assert(account_link_of(s_new, pa, aa) == account_link_of(s_old, pa, aa));
        match account_link_of(s_old, pa, aa) {
            None => {},
            Some(l) => {
                assert(lookup_user(s_old.users, l.user_id) is Some);
                crate::store::lemma_lookup_where_push(s_old.users, by_user_id(l.user_id), nu);
            },
        }
    }
}

/// Stability of coherence across a user update.
proof fn lemma_stable_user_update(
    s_old: StoreV,
    s_new: StoreV,
    i: int,
    m: UserV,
    ks: Set<Seq<char>>,
    e: EntryV,
)
    requires
        store_wf(s_old),
        0 <= i < s_old.users.len(),
        m.id == s_old.users[i].id,
        s_new.users == s_old.users.update(i, m),
        s_new.providers == s_old.providers,
        s_new.links == s_old.links,
        user_keys_cover(s_old, m.id, s_old.users[i].email, m.email, ks),
        entry_ok(e, s_old),
        !ks.contains(e.key),
    ensures
        entry_ok(e, s_new),
{
    let old_u = s_old.users[i];
    assert(e.key != all_users_key());
    assert(forall|j: int|
        0 <= j < s_new.users.len() ==> #[trigger] s_new.users[j].id == s_old.users[j].id);
    assert forall|id: u128| e.key == #[trigger] user_id_key(id) implies e.value == enc_opt_user(
        expected_by_id(s_new, id),
    ) by {
        assert(id != m.id);
        lemma_lookup_user_update_other(s_old.users, s_new.users, i, m, id);
    }
    assert forall|em: Seq<char>| e.key == #[trigger] user_email_key(em) implies e.value
        == enc_opt_user(expected_by_email(s_new, em)) by {
        assert(old_u.email != Some(em));
        assert(m.email != Some(em));
        crate::store::lemma_first_where_pointwise(
            s_old.users,
            by_user_email(em),
            s_new.users,
            by_user_email(em),
        );
        lemma_first_where(s_old.users, by_user_email(em));
        let idx = first_where(s_old.users, by_user_email(em));
        if idx >= 0 {
            assert(idx != i);
            assert(s_new.users[idx] == s_old.users[idx]);
        }
    }
    assert forall|pa: Seq<char>, aa: Seq<char>|
        !pa.contains('|') && e.key == #[trigger] user_account_key(pa, aa) implies account_clean(
        s_new,
        pa,
        aa,
    ) && e.value == enc_opt_user(expected_by_account(s_new, pa, aa)) by {
        assert(account_link_of(s_new, pa, aa) == account_link_of(s_old, pa, aa));
        match account_link_of(s_old, pa, aa) {
            None => {},
            Some(l) => {
                lemma_account_link_props(s_old, pa, aa);
                if l.user_id == m.id {
                    assert(link_key_covered(s_old, l, ks));
                    assert(user_account_key(pa, aa) == user_account_key(
                        provider_name_of(s_old, l.provider_id),
                        l.provider_account_id,
                    ));
                    assert(false);
                } else {
                    lemma_lookup_user_update_other(s_old.users, s_new.users, i, m, l.user_id);
                }
            },
        }
    }
}

/// A point lookup for another identifier is unchanged by an in-place
/// update that keeps the identifier.
proof fn lemma_lookup_user_update_other(
    users_old: Seq<UserV>,
    users_new: Seq<UserV>,
    i: int,
    m: UserV,
    id: u128,
)
    requires
        0 <= i < users_old.len(),
        m.id == users_old[i].id,
        users_new == users_old.update(i, m),
        id != m.id,
    ensures
        lookup_user(users_new, id) == lookup_user(users_old, id),
{
    crate::store::lemma_first_where_pointwise(
        users_old,
        by_user_id(id),
        users_new,
        by_user_id(id),
    );
    lemma_first_where(users_old, by_user_id(id));
    let idx = first_where(users_old, by_user_id(id));
    if idx >= 0 {
        assert(users_old[idx].id == id);
        assert(idx != i);
        assert(users_new[idx] == users_old[idx]);
    }
}

/// Stability of coherence across a user deletion.
proof fn lemma_stable_user_remove(
    s_old: StoreV,
    s_new: StoreV,
    i: int,
    ks: Set<Seq<char>>,
    e: EntryV,
)
    requires
        store_wf(s_old),
        0 <= i < s_old.users.len(),
        s_new.users == s_old.users.remove(i),
        s_new.providers == s_old.providers,
        s_new.links == s_old.links,
        user_keys_cover(s_old, s_old.users[i].id, s_old.users[i].email, None, ks),
        entry_ok(e, s_old),
        !ks.contains(e.key),
    ensures
        entry_ok(e, s_new),
{
    let gone = s_old.users[i];
    assert(e.key != all_users_key());
    assert forall|id: u128| e.key == #[trigger] user_id_key(id) implies e.value == enc_opt_user(
        expected_by_id(s_new, id),
    ) by {
        assert(id != gone.id);
        crate::store::lemma_lookup_where_remove(s_old.users, by_user_id(id), i);
    }
    assert forall|em: Seq<char>| e.key == #[trigger] user_email_key(em) implies e.value
        == enc_opt_user(expected_by_email(s_new, em)) by {
        assert(gone.email != Some(em));
        crate::store::lemma_lookup_where_remove(s_old.users, by_user_email(em), i);
    }
    assert forall|pa: Seq<char>, aa: Seq<char>|
        !pa.contains('|') && e.key == #[trigger] user_account_key(pa, aa) implies account_clean(
        s_new,
        pa,
        aa,
    ) && e.value == enc_opt_user(expected_by_account(s_new, pa, aa)) by {
        assert(account_link_of(s_new, pa, aa) == account_link_of(s_old, pa, aa));
        match account_link_of(s_old, pa, aa) {
            None => {},
            Some(l) => {
                lemma_account_link_props(s_old, pa, aa);
                if l.user_id == gone.id {
                    assert(link_key_covered(s_old, l, ks));
                    assert(false);
                } else {
                    crate::store::lemma_lookup_where_remove(s_old.users, by_user_id(l.user_id), i);
                }
            },
        }
    }
}

impl Client {
    /// Builds a client against the primary store, with the cache and
    /// search collaborators configured when their parameters are
    /// given.  The connection parameters address the deployment; the
    /// engine's behaviour depends only on which collaborators exist
    /// and on the cache TTL.
    #[allow(unused_variables)]
    pub fn try_new(
        dsn: &str,
        username: &str,
        password: &str,
        namespace: &str,
        database: &str,
        redis: Option<(&str, bool, u16, u64)>,
        meilisearch: Option<(&str, Option<&str>)>,
    ) -> (r: Result<Client, ClientError>)
        ensures
            match r {
                Ok(c) => {
                    &&& client_wf(c)
                    &&& c.store@.users =~= Seq::<UserV>::empty()
                    &&& c.store@.providers =~= Seq::<crate::ProviderV>::empty()
                    &&& c.store@.links =~= Seq::<crate::store::LinkV>::empty()
                    &&& c.store@.sessions =~= Seq::<crate::store::SessionEdgeV>::empty()
                    &&& c.store@.tokens =~= Seq::<crate::TokenV>::empty()
                    &&& match (redis, c.cache) {
                        (Some(cfg), Some(cs)) => cs.available && cs.ttl_ms == cfg.3
                            && entries_view(cs) =~= Seq::<EntryV>::empty(),
                        (None, None) => true,
                        _ => false,
                    }
                    &&& match (meilisearch, c.search) {
                        (Some(_), Some(ss)) => !ss.index_ready && ss.accepting
                            && ss.sync_attempts == 0,
                        (None, None) => true,
                        _ => false,
                    }
                },
                Err(_) => false,
            },
    {
        let cache = match redis {
            Some((_, _, _, ttl)) => Some(CacheState::new(ttl)),
            None => None,
        };
        let search = match meilisearch {
            Some(_) => Some(SearchState::new(true)),
            None => None,
        };
        let c = Client { store: Store::new(), cache, search };
        proof {
            if c.cache is Some {
                assert(cache_entries_ok(entries_view(c.cache.unwrap()), c.store@));
            }
        }
        Ok(c)
    }

    /// Makes the cache backend reachable or unreachable.  An
    /// unreachable backend serves nothing, so coherence is trivially
    /// kept; the engine's read contracts do not change.
    pub fn set_cache_available(&mut self, available: bool)
        requires
            client_wf(*old(self)),
        ensures
            client_wf(*final(self)),
            final(self).store == old(self).store,
            final(self).search == old(self).search,
            match (old(self).cache, final(self).cache) {
                (Some(ca), Some(cb)) => cb.available == available && cb.ttl_ms == ca.ttl_ms,
                (None, None) => true,
                _ => false,
            },
    {
        match &mut self.cache {
            Some(cs) => {
                cs.set_available(available);
                proof {
                    if !available && self.cache is Some {
                        assert(cache_entries_ok(entries_view(self.cache.unwrap()), self.store@));
                    }
                }
            },
            None => {},
        }
    }

    /// Point read of a user by identifier: check the cache, fall
    /// through to the primary store on a miss or on an unreachable
    /// cache, repopulate the cache.  The answer is exactly what the
    /// primary store holds, whatever the cache did.
    pub fn get_user_by_id(&mut self, id: &Uid) -> (r: Result<Option<User>, CoreError>)
        requires
            client_wf(*old(self)),
        ensures
            client_wf(*final(self)),
            final(self).store == old(self).store,
            final(self).search == old(self).search,
            cache_config_unchanged(*old(self), *final(self)),
            match r {
                Ok(ou) => opt_view(ou) == expected_by_id(old(self).store@, id.value),
                Err(_) => false,
            },
            match final(self).cache {
                Some(cs) => cs.available ==> cache_lookup(entries_view(cs), user_id_key(id.value))
                    == Some(enc_opt_user(expected_by_id(old(self).store@, id.value))),
                None => true,
            },
            match (old(self).cache, final(self).cache) {
                (Some(cso), Some(cs)) => (cso.available && cache_lookup(
                    entries_view(cso),
                    user_id_key(id.value),
                ) is None) ==> crate::cache::stored_ttl(cs, user_id_key(id.value)) == Some(
                    Some(cs.ttl_ms),
                ),
                _ => true,
            },
    {
        let ghost s = self.store@;
        let ghost shape = CacheKeyV::UserById { id: id.value };
        if self.cache.is_some() {
            let key = (CacheKey::UserById { id }).render();
            let got = match &self.cache {
                Some(cs) => cs.get(&key),
                None => None,
            };
            if let Some(bytes) = got {
                if let Some(ou) = decode_opt_user(&bytes) {
                    proof {
                        let cs = self.cache.unwrap();
                        lemma_cache_hit(entries_view(cs), s, key@, bytes@);
                        lemma_expected_wf(s);
                        assert(bytes@ == enc_opt_user(expected_by_id(s, id.value)));
                    }
                    return Ok(ou);
                }
            }
            let fetched = self.store.get_user(id);
            let bytes2 = encode_opt_user(&fetched);
            let ttl = match &self.cache {
                Some(cs) => cs.ttl_ms,
                None => 0,
            };
            let ghost es_old = entries_view(self.cache.unwrap());
            match &mut self.cache {
                Some(cs) => {
                    cs.set(key, bytes2, Some(ttl));
                },
                None => {},
            }
            proof {
                let cs2 = self.cache.unwrap();
                if cs2.available {
                    lemma_fresh_entry_ok(s, shape, enc_opt_user(expected_by_id(s, id.value)));
                    lemma_entries_ok_after_set(
                        es_old,
                        entries_view(cs2),
                        s,
                        shape,
                        enc_opt_user(expected_by_id(s, id.value)),
                    );
                    lemma_set_then_lookup(
                        es_old,
                        user_id_key(id.value),
                        enc_opt_user(expected_by_id(s, id.value)),
                    );
                }
            }
            Ok(fetched)
        } else {
            Ok(self.store.get_user(id))
        }
    }

    /// Point read of a user by email, cache-aside like
    /// [`Client::get_user_by_id`].
    pub fn get_user_by_email(&mut self, email: &str) -> (r: Result<Option<User>, CoreError>)
        requires
            client_wf(*old(self)),
        ensures
            client_wf(*final(self)),
            final(self).store == old(self).store,
            final(self).search == old(self).search,
            cache_config_unchanged(*old(self), *final(self)),
            match r {
                Ok(ou) => opt_view(ou) == expected_by_email(old(self).store@, email@),
                Err(_) => false,
            },
            match final(self).cache {
                Some(cs) => cs.available ==> cache_lookup(entries_view(cs), user_email_key(email@))
                    == Some(enc_opt_user(expected_by_email(old(self).store@, email@))),
                None => true,
            },
            match (old(self).cache, final(self).cache) {
                (Some(cso), Some(cs)) => (cso.available && cache_lookup(
                    entries_view(cso),
                    user_email_key(email@),
                ) is None) ==> crate::cache::stored_ttl(cs, user_email_key(email@)) == Some(
                    Some(cs.ttl_ms),
                ),
                _ => true,
            },
    {
        let ghost s = self.store@;
        let ghost shape = CacheKeyV::UserByEmail { email: email@ };
        let owned = String::from_str(email);
        if self.cache.is_some() {
            let key = (CacheKey::UserByEmail { email }).render();
            let got = match &self.cache {
                Some(cs) => cs.get(&key),
                None => None,
            };
            if let Some(bytes) = got {
                if let Some(ou) = decode_opt_user(&bytes) {
                    proof {
                        let cs = self.cache.unwrap();
                        lemma_cache_hit(entries_view(cs), s, key@, bytes@);
                        lemma_expected_wf(s);
                        assert(bytes@ == enc_opt_user(expected_by_email(s, email@)));
                    }
                    return Ok(ou);
                }
            }
            let fetched = self.store.get_user_by_email(&owned);
            let bytes2 = encode_opt_user(&fetched);
            let ttl = match &self.cache {
                Some(cs) => cs.ttl_ms,
                None => 0,
            };
            let ghost es_old = entries_view(self.cache.unwrap());
            match &mut self.cache {
                Some(cs) => {
                    cs.set(key, bytes2, Some(ttl));
                },
                None => {},
            }
            proof {
                let cs2 = self.cache.unwrap();
                if cs2.available {
                    lemma_fresh_entry_ok(s, shape, enc_opt_user(expected_by_email(s, email@)));
                    lemma_entries_ok_after_set(
                        es_old,
                        entries_view(cs2),
                        s,
                        shape,
                        enc_opt_user(expected_by_email(s, email@)),
                    );
                    lemma_set_then_lookup(
                        es_old,
                        user_email_key(email@),
                        enc_opt_user(expected_by_email(s, email@)),
                    );
                }
            }
            Ok(fetched)
        } else {
            Ok(self.store.get_user_by_email(&owned))
        }
    }

    /// The account traversal against the primary store alone:
    /// provider by name, link edge by (provider, account), then the
    /// user endpoint.  A link whose user endpoint is gone is upstream
    /// corruption.
    fn account_fetch(&self, provider: &String, account_id: &String) -> (r: Result<
        Option<User>,
        CoreError,
    >)
        requires
            store_wf(self.store@),
        ensures
            match r {
                Ok(ou) => account_clean(self.store@, provider@, account_id@) && opt_view(ou)
                    == expected_by_account(self.store@, provider@, account_id@),
                Err(e) => e == CoreError::Unreachable && !account_clean(
                    self.store@,
                    provider@,
                    account_id@,
                ),
            },
    {
        match self.store.get_provider_by_name(provider) {
            None => Ok(None),
            Some(pr) => {
                match self.store.get_link(&pr.id, account_id) {
                    None => Ok(None),
                    Some(l) => {
                        match self.store.get_user(&l.user_id) {
                            Some(u) => Ok(Some(u)),
                            None => Err(CoreError::Unreachable),
                        }
                    },
                }
            },
        }
    }

    /// Point read of a user by linked account, cache-aside.  Provider
    /// names carrying the key separator `'|'` are served from the
    /// primary store directly: the scheme reserves that character, so
    /// such a name has no collision-free key.
    pub fn get_user_by_account(&mut self, provider: &str, provider_account_id: &str) -> (r: Result<
        Option<User>,
        CoreError,
    >)
        requires
            client_wf(*old(self)),
        ensures
            client_wf(*final(self)),
            final(self).store == old(self).store,
            final(self).search == old(self).search,
            cache_config_unchanged(*old(self), *final(self)),
            match r {
                Ok(ou) => account_clean(old(self).store@, provider@, provider_account_id@)
                    && opt_view(ou) == expected_by_account(
                    old(self).store@,
                    provider@,
                    provider_account_id@,
                ),
                Err(e) => e == CoreError::Unreachable && !account_clean(
                    old(self).store@,
                    provider@,
                    provider_account_id@,
                ),
            },
            (!provider@.contains('|') && r is Ok) ==> match final(self).cache {
                Some(cs) => cs.available ==> cache_lookup(
                    entries_view(cs),
                    user_account_key(provider@, provider_account_id@),
                ) == Some(
                    enc_opt_user(
                        expected_by_account(old(self).store@, provider@, provider_account_id@),
                    ),
                ),
                None => true,
            },
            (!provider@.contains('|') && r is Ok) ==> match (old(self).cache, final(self).cache) {
                (Some(cso), Some(cs)) => (cso.available && cache_lookup(
                    entries_view(cso),
                    user_account_key(provider@, provider_account_id@),
                ) is None) ==> crate::cache::stored_ttl(
                    cs,
                    user_account_key(provider@, provider_account_id@),
                ) == Some(Some(cs.ttl_ms)),
                _ => true,
            },
    {
        let ghost s = self.store@;
        let ghost shape = CacheKeyV::UserByAccount {
            provider: provider@,
            provider_account_id: provider_account_id@,
        };
        let owned_p = String::from_str(provider);
        let owned_a = String::from_str(provider_account_id);
        if contains_char(provider, '|') || self.cache.is_none() {
            return self.account_fetch(&owned_p, &owned_a);
        }
        let key = (CacheKey::UserByAccount { provider, provider_account_id }).render();
        let got = match &self.cache {
            Some(cs) => cs.get(&key),
            None => None,
        };
        if let Some(bytes) = got {
            if let Some(ou) = decode_opt_user(&bytes) {
                proof {
                    let cs = self.cache.unwrap();
                    lemma_cache_hit(entries_view(cs), s, key@, bytes@);
                    lemma_expected_wf(s);
                    assert(bytes@ == enc_opt_user(
                        expected_by_account(s, provider@, provider_account_id@),
                    ));
                }
                return Ok(ou);
            }
        }
        let fetched = match self.account_fetch(&owned_p, &owned_a) {
            Ok(v) => v,
            Err(e) => {
                return Err(e);
            },
        };
        let bytes2 = encode_opt_user(&fetched);
        let ttl = match &self.cache {
            Some(cs) => cs.ttl_ms,
            None => 0,
        };
        let ghost es_old = entries_view(self.cache.unwrap());
        match &mut self.cache {
            Some(cs) => {
                cs.set(key, bytes2, Some(ttl));
            },
            None => {},
        }
        proof {
            let cs2 = self.cache.unwrap();
            if cs2.available {
                lemma_fresh_entry_ok(
                    s,
                    shape,
                    enc_opt_user(expected_by_account(s, provider@, provider_account_id@)),
                );
                lemma_entries_ok_after_set(
                    es_old,
                    entries_view(cs2),
                    s,
                    shape,
                    enc_opt_user(expected_by_account(s, provider@, provider_account_id@)),
                );
                lemma_set_then_lookup(
                    es_old,
                    user_account_key(provider@, provider_account_id@),
                    enc_opt_user(expected_by_account(s, provider@, provider_account_id@)),
                );
            }
        }
        Ok(fetched)
    }

    /// Collection read: all users, cache-aside under the collection
    /// key, then synchronized into the search index when one is
    /// configured.
    pub fn get_users(&mut self) -> (r: Result<Vec<User>, CoreError>)
        requires
            client_wf(*old(self)),
        ensures
            client_wf(*final(self)),
            final(self).store == old(self).store,
            cache_config_unchanged(*old(self), *final(self)),
            search_synced(*old(self), *final(self)),
            match r {
                Ok(us) => seq_view(us@) == old(self).store@.users,
                Err(_) => false,
            },
            match final(self).cache {
                Some(cs) => cs.available ==> cache_lookup(entries_view(cs), all_users_key())
                    == Some(enc_users(old(self).store@.users)),
                None => true,
            },
            match (old(self).cache, final(self).cache) {
                (Some(cso), Some(cs)) => (cso.available && cache_lookup(
                    entries_view(cso),
                    all_users_key(),
                ) is None) ==> crate::cache::stored_ttl(cs, all_users_key()) == Some(
                    None::<u64>,
                ),
                _ => true,
            },
    {
        let ghost s = self.store@;
        let users = self.fetch_all_users();
        match &mut self.search {
            Some(ss) => {
                ss.add_documents(&users);
            },
            None => {},
        }
        Ok(users)
    }

    /// The cache-aside half of a collection read.
    fn fetch_all_users(&mut self) -> (r: Vec<User>)
        requires
            client_wf(*old(self)),
        ensures
            client_wf(*final(self)),
            final(self).store == old(self).store,
            final(self).search == old(self).search,
            cache_config_unchanged(*old(self), *final(self)),
            seq_view(r@) == old(self).store@.users,
            match final(self).cache {
                Some(cs) => cs.available ==> cache_lookup(entries_view(cs), all_users_key())
                    == Some(enc_users(old(self).store@.users)),
                None => true,
            },
            match (old(self).cache, final(self).cache) {
                (Some(cso), Some(cs)) => (cso.available && cache_lookup(
                    entries_view(cso),
                    all_users_key(),
                ) is None) ==> crate::cache::stored_ttl(cs, all_users_key()) == Some(
                    None::<u64>,
                ),
                _ => true,
            },
    {
        let ghost s = self.store@;
        let ghost shape = CacheKeyV::AllUsers;
        if self.cache.is_some() {
            let key = CacheKey::AllUsers.render();
            let got = match &self.cache {
                Some(cs) => cs.get(&key),
                None => None,
            };
            if let Some(bytes) = got {
                if let Some(us) = decode_users(&bytes) {
                    proof {
                        let cs = self.cache.unwrap();
                        lemma_cache_hit(entries_view(cs), s, key@, bytes@);
                        assert(bytes@ == enc_users(s.users));
                    }
                    return us;
                }
            }
            let fetched = self.store.all_users();
            let bytes2 = encode_users(&fetched);
            let ghost es_old = entries_view(self.cache.unwrap());
            match &mut self.cache {
                Some(cs) => {
                    cs.set(key, bytes2, None);
                },
                None => {},
            }
            proof {
                let cs2 = self.cache.unwrap();
                if cs2.available {
                    lemma_fresh_entry_ok(s, shape, enc_users(s.users));
                    lemma_entries_ok_after_set(
                        es_old,
                        entries_view(cs2),
                        s,
                        shape,
                        enc_users(s.users),
                    );
                    lemma_set_then_lookup(es_old, all_users_key(), enc_users(s.users));
                }
            }
            fetched
        } else {
            self.store.all_users()
        }
    }
}

/// How a collection read leaves the search collaborator: absent stays
/// absent; present gets the store's users as documents and becomes
/// ready exactly when it accepts indexing.
pub open spec fn search_synced(before: Client, after: Client) -> bool {
    match (before.search, after.search) {
        (None, None) => true,
        (Some(a), Some(b)) => {
            &&& seq_view(b.docs@) == before.store@.users
            &&& b.accepting == a.accepting
            &&& b.index_ready == (a.index_ready || a.accepting)
            &&& (a.sync_attempts < u64::MAX ==> b.sync_attempts == a.sync_attempts + 1)
        },
        _ => false,
    }
}


/// The user value a creation stores: input fields, a fresh identifier
/// and both timestamps stamped with the creation time.
pub open spec fn created_user_v(u: UserV, id: u128, now: int) -> UserV {
    UserV {
        id,
        username: u.username,
        email: u.email,
        name: u.name,
        avatar: u.avatar,
        user_type: u.user_type,
        phone_number: u.phone_number,
        created: now,
        updated: now,
    }
}

impl Client {
    /// Re-establishes coherence after a store mutation followed by an
    /// invalidation covering every affected key.
    proof fn lemma_after_user_mutation(
        self,
        s_old: StoreV,
        keys: Seq<String>,
        es_old: Seq<EntryV>,
        stable: spec_fn(EntryV) -> bool,
    )
        requires
            self.cache is Some,
            entries_view(self.cache.unwrap()) =~= keep_where(es_old, key_not_in(key_set(keys))),
            cache_entries_ok(es_old, s_old),
            forall|e: EntryV|
                entry_ok(e, s_old) && !key_set(keys).contains(e.key) ==> #[trigger] stable(e),
            forall|e: EntryV| #[trigger] stable(e) ==> entry_ok(e, self.store@),
        ensures
            cache_entries_ok(entries_view(self.cache.unwrap()), self.store@),
    {
        let es_new = entries_view(self.cache.unwrap());
        let q = key_not_in(key_set(keys));
        lemma_keep_where_membership(es_old, q);
        assert forall|i: int|
            0 <= i < es_new.len() implies entry_ok(#[trigger] es_new[i], self.store@) by {
            assert(es_new[i] == keep_where(es_old, q)[i]);
            let j = choose|j: int| 0 <= j < es_old.len() && es_old[j] == es_new[i];
            assert(entry_ok(es_old[j], s_old));
            assert(stable(es_old[j]));
        }
    }

    /// Content create of a user with a caller-chosen identifier and
    /// creation time.  Fails like the primary store does when the
    /// identifier is already taken; otherwise stores the input with
    /// both timestamps stamped and invalidates the collection key, the
    /// by-id key and the email key of the new user.
    pub fn create_user_with(&mut self, user: &User, id: Uid, now: i64) -> (r: Result<
        User,
        CoreError,
    >)
        requires
            client_wf(*old(self)),
        ensures
            client_wf(*final(self)),
            cache_config_unchanged(*old(self), *final(self)),
            final(self).search == old(self).search,
            ({
                let s = old(self).store@;
                if expected_by_id(s, id.value) is Some {
                    &&& r is Err
                    &&& final(self).store == old(self).store
                    &&& final(self).cache == old(self).cache
                } else {
                    let nu = created_user_v(user@, id.value, now as int);
                    &&& r is Ok
                    &&& r.unwrap()@ == nu
                    &&& final(self).store@.users =~= s.users.push(nu)
                    &&& final(self).store@.providers == s.providers
                    &&& final(self).store@.links == s.links
                    &&& final(self).store@.sessions == s.sessions
                    &&& final(self).store@.tokens == s.tokens
                }
            }),
    {
        let ghost s_old = self.store@;
        if self.store.get_user(&id).is_some() {
            return Err(CoreError::Database(String::from_str("record identifier already taken")));
        }
        let new_user = User {
            id,
            username: user.username.clone(),
            email: crate::clone_opt_string(&user.email),
            name: crate::clone_opt_string(&user.name),
            avatar: crate::clone_opt_string(&user.avatar),
            user_type: user.user_type,
            phone_number: crate::clone_opt_string(&user.phone_number),
            created: now,
            updated: now,
        };
        crate::codec::user_wf_witness(&new_user);
        let ret = new_user.duplicate();
        let keys = invalidation_keys_for_user(&self.store, &id, &None, &new_user.email);
        proof {
            assert(new_user@ == created_user_v(user@, id.value, now as int));
        }
        self.store.insert_user(new_user);
        let ghost s_new = self.store@;
        let ghost es_old = if self.cache is Some {
            entries_view(self.cache.unwrap())
        } else {
            Seq::<EntryV>::empty()
        };
        match &mut self.cache {
            Some(cs) => {
                cs.del_keys(&keys);
            },
            None => {},
        }
        proof {
            let nu = created_user_v(user@, id.value, now as int);
            assert forall|j: int|
                0 <= j < s_new.users.len() implies user_v_wf(#[trigger] s_new.users[j]) by {
                if j < s_old.users.len() {
                    assert(s_new.users[j] == s_old.users[j]);
                }
            }
            if self.cache is Some {
                let ghost stable = |e: EntryV| entry_ok(e, s_new);
                assert forall|e: EntryV|
                    entry_ok(e, s_old) && !key_set(keys@).contains(e.key) implies #[trigger] stable(
                    e,
                ) by {
                    lemma_stable_user_create(s_old, s_new, nu, key_set(keys@), e);
                }
                self.lemma_after_user_mutation(s_old, keys@, es_old, stable);
            }
        }
        Ok(ret)
    }

    /// Content create of a user: the engine assigns a fresh
    /// time-ordered version-7 identifier and stamps the timestamps
    /// with the wall clock.
    pub fn create_user(&mut self, user: &User) -> (r: Result<User, CoreError>)
        requires
            client_wf(*old(self)),
        ensures
            client_wf(*final(self)),
            cache_config_unchanged(*old(self), *final(self)),
            final(self).search == old(self).search,
            match r {
                Ok(u) => exists|id: u128, now: int|
                    {
                        &&& expected_by_id(old(self).store@, id) is None
                        &&& u@ == #[trigger] created_user_v(user@, id, now)
                        &&& (u@.id >> 76) & 0xf == 7
                        &&& final(self).store@.users =~= old(self).store@.users.push(u@)
                        &&& final(self).store@.providers == old(self).store@.providers
                        &&& final(self).store@.links == old(self).store@.links
                        &&& final(self).store@.sessions == old(self).store@.sessions
                        &&& final(self).store@.tokens == old(self).store@.tokens
                    },
                Err(_) => final(self).store == old(self).store && final(self).cache == old(
                    self,
                ).cache,
            },
    {
        let id = crate::sys::fresh_v7_id();
        let now = crate::sys::now_unix_seconds();
        let r = self.create_user_with(user, id, now);
        match r {
            Ok(u) => {
                proof {
                    assert(u@ == created_user_v(user@, id.value, now as int));
                }
                Ok(u)
            },
            Err(e) => Err(e),
        }
    }

    /// Content/merge update of a user: replaceable fields come from
    /// the input, the update time is stamped with `now`, and every
    /// key derivable from the old and new field values — plus the
    /// by-account key of every link to the user — is invalidated.
    pub fn update_user_at(&mut self, id: &Uid, data: &User, now: i64) -> (r: Result<
        Option<User>,
        CoreError,
    >)
        requires
            client_wf(*old(self)),
        ensures
            client_wf(*final(self)),
            cache_config_unchanged(*old(self), *final(self)),
            final(self).search == old(self).search,
            ({
                let s = old(self).store@;
                let i = first_where(s.users, by_user_id(id.value));
                if i < 0 {
                    &&& r is Ok
                    &&& r.unwrap() is None
                    &&& final(self).store == old(self).store
                    &&& final(self).cache == old(self).cache
                } else {
                    let m = crate::store::merged_user(s.users[i], data@, now as int);
                    &&& r is Ok
                    &&& opt_view(r.unwrap()) == Some(m)
                    &&& final(self).store@.users =~= s.users.update(i, m)
                    &&& final(self).store@.providers == s.providers
                    &&& final(self).store@.links == s.links
                    &&& final(self).store@.sessions == s.sessions
                    &&& final(self).store@.tokens == s.tokens
                    &&& match final(self).cache {
                        Some(cs) => {
                            &&& cache_lookup(entries_view(cs), all_users_key()) is None
                            &&& cache_lookup(entries_view(cs), user_id_key(id.value)) is None
                            &&& (s.users[i].email matches Some(a) ==> cache_lookup(
                                entries_view(cs),
                                user_email_key(a),
                            ) is None)
                            &&& (m.email matches Some(b) ==> cache_lookup(
                                entries_view(cs),
                                user_email_key(b),
                            ) is None)
                        },
                        None => true,
                    }
                }
            }),
    {
        let ghost s_old = self.store@;
        let old_user = match self.store.get_user(id) {
            None => {
                return Ok(None);
            },
            Some(u) => u,
        };
        crate::codec::user_wf_witness(data);
        let keys = invalidation_keys_for_user(&self.store, id, &old_user.email, &data.email);
        let updated = self.store.update_user(id, data, now);
        let ghost s_new = self.store@;
        let ghost i = first_where(s_old.users, by_user_id(id.value));
        let ghost m = crate::store::merged_user(s_old.users[i], data@, now as int);
        let ghost es_old = if self.cache is Some {
            entries_view(self.cache.unwrap())
        } else {
            Seq::<EntryV>::empty()
        };
        match &mut self.cache {
            Some(cs) => {
                cs.del_keys(&keys);
            },
            None => {},
        }
        proof {
            lemma_first_where(s_old.users, by_user_id(id.value));
            assert(old_user@ == s_old.users[i]);
            assert forall|j: int|
                0 <= j < s_new.users.len() implies user_v_wf(#[trigger] s_new.users[j]) by {
                if j != i {
                    assert(s_new.users[j] == s_old.users[j]);
                } else {
                    assert(s_new.users[j] == m);
                }
            }
            if self.cache is Some {
                let ghost stable = |e: EntryV| entry_ok(e, s_new);
                assert forall|e: EntryV|
                    entry_ok(e, s_old) && !key_set(keys@).contains(e.key) implies #[trigger] stable(
                    e,
                ) by {
                    lemma_stable_user_update(s_old, s_new, i, m, key_set(keys@), e);
                }
                self.lemma_after_user_mutation(s_old, keys@, es_old, stable);
                lemma_invalidated_key_gone(es_old, key_set(keys@), all_users_key());
                lemma_invalidated_key_gone(es_old, key_set(keys@), user_id_key(id.value));
                if s_old.users[i].email is Some {
                    lemma_invalidated_key_gone(
                        es_old,
                        key_set(keys@),
                        user_email_key(s_old.users[i].email.unwrap()),
                    );
                }
                if m.email is Some {
                    lemma_invalidated_key_gone(
                        es_old,
                        key_set(keys@),
                        user_email_key(m.email.unwrap()),
                    );
                }
            }
        }
        Ok(updated)
    }

    /// Content/merge update of a user, stamping the wall clock.
    pub fn update_user(&mut self, id: &Uid, data: &User) -> (r: Result<Option<User>, CoreError>)
        requires
            client_wf(*old(self)),
        ensures
            client_wf(*final(self)),
            cache_config_unchanged(*old(self), *final(self)),
            final(self).search == old(self).search,
            ({
                let s = old(self).store@;
                let i = first_where(s.users, by_user_id(id.value));
                if i < 0 {
                    &&& r is Ok
                    &&& r.unwrap() is None
                    &&& final(self).store == old(self).store
                    &&& final(self).cache == old(self).cache
                } else {
                    exists|now: int|
                        {
                            let m = #[trigger] crate::store::merged_user(s.users[i], data@, now);
                            &&& r is Ok
                            &&& opt_view(r.unwrap()) == Some(m)
                            &&& final(self).store@.users =~= s.users.update(i, m)
                            &&& final(self).store@.providers == s.providers
                            &&& final(self).store@.links == s.links
                            &&& final(self).store@.sessions == s.sessions
                            &&& final(self).store@.tokens == s.tokens
                        }
                }
            }),
    {
        let now = crate::sys::now_unix_seconds();
        let r = self.update_user_at(id, data, now);
        proof {
            let s = old(self).store@;
            let i = first_where(s.users, by_user_id(id.value));
            if i >= 0 {
                let m = crate::store::merged_user(s.users[i], data@, now as int);
                assert(m == crate::store::merged_user(s.users[i], data@, now as int));
            }
        }
        r
    }

    /// Delete of a user, returning the last-known value and
    /// invalidating every key that could still name it.  Link and
    /// session edges are left untouched, as the primary store leaves
    /// them; a later account read through a dangling link reports the
    /// corruption.
    pub fn delete_user(&mut self, id: &Uid) -> (r: Result<Option<User>, CoreError>)
        requires
            client_wf(*old(self)),
        ensures
            client_wf(*final(self)),
            cache_config_unchanged(*old(self), *final(self)),
            final(self).search == old(self).search,
            ({
                let s = old(self).store@;
                let i = first_where(s.users, by_user_id(id.value));
                if i < 0 {
                    &&& r is Ok
                    &&& r.unwrap() is None
                    &&& final(self).store == old(self).store
                    &&& final(self).cache == old(self).cache
                } else {
                    &&& r is Ok
                    &&& opt_view(r.unwrap()) == Some(s.users[i])
                    &&& final(self).store@.users =~= s.users.remove(i)
                    &&& final(self).store@.providers == s.providers
                    &&& final(self).store@.links == s.links
                    &&& final(self).store@.sessions == s.sessions
                    &&& final(self).store@.tokens == s.tokens
                }
            }),
    {
        let ghost s_old = self.store@;
        let old_user = match self.store.get_user(id) {
            None => {
                return Ok(None);
            },
            Some(u) => u,
        };
        let keys = invalidation_keys_for_user(&self.store, id, &old_user.email, &None);
        let removed = self.store.remove_user(id);
        let ghost s_new = self.store@;
        let ghost i = first_where(s_old.users, by_user_id(id.value));
        let ghost es_old = if self.cache is Some {
            entries_view(self.cache.unwrap())
        } else {
            Seq::<EntryV>::empty()
        };
        match &mut self.cache {
            Some(cs) => {
                cs.del_keys(&keys);
            },
            None => {},
        }
        proof {
            lemma_first_where(s_old.users, by_user_id(id.value));
            assert(old_user@ == s_old.users[i]);
            assert forall|j: int|
                0 <= j < s_new.users.len() implies user_v_wf(#[trigger] s_new.users[j]) by {
                let j0 = if j < i {
                    j
                } else {
                    j + 1
                };
                assert(s_new.users[j] == s_old.users[j0]);
            }
            if self.cache is Some {
                let ghost stable = |e: EntryV| entry_ok(e, s_new);
                assert forall|e: EntryV|
                    entry_ok(e, s_old) && !key_set(keys@).contains(e.key) implies #[trigger] stable(
                    e,
                ) by {
                    lemma_stable_user_remove(s_old, s_new, i, key_set(keys@), e);
                }
                self.lemma_after_user_mutation(s_old, keys@, es_old, stable);
            }
        }
        Ok(removed)
    }
}


/// A provider node value.
pub open spec fn provider_v(id: u128, name: Seq<char>) -> crate::ProviderV {
    crate::ProviderV { id, name }
}

/// Stability of coherence across a link creation, with or without a
/// freshly created provider node.
proof fn lemma_stable_link_insert(
    s_old: StoreV,
    s_new: StoreV,
    pr_new: Option<crate::ProviderV>,
    l_new: crate::store::LinkV,
    ks: Set<Seq<char>>,
    e: EntryV,
)
    requires
        store_wf(s_old),
        store_wf(s_new),
        s_new.users == s_old.users,
        s_new.links == s_old.links.push(l_new),
        match pr_new {
            None => s_new.providers == s_old.providers && lookup_provider_by_id(
                s_old.providers,
                l_new.provider_id,
            ) is Some,
            Some(pr) => s_new.providers == s_old.providers.push(pr) && pr.id == l_new.provider_id
                && lookup_provider_by_name(s_old.providers, pr.name) is None
                && lookup_provider_by_id(s_old.providers, pr.id) is None,
        },
        lookup_link(s_old.links, l_new.provider_id, l_new.provider_account_id) is None,
        !provider_name_of(s_new, l_new.provider_id).contains('|') ==> ks.contains(
            user_account_key(
                provider_name_of(s_new, l_new.provider_id),
                l_new.provider_account_id,
            ),
        ),
        entry_ok(e, s_old),
        !ks.contains(e.key),
    ensures
        entry_ok(e, s_new),
{
    assert forall|pa: Seq<char>, aa: Seq<char>|
        !pa.contains('|') && e.key == #[trigger] user_account_key(pa, aa) implies account_clean(
        s_new,
        pa,
        aa,
    ) && e.value == enc_opt_user(expected_by_account(s_new, pa, aa)) by {
        match pr_new {
            None => {
                assert(lookup_provider_by_name(s_new.providers, pa) == lookup_provider_by_name(
                    s_old.providers,
                    pa,
                ));
            },
            Some(pr) => {
                crate::store::lemma_lookup_where_push(s_old.providers, by_provider_name(pa), pr);
            },
        }
        match lookup_provider_by_name(s_old.providers, pa) {
            Some(pr0) => {
                assert(lookup_provider_by_name(s_new.providers, pa) == Some(pr0));
                crate::store::lemma_lookup_where_push(
                    s_old.links,
                    crate::store::by_link_pair(pr0.id, aa),
                    l_new,
                );
                match lookup_link(s_old.links, pr0.id, aa) {
                    Some(l0) => {
                        assert(account_link_of(s_new, pa, aa) == Some(l0));
                    },
                    None => {
                        if l_new.provider_id == pr0.id && l_new.provider_account_id == aa {
                            lemma_first_where(s_old.providers, by_provider_name(pa));
                            let jp = first_where(s_old.providers, by_provider_name(pa));
                            assert(s_old.providers.contains(s_old.providers[jp]));
                            assert(s_new.providers.len() >= s_old.providers.len());
                            assert forall|m: int|
                                0 <= m < s_old.providers.len() implies #[trigger] s_new.providers[m]
                                == s_old.providers[m] by {}
                            assert(s_new.providers.contains(pr0)) by {
                                assert(s_new.providers[jp] == pr0);
                            }
                            lemma_provider_consistent(s_new, pr0);
                            assert(provider_name_of(s_new, l_new.provider_id) == pa);
                            assert(false);
                        } else {
                            assert(account_link_of(s_new, pa, aa) is None);
                        }
                    },
                }
            },
            None => {
                match pr_new {
                    None => {
                        assert(account_link_of(s_new, pa, aa) is None);
                    },
                    Some(pr) => {
                        if pa == pr.name {
                            lemma_no_link_for_unknown_provider(s_old, pr.id, aa);
                            assert(lookup_link(s_old.links, pr.id, aa) is None);
                            crate::store::lemma_lookup_where_push(
                                s_old.links,
                                crate::store::by_link_pair(pr.id, aa),
                                l_new,
                            );
                            if l_new.provider_id == pr.id && l_new.provider_account_id == aa {
                                assert(s_new.providers.contains(pr)) by {
                                    assert(s_new.providers[s_new.providers.len() - 1] == pr);
                                }
                                lemma_provider_consistent(s_new, pr);
                                assert(provider_name_of(s_new, l_new.provider_id) == pr.name);
                                assert(false);
                            } else {
                                assert(account_link_of(s_new, pa, aa) is None);
                            }
                        } else {
                            assert(account_link_of(s_new, pa, aa) is None);
                        }
                    },
                }
            },
        }
    }
}

/// Stability of coherence across a link removal.
proof fn lemma_stable_link_remove(
    s_old: StoreV,
    s_new: StoreV,
    i: int,
    ks: Set<Seq<char>>,
    e: EntryV,
)
    requires
        store_wf(s_old),
        0 <= i < s_old.links.len(),
        s_new.users == s_old.users,
        s_new.providers == s_old.providers,
        s_new.links == s_old.links.remove(i),
        !provider_name_of(s_old, s_old.links[i].provider_id).contains('|') ==> ks.contains(
            user_account_key(
                provider_name_of(s_old, s_old.links[i].provider_id),
                s_old.links[i].provider_account_id,
            ),
        ),
        entry_ok(e, s_old),
        !ks.contains(e.key),
    ensures
        entry_ok(e, s_new),
{
    let gone = s_old.links[i];
    assert forall|pa: Seq<char>, aa: Seq<char>|
        !pa.contains('|') && e.key == #[trigger] user_account_key(pa, aa) implies account_clean(
        s_new,
        pa,
        aa,
    ) && e.value == enc_opt_user(expected_by_account(s_new, pa, aa)) by {
        match lookup_provider_by_name(s_old.providers, pa) {
            None => {},
            Some(pr0) => {
                lemma_first_where(s_old.providers, by_provider_name(pa));
                let jp = first_where(s_old.providers, by_provider_name(pa));
                assert(s_old.providers.contains(s_old.providers[jp]));
                lemma_provider_consistent(s_old, pr0);
                if gone.provider_id == pr0.id && gone.provider_account_id == aa {
                    assert(provider_name_of(s_old, gone.provider_id) == pa);
                    assert(false);
                } else {
                    crate::store::lemma_lookup_where_remove(
                        s_old.links,
                        crate::store::by_link_pair(pr0.id, aa),
                        i,
                    );
                }
            },
        }
    }
}

impl Client {
    /// Links an external account to a user, with a caller-chosen
    /// identifier for the provider node should one need creating.
    /// Linking an already-linked (provider, account) pair changes
    /// nothing, so the operation is idempotent; a provider node is
    /// created at most once per distinct name.
    pub fn link_account_with(
        &mut self,
        provider: &str,
        provider_account_id: &str,
        user_id: &Uid,
        new_provider_id: Uid,
    ) -> (r: Result<(), CoreError>)
        requires
            client_wf(*old(self)),
        ensures
            client_wf(*final(self)),
            cache_config_unchanged(*old(self), *final(self)),
            final(self).search == old(self).search,
            final(self).store@.users == old(self).store@.users,
            final(self).store@.sessions == old(self).store@.sessions,
            final(self).store@.tokens == old(self).store@.tokens,
            ({
                let s = old(self).store@;
                match lookup_provider_by_name(s.providers, provider@) {
                    Some(pr) => {
                        if lookup_link(s.links, pr.id, provider_account_id@) is Some {
                            &&& r is Ok
                            &&& final(self).store == old(self).store
                            &&& final(self).cache == old(self).cache
                        } else {
                            &&& r is Ok
                            &&& final(self).store@.providers == s.providers
                            &&& final(self).store@.links =~= s.links.push(
                                crate::store::LinkV {
                                    provider_id: pr.id,
                                    user_id: user_id.value,
                                    provider_account_id: provider_account_id@,
                                },
                            )
                        }
                    },
                    None => {
                        if lookup_provider_by_id(s.providers, new_provider_id.value) is Some {
                            &&& r is Err
                            &&& final(self).store == old(self).store
                            &&& final(self).cache == old(self).cache
                        } else {
                            &&& r is Ok
                            &&& final(self).store@.providers =~= s.providers.push(
                                crate::ProviderV { id: new_provider_id.value, name: provider@ },
                            )
                            &&& final(self).store@.links =~= s.links.push(
                                crate::store::LinkV {
                                    provider_id: new_provider_id.value,
                                    user_id: user_id.value,
                                    provider_account_id: provider_account_id@,
                                },
                            )
                        }
                    },
                }
            }),
    {
        let ghost s_old = self.store@;
        let owned_p = String::from_str(provider);
        let owned_a = String::from_str(provider_account_id);
        let wf_name = !contains_char(provider, '|');
        match self.store.get_provider_by_name(&owned_p) {
            Some(pr) => {
                if self.store.get_link(&pr.id, &owned_a).is_some() {
                    return Ok(());
                }
                proof {
                    lemma_first_where(s_old.providers, by_provider_name(provider@));
                    let jp = first_where(s_old.providers, by_provider_name(provider@));
                    assert(s_old.providers.contains(s_old.providers[jp]));
                    lemma_provider_consistent(s_old, pr@);
                }
                let edge = crate::store::LinkEdge {
                    provider_id: pr.id,
                    user_id: *user_id,
                    provider_account_id: owned_a,
                };
                let ghost lv = edge@;
                self.store.insert_link(edge);
                let ghost s_new = self.store@;
                let keys = self.account_invalidation_keys(wf_name, provider, provider_account_id);
                let ghost es_old = if self.cache is Some {
                    entries_view(self.cache.unwrap())
                } else {
                    Seq::<EntryV>::empty()
                };
                match &mut self.cache {
                    Some(cs) => {
                        cs.del_keys(&keys);
                    },
                    None => {},
                }
                proof {
                    if self.cache is Some {
                        assert(provider_name_of(s_new, lv.provider_id) == provider@);
                        let ghost stable = |e: EntryV| entry_ok(e, s_new);
                        assert forall|e: EntryV|
                            entry_ok(e, s_old) && !key_set(keys@).contains(
                                e.key,
                            ) implies #[trigger] stable(e) by {
                            lemma_stable_link_insert(s_old, s_new, None, lv, key_set(keys@), e);
                        }
                        self.lemma_after_user_mutation(s_old, keys@, es_old, stable);
                    }
                }
                Ok(())
            },
            None => {
                if self.store.get_provider_by_id(&new_provider_id).is_some() {
                    return Err(
                        CoreError::Database(
                            String::from_str("record identifier already taken"),
                        ),
                    );
                }
                let node = crate::AccountProvider { id: new_provider_id, name: owned_p };
                let ghost prv = node@;
                self.store.insert_provider(node);
                proof {
                    crate::store::lemma_lookup_where_push(
                        s_old.providers,
                        by_provider_id(new_provider_id.value),
                        prv,
                    );
                    lemma_no_link_for_unknown_provider(
                        s_old,
                        new_provider_id.value,
                        owned_a@,
                    );
                }
                let edge = crate::store::LinkEdge {
                    provider_id: new_provider_id,
                    user_id: *user_id,
                    provider_account_id: owned_a,
                };
                let ghost lv = edge@;
                self.store.insert_link(edge);
                let ghost s_new = self.store@;
                let keys = self.account_invalidation_keys(wf_name, provider, provider_account_id);
                let ghost es_old = if self.cache is Some {
                    entries_view(self.cache.unwrap())
                } else {
                    Seq::<EntryV>::empty()
                };
                match &mut self.cache {
                    Some(cs) => {
                        cs.del_keys(&keys);
                    },
                    None => {},
                }
                proof {
                    if self.cache is Some {
                        assert(s_new.providers.contains(prv)) by {
                            assert(s_new.providers[s_new.providers.len() - 1] == prv);
                        }
                        lemma_provider_consistent(s_new, prv);
                        assert(provider_name_of(s_new, lv.provider_id) == provider@);
                        let ghost stable = |e: EntryV| entry_ok(e, s_new);
                        assert forall|e: EntryV|
                            entry_ok(e, s_old) && !key_set(keys@).contains(
                                e.key,
                            ) implies #[trigger] stable(e) by {
                            lemma_stable_link_insert(
                                s_old,
                                s_new,
                                Some(prv),
                                lv,
                                key_set(keys@),
                                e,
                            );
                        }
                        self.lemma_after_user_mutation(s_old, keys@, es_old, stable);
                    }
                }
                Ok(())
            },
        }
    }

    /// The key set an account link or unlink invalidates: the
    /// by-account key, when the provider name admits one.
    fn account_invalidation_keys(&self, wf_name: bool, provider: &str, provider_account_id: &str)
        -> (r: Vec<String>)
        requires
            wf_name == !provider@.contains('|'),
        ensures
            !provider@.contains('|') ==> key_set(r@).contains(
                user_account_key(provider@, provider_account_id@),
            ),
    {
        let mut out: Vec<String> = Vec::new();
        if wf_name {
            let ghost b0 = out@;
            out.push((CacheKey::UserByAccount { provider, provider_account_id }).render());
            proof {
                lemma_key_set_snoc(out@);
                assert(out@.drop_last() =~= b0);
            }
        }
        out
    }

    /// Links an external account, creating the provider node with a
    /// fresh identifier when its name is new.
    pub fn link_account(&mut self, provider: &str, provider_account_id: &str, user_id: &Uid) -> (r:
        Result<(), CoreError>)
        requires
            client_wf(*old(self)),
        ensures
            client_wf(*final(self)),
            cache_config_unchanged(*old(self), *final(self)),
            final(self).search == old(self).search,
            final(self).store@.users == old(self).store@.users,
            final(self).store@.sessions == old(self).store@.sessions,
            final(self).store@.tokens == old(self).store@.tokens,
            ({
                let s = old(self).store@;
                match lookup_provider_by_name(s.providers, provider@) {
                    Some(pr) => {
                        if lookup_link(s.links, pr.id, provider_account_id@) is Some {
                            &&& r is Ok
                            &&& final(self).store == old(self).store
                        } else {
                            &&& r is Ok
                            &&& final(self).store@.providers == s.providers
                            &&& final(self).store@.links =~= s.links.push(
                                crate::store::LinkV {
                                    provider_id: pr.id,
                                    user_id: user_id.value,
                                    provider_account_id: provider_account_id@,
                                },
                            )
                        }
                    },
                    None => {
                        &&& (r is Ok ==> exists|fresh: u128|
                            {
                                &&& final(self).store@.providers =~= s.providers.push(
                                    #[trigger] provider_v(fresh, provider@),
                                )
                                &&& final(self).store@.links =~= s.links.push(
                                    crate::store::LinkV {
                                        provider_id: fresh,
                                        user_id: user_id.value,
                                        provider_account_id: provider_account_id@,
                                    },
                                )
                            })
                        &&& (r is Err ==> final(self).store == old(self).store)
                    },
                }
            }),
    {
        let ghost s_old = self.store@;
        let fresh = crate::sys::fresh_v7_id();
        let r = self.link_account_with(provider, provider_account_id, user_id, fresh);
        proof {
            if lookup_provider_by_name(s_old.providers, provider@) is None && r is Ok {
                assert(self.store@.providers =~= s_old.providers.push(
                    provider_v(fresh.value, provider@),
                ));
            }
        }
        r
    }

    /// Unlinks an external account: deletes the link edge for the
    /// (provider, account) pair, if any, and invalidates its
    /// by-account key.
    pub fn unlink_account(&mut self, provider: &str, provider_account_id: &str) -> (r: Result<
        (),
        CoreError,
    >)
        requires
            client_wf(*old(self)),
        ensures
            client_wf(*final(self)),
            cache_config_unchanged(*old(self), *final(self)),
            final(self).search == old(self).search,
            final(self).store@.users == old(self).store@.users,
            final(self).store@.providers == old(self).store@.providers,
            final(self).store@.sessions == old(self).store@.sessions,
            final(self).store@.tokens == old(self).store@.tokens,
            r is Ok,
            ({
                let s = old(self).store@;
                match lookup_provider_by_name(s.providers, provider@) {
                    None => final(self).store == old(self).store,
                    Some(pr) => {
                        let i = first_where(
                            s.links,
                            crate::store::by_link_pair(pr.id, provider_account_id@),
                        );
                        if i < 0 {
                            final(self).store@.links == s.links
                        } else {
                            final(self).store@.links =~= s.links.remove(i)
                        }
                    },
                }
            }),
    {
        let ghost s_old = self.store@;
        let owned_p = String::from_str(provider);
        let owned_a = String::from_str(provider_account_id);
        let wf_name = !contains_char(provider, '|');
        match self.store.get_provider_by_name(&owned_p) {
            None => Ok(()),
            Some(pr) => {
                proof {
                    lemma_first_where(s_old.providers, by_provider_name(provider@));
                    let jp = first_where(s_old.providers, by_provider_name(provider@));
                    assert(s_old.providers.contains(s_old.providers[jp]));
                    lemma_provider_consistent(s_old, pr@);
                }
                let ghost i = first_where(
                    s_old.links,
                    crate::store::by_link_pair(pr.id.value, provider_account_id@),
                );
                self.store.remove_link(&pr.id, &owned_a);
                let ghost s_new = self.store@;
                let keys = self.account_invalidation_keys(wf_name, provider, provider_account_id);
                let ghost es_old = if self.cache is Some {
                    entries_view(self.cache.unwrap())
                } else {
                    Seq::<EntryV>::empty()
                };
                match &mut self.cache {
                    Some(cs) => {
                        cs.del_keys(&keys);
                    },
                    None => {},
                }
                proof {
                    if self.cache is Some {
                        let ghost stable = |e: EntryV| entry_ok(e, s_new);
                        assert forall|e: EntryV|
                            entry_ok(e, s_old) && !key_set(keys@).contains(
                                e.key,
                            ) implies #[trigger] stable(e) by {
                            if i >= 0 {
                                lemma_first_where(
                                    s_old.links,
                                    crate::store::by_link_pair(pr.id.value, provider_account_id@),
                                );
                                assert(provider_name_of(s_old, s_old.links[i].provider_id)
                                    == provider@);
                                lemma_stable_link_remove(s_old, s_new, i, key_set(keys@), e);
                            } else {
                                assert(entry_ok(e, s_new));
                            }
                        }
                        self.lemma_after_user_mutation(s_old, keys@, es_old, stable);
                    }
                }
                Ok(())
            },
        }
    }
}


/// The domain session a session edge denotes, its provider endpoint
/// resolved.
pub open spec fn session_of_edge(s: StoreV, e: crate::store::SessionEdgeV) -> crate::SessionV {
    crate::SessionV {
        expires_at: e.expires_at,
        session_token: e.session_token,
        account_provider: lookup_provider_by_id(s.providers, e.provider_id).unwrap(),
        user_id: e.user_id,
    }
}

pub open spec fn edge_to_session(s: StoreV) -> spec_fn(crate::store::SessionEdgeV) -> crate::SessionV {
    |e: crate::store::SessionEdgeV| session_of_edge(s, e)
}

impl Client {
    /// Sessions and verification tokens leave every cached answer
    /// alone: coherence only watches users, providers and links.
    proof fn lemma_session_mutation_keeps_cache(self, s_old: StoreV)
        requires
            self.store@.users == s_old.users,
            self.store@.providers == s_old.providers,
            self.store@.links == s_old.links,
            match self.cache {
                Some(cs) => cache_entries_ok(entries_view(cs), s_old),
                None => true,
            },
        ensures
            match self.cache {
                Some(cs) => cache_entries_ok(entries_view(cs), self.store@),
                None => true,
            },
    {
        if self.cache is Some {
            lemma_entries_ok_same(entries_view(self.cache.unwrap()), s_old, self.store@);
        }
    }

    /// Creates a session edge between the user and the provider named
    /// in the input.  When no provider node bears that name, nothing
    /// is created — the session silently does not come to exist, as
    /// the primary store behaves.
    pub fn create_session(&mut self, session: &crate::Session) -> (r: Result<(), CoreError>)
        requires
            client_wf(*old(self)),
        ensures
            client_wf(*final(self)),
            final(self).cache == old(self).cache,
            final(self).search == old(self).search,
            final(self).store@.users == old(self).store@.users,
            final(self).store@.providers == old(self).store@.providers,
            final(self).store@.links == old(self).store@.links,
            final(self).store@.tokens == old(self).store@.tokens,
            r is Ok,
            ({
                let s = old(self).store@;
                match lookup_provider_by_name(s.providers, session@.account_provider.name) {
                    None => final(self).store@.sessions == s.sessions,
                    Some(pr) => final(self).store@.sessions =~= s.sessions.push(
                        crate::store::SessionEdgeV {
                            user_id: session@.user_id,
                            provider_id: pr.id,
                            session_token: session@.session_token,
                            expires_at: session@.expires_at,
                        },
                    ),
                }
            }),
    {
        let ghost s_old = self.store@;
        match self.store.get_provider_by_name(&session.account_provider.name) {
            None => Ok(()),
            Some(pr) => {
                proof {
                    lemma_first_where(
                        s_old.providers,
                        by_provider_name(session@.account_provider.name),
                    );
                    let jp = first_where(
                        s_old.providers,
                        by_provider_name(session@.account_provider.name),
                    );
                    assert(s_old.providers.contains(s_old.providers[jp]));
                    lemma_provider_consistent(s_old, pr@);
                }
                let edge = crate::store::SessionEdge {
                    user_id: session.user_id,
                    provider_id: pr.id,
                    session_token: session.session_token.clone(),
                    expires_at: session.expires_at,
                };
                self.store.insert_session(edge);
                proof {
                    self.lemma_session_mutation_keeps_cache(s_old);
                }
                Ok(())
            },
        }
    }

    /// Merge update of the session with the given token: only the
    /// expiry changes; the updated session is returned with its
    /// provider endpoint resolved.
    pub fn update_session(&mut self, id: &str, expires_at: i64) -> (r: Result<
        Option<crate::Session>,
        CoreError,
    >)
        requires
            client_wf(*old(self)),
        ensures
            client_wf(*final(self)),
            final(self).cache == old(self).cache,
            final(self).search == old(self).search,
            final(self).store@.users == old(self).store@.users,
            final(self).store@.providers == old(self).store@.providers,
            final(self).store@.links == old(self).store@.links,
            final(self).store@.tokens == old(self).store@.tokens,
            ({
                let s = old(self).store@;
                let i = first_where(s.sessions, crate::store::by_session_token(id@));
                if i < 0 {
                    &&& r is Ok
                    &&& r.unwrap() is None
                    &&& final(self).store == old(self).store
                } else {
                    let m = crate::store::SessionEdgeV {
                        expires_at: expires_at as int,
                        ..s.sessions[i]
                    };
                    &&& r is Ok
                    &&& opt_view(r.unwrap()) == Some(session_of_edge(final(self).store@, m))
                    &&& final(self).store@.sessions =~= s.sessions.update(i, m)
                }
            }),
    {
        let ghost s_old = self.store@;
        let owned = String::from_str(id);
        match self.store.set_session_expiry(&owned, expires_at) {
            None => Ok(None),
            Some(edge) => {
                let ghost i = first_where(s_old.sessions, crate::store::by_session_token(id@));
                proof {
                    self.lemma_session_mutation_keeps_cache(s_old);
                    lemma_first_where(s_old.sessions, crate::store::by_session_token(id@));
                    assert(self.store@.sessions[i] == edge@);
                }
                match self.store.get_provider_by_id(&edge.provider_id) {
                    Some(pr) => {
                        Ok(
                            Some(
                                crate::Session {
                                    expires_at: edge.expires_at,
                                    session_token: edge.session_token,
                                    account_provider: pr,
                                    user_id: edge.user_id,
                                },
                            ),
                        )
                    },
                    None => {
                        proof {
                            assert(lookup_provider_by_id(
                                self.store@.providers,
                                self.store@.sessions[i].provider_id,
                            ) is Some);
                            assert(false);
                        }
                        Err(CoreError::Unreachable)
                    },
                }
            },
        }
    }

    /// Deletes every session with the given token.
    pub fn delete_session(&mut self, id: &str) -> (r: Result<(), CoreError>)
        requires
            client_wf(*old(self)),
        ensures
            client_wf(*final(self)),
            final(self).cache == old(self).cache,
            final(self).search == old(self).search,
            final(self).store@.users == old(self).store@.users,
            final(self).store@.providers == old(self).store@.providers,
            final(self).store@.links == old(self).store@.links,
            final(self).store@.tokens == old(self).store@.tokens,
            final(self).store@.sessions =~= keep_where(
                old(self).store@.sessions,
                crate::store::session_token_ne(id@),
            ),
            r is Ok,
    {
        let ghost s_old = self.store@;
        let owned = String::from_str(id);
        self.store.remove_sessions_by_token(&owned);
        proof {
            self.lemma_session_mutation_keeps_cache(s_old);
        }
        Ok(())
    }

    /// Deletes every session incident to a user.
    pub fn delete_user_sessions(&mut self, user_id: &Uid) -> (r: Result<(), CoreError>)
        requires
            client_wf(*old(self)),
        ensures
            client_wf(*final(self)),
            final(self).cache == old(self).cache,
            final(self).search == old(self).search,
            final(self).store@.users == old(self).store@.users,
            final(self).store@.providers == old(self).store@.providers,
            final(self).store@.links == old(self).store@.links,
            final(self).store@.tokens == old(self).store@.tokens,
            final(self).store@.sessions =~= keep_where(
                old(self).store@.sessions,
                crate::store::session_user_ne(user_id.value),
            ),
            r is Ok,
    {
        let ghost s_old = self.store@;
        self.store.remove_sessions_by_user(user_id);
        proof {
            self.lemma_session_mutation_keeps_cache(s_old);
        }
        Ok(())
    }

    /// Deletes every session expired at the given instant.
    pub fn delete_expired_sessions_at(&mut self, now: i64) -> (r: Result<(), CoreError>)
        requires
            client_wf(*old(self)),
        ensures
            client_wf(*final(self)),
            final(self).cache == old(self).cache,
            final(self).search == old(self).search,
            final(self).store@.users == old(self).store@.users,
            final(self).store@.providers == old(self).store@.providers,
            final(self).store@.links == old(self).store@.links,
            final(self).store@.tokens == old(self).store@.tokens,
            final(self).store@.sessions =~= keep_where(
                old(self).store@.sessions,
                crate::store::session_alive_after(now as int),
            ),
            r is Ok,
    {
        let ghost s_old = self.store@;
        self.store.remove_expired_sessions(now);
        proof {
            self.lemma_session_mutation_keeps_cache(s_old);
        }
        Ok(())
    }

    /// Deletes every session expired at the wall clock's present.
    pub fn delete_expired_sessions(&mut self) -> (r: Result<(), CoreError>)
        requires
            client_wf(*old(self)),
        ensures
            client_wf(*final(self)),
            final(self).cache == old(self).cache,
            final(self).search == old(self).search,
            final(self).store@.users == old(self).store@.users,
            final(self).store@.providers == old(self).store@.providers,
            final(self).store@.links == old(self).store@.links,
            final(self).store@.tokens == old(self).store@.tokens,
            exists|now: int|
                final(self).store@.sessions =~= keep_where(
                    old(self).store@.sessions,
                    #[trigger] crate::store::session_alive_after(now),
                ),
            r is Ok,
    {
        let now = crate::sys::now_unix_seconds();
        let r = self.delete_expired_sessions_at(now);
        proof {
            assert(self.store@.sessions =~= keep_where(
                old(self).store@.sessions,
                crate::store::session_alive_after(now as int),
            ));
        }
        r
    }

    /// The session with the given token together with its user, the
    /// relation traversed and reassembled.  A session whose user
    /// endpoint is gone is upstream corruption.
    pub fn get_session_and_user(&mut self, session_token: &str) -> (r: Result<
        Option<(User, crate::Session)>,
        CoreError,
    >)
        requires
            client_wf(*old(self)),
        ensures
            client_wf(*final(self)),
            *final(self) == *old(self),
            ({
                let s = old(self).store@;
                match lookup_session(s.sessions, session_token@) {
                    None => r is Ok && r.unwrap() is None,
                    Some(e) => match lookup_user(s.users, e.user_id) {
                        None => r matches Err(CoreError::Unreachable),
                        Some(u) => {
                            &&& r is Ok
                            &&& r.unwrap() is Some
                            &&& r.unwrap().unwrap().0@ == u
                            &&& r.unwrap().unwrap().1@ == session_of_edge(s, e)
                        },
                    },
                }
            }),
    {
        let ghost s = self.store@;
        let owned = String::from_str(session_token);
        let edge = match self.store.get_session(&owned) {
            None => {
                return Ok(None);
            },
            Some(e) => e,
        };
        let user = match self.store.get_user(&edge.user_id) {
            None => {
                return Err(CoreError::Unreachable);
            },
            Some(u) => u,
        };
        proof {
            lemma_first_where(s.sessions, crate::store::by_session_token(session_token@));
            let i = first_where(s.sessions, crate::store::by_session_token(session_token@));
            assert(edge@ == s.sessions[i]);
        }
        match self.store.get_provider_by_id(&edge.provider_id) {
            Some(pr) => {
                let sess = crate::Session {
                    expires_at: edge.expires_at,
                    session_token: edge.session_token,
                    account_provider: pr,
                    user_id: edge.user_id,
                };
                Ok(Some((user, sess)))
            },
            None => {
                proof {
                    let i = first_where(s.sessions, crate::store::by_session_token(session_token@));
                    assert(lookup_provider_by_id(s.providers, s.sessions[i].provider_id) is Some);
                    assert(false);
                }
                Err(CoreError::Unreachable)
            },
        }
    }

    /// All sessions incident to a user, each with its provider
    /// endpoint resolved, in store order (callers must not rely on
    /// the order).
    pub fn get_user_sessions(&self, user_id: &Uid) -> (r: Result<Vec<crate::Session>, CoreError>)
        requires
            client_wf(*self),
        ensures
            match r {
                Ok(ss) => seq_view(ss@) == keep_where(
                    self.store@.sessions,
                    crate::store::by_session_user(user_id.value),
                ).map_values(edge_to_session(self.store@)),
                Err(_) => false,
            },
    {
        let ghost s = self.store@;
        let ghost p = crate::store::by_session_user(user_id.value);
        let ghost kw = keep_where(s.sessions, p);
        let edges = self.store.sessions_of_user(user_id);
        let mut out: Vec<crate::Session> = Vec::new();
        let n = edges.len();
        proof {
            lemma_keep_where_membership(s.sessions, p);
        }
        for k in 0..n
            invariant
                n == edges.len(),
                seq_view(edges@) == kw,
                kw == keep_where(s.sessions, p),
                s == self.store@,
                client_wf(*self),
                out.len() == k,
                forall|j: int|
                    0 <= j < k ==> #[trigger] out@[j]@ == session_of_edge(s, seq_view(edges@)[j]),
        {
            proof {
                assert(seq_view(edges@)[k as int] == edges@[k as int]@);
                lemma_keep_where_membership(s.sessions, p);
                let j = choose|j: int|
                    0 <= j < s.sessions.len() && s.sessions[j] == seq_view(edges@)[k as int];
                assert(lookup_provider_by_id(s.providers, s.sessions[j].provider_id) is Some);
            }
            match self.store.get_provider_by_id(&edges[k].provider_id) {
                Some(pr) => {
                    out.push(
                        crate::Session {
                            expires_at: edges[k].expires_at,
                            session_token: edges[k].session_token.clone(),
                            account_provider: pr,
                            user_id: edges[k].user_id,
                        },
                    );
                },
                None => {
                    proof {
                        assert(false);
                    }
                },
            }
        }
        proof {
            assert(seq_view(out@) =~= kw.map_values(edge_to_session(s)));
        }
        Ok(out)
    }

    /// Content create of a verification token with a caller-chosen
    /// identifier.  Fails like the primary store does when the
    /// identifier is already taken.
    pub fn create_verification_token_with(&mut self, vft: &crate::VerificationToken, id: Uid) -> (r:
        Result<crate::VerificationToken, CoreError>)
        requires
            client_wf(*old(self)),
        ensures
            client_wf(*final(self)),
            final(self).cache == old(self).cache,
            final(self).search == old(self).search,
            ({
                if crate::store::lookup_token_by_id(old(self).store@.tokens, id.value) is Some {
                    &&& r is Err
                    &&& final(self).store == old(self).store
                } else {
                    &&& r is Ok
                    &&& r.unwrap()@ == (crate::TokenV {
                        id: id.value,
                        identifier: vft@.identifier,
                        token: vft@.token,
                        expires_at: vft@.expires_at,
                    })
                    &&& final(self).store@.tokens =~= old(self).store@.tokens.push(r.unwrap()@)
                    &&& final(self).store@.users == old(self).store@.users
                    &&& final(self).store@.providers == old(self).store@.providers
                    &&& final(self).store@.links == old(self).store@.links
                    &&& final(self).store@.sessions == old(self).store@.sessions
                }
            }),
    {
        let ghost s_old = self.store@;
        if self.store.has_token_id(&id) {
            return Err(CoreError::Database(String::from_str("record identifier already taken")));
        }
        let stored = crate::VerificationToken {
            id,
            identifier: vft.identifier.clone(),
            token: vft.token.clone(),
            expires_at: vft.expires_at,
        };
        let ret = stored.duplicate();
        self.store.insert_token(stored);
        proof {
            self.lemma_session_mutation_keeps_cache(s_old);
        }
        Ok(ret)
    }

    /// Content create of a verification token: the engine assigns a
    /// fresh time-ordered version-7 identifier.
    pub fn create_verification_token(&mut self, vft: &crate::VerificationToken) -> (r: Result<
        crate::VerificationToken,
        CoreError,
    >)
        requires
            client_wf(*old(self)),
        ensures
            client_wf(*final(self)),
            final(self).cache == old(self).cache,
            final(self).search == old(self).search,
            match r {
                Ok(t) => {
                    &&& t@.identifier == vft@.identifier
                    &&& t@.token == vft@.token
                    &&& t@.expires_at == vft@.expires_at
                    &&& (t@.id >> 76) & 0xf == 7
                    &&& crate::store::lookup_token_by_id(old(self).store@.tokens, t@.id) is None
                    &&& final(self).store@.tokens =~= old(self).store@.tokens.push(t@)
                    &&& final(self).store@.users == old(self).store@.users
                    &&& final(self).store@.providers == old(self).store@.providers
                    &&& final(self).store@.links == old(self).store@.links
                    &&& final(self).store@.sessions == old(self).store@.sessions
                },
                Err(_) => final(self).store == old(self).store,
            },
    {
        let id = crate::sys::fresh_v7_id();
        self.create_verification_token_with(vft, id)
    }

    /// Finds the verification token for a (subject, token) pair:
    /// consuming is find-and-return, with deletion left to the caller,
    /// and a missing token is an ordinary `None`, never an error.
    pub fn use_verification_token(&mut self, identifier: &str, token: &str) -> (r: Result<
        Option<crate::VerificationToken>,
        CoreError,
    >)
        requires
            client_wf(*old(self)),
        ensures
            client_wf(*final(self)),
            *final(self) == *old(self),
            r is Ok,
            opt_view(r.unwrap()) == lookup_token(old(self).store@.tokens, identifier@, token@),
    {
        let owned_i = String::from_str(identifier);
        let owned_t = String::from_str(token);
        Ok(self.store.get_token(&owned_i, &owned_t))
    }

    /// Point read of a verification token by its (token, subject)
    /// pair; absence is an ordinary `None`.
    pub fn get_verification_token(&mut self, token: &str, identifier: &str) -> (r: Result<
        Option<crate::VerificationToken>,
        CoreError,
    >)
        requires
            client_wf(*old(self)),
        ensures
            client_wf(*final(self)),
            *final(self) == *old(self),
            r is Ok,
            opt_view(r.unwrap()) == lookup_token(old(self).store@.tokens, identifier@, token@),
    {
        let owned_i = String::from_str(identifier);
        let owned_t = String::from_str(token);
        Ok(self.store.get_token(&owned_i, &owned_t))
    }

    /// Free-text search with lazy index discovery: when the index is
    /// absent, a full re-sync from the primary store runs, up to
    /// three attempts, before giving up.
    pub fn search_index(&mut self, query: &str) -> (r: Result<Vec<User>, SyncError>)
        requires
            client_wf(*old(self)),
        ensures
            client_wf(*final(self)),
            final(self).store == old(self).store,
            cache_config_unchanged(*old(self), *final(self)),
            ({
                match old(self).search {
                    None => r matches Err(SyncError::NotConfigured) && *final(self) == *old(self),
                    Some(ss) => {
                        if ss.index_ready {
                            &&& r is Ok
                            &&& seq_view(r.unwrap()@) == crate::search::search_hits(
                                seq_view(ss.docs@),
                                query@,
                            )
                            &&& *final(self) == *old(self)
                        } else if ss.accepting {
                            &&& r is Ok
                            &&& seq_view(r.unwrap()@) == crate::search::search_hits(
                                old(self).store@.users,
                                query@,
                            )
                            &&& final(self).search is Some
                            &&& final(self).search.unwrap().index_ready
                            &&& seq_view(final(self).search.unwrap().docs@)
                                == old(self).store@.users
                        } else {
                            &&& r matches Err(SyncError::IndexUnavailable)
                            &&& final(self).search is Some
                            &&& !final(self).search.unwrap().index_ready
                            &&& (ss.sync_attempts + 3 <= u64::MAX
                                ==> final(self).search.unwrap().sync_attempts == ss.sync_attempts
                                + 3)
                        }
                    },
                }
            }),
    {
        if self.search.is_none() {
            return Err(SyncError::NotConfigured);
        }
        let ready0 = match &self.search {
            Some(ss) => ss.index_ready,
            None => false,
        };
        if ready0 {
            let hits = match &self.search {
                Some(ss) => ss.execute_query(query),
                None => Vec::new(),
            };
            return Ok(hits);
        }
        let _ = self.get_users();
        let ready1 = match &self.search {
            Some(ss) => ss.index_ready,
            None => false,
        };
        if ready1 {
            let hits = match &self.search {
                Some(ss) => ss.execute_query(query),
                None => Vec::new(),
            };
            return Ok(hits);
        }
        let _ = self.get_users();
        let ready2 = match &self.search {
            Some(ss) => ss.index_ready,
            None => false,
        };
        if ready2 {
            let hits = match &self.search {
                Some(ss) => ss.execute_query(query),
                None => Vec::new(),
            };
            return Ok(hits);
        }
        let _ = self.get_users();
        let ready3 = match &self.search {
            Some(ss) => ss.index_ready,
            None => false,
        };
        if ready3 {
            let hits = match &self.search {
                Some(ss) => ss.execute_query(query),
                None => Vec::new(),
            };
            return Ok(hits);
        }
        Err(SyncError::IndexUnavailable)
    }

    /// Free-text search surfaced on the core's error type: a missing
    /// collaborator and an unavailable index each carry their message.
    pub fn search(&mut self, query: &str) -> (r: Result<Vec<User>, CoreError>)
        requires
            client_wf(*old(self)),
        ensures
            client_wf(*final(self)),
            final(self).store == old(self).store,
            cache_config_unchanged(*old(self), *final(self)),
            ({
                match old(self).search {
                    None => r matches Err(CoreError::Other(m)) && m@
                        == "no client configured for search"@,
                    Some(ss) => {
                        if ss.index_ready {
                            r is Ok && seq_view(r.unwrap()@) == crate::search::search_hits(
                                seq_view(ss.docs@),
                                query@,
                            )
                        } else if ss.accepting {
                            r is Ok && seq_view(r.unwrap()@) == crate::search::search_hits(
                                old(self).store@.users,
                                query@,
                            )
                        } else {
                            r matches Err(CoreError::Other(m)) && m@
                                == "items could not be indexed for search"@
                        }
                    },
                }
            }),
    {
        match self.search_index(query) {
            Ok(hits) => Ok(hits),
            Err(SyncError::NotConfigured) => Err(
                CoreError::Other(String::from_str("no client configured for search")),
            ),
            Err(SyncError::IndexUnavailable) => Err(
                CoreError::Other(String::from_str("items could not be indexed for search")),
            ),
        }
    }
}


// ---------------------------------------------------------------------
// Laws of the write path.

/// Invalidation is idempotent: deleting a key set from the cache twice
/// leaves exactly the state one deletion leaves.
pub proof fn lemma_invalidation_idempotent(es: Seq<EntryV>, ks: Set<Seq<char>>)
    ensures
        keep_where(keep_where(es, key_not_in(ks)), key_not_in(ks)) == keep_where(es, key_not_in(ks)),
{
    crate::cache::lemma_keep_where_idempotent(es, key_not_in(ks));
}

/// A key named by the invalidation set is gone from the cache.
pub proof fn lemma_invalidated_key_gone(es: Seq<EntryV>, ks: Set<Seq<char>>, k: Seq<char>)
    requires
        ks.contains(k),
    ensures
        cache_lookup(keep_where(es, key_not_in(ks)), k) is None,
{
    crate::cache::lemma_lookup_keep_where(es, by_cache_key(k), key_not_in(ks));
}

/// Write-invalidation completeness: after an update that changes a
/// user's email from one value to another, neither email key, nor the
/// by-id key, nor the collection key can serve a cached value — and
/// the store itself answers the updated entity for the by-id lookup.
/// The next read of any of those patterns therefore reaches the
/// primary store and returns post-update data.
pub proof fn lemma_write_invalidation_complete(
    s_old: StoreV,
    s_new: StoreV,
    i: int,
    m: UserV,
    keys: Seq<String>,
    es_old: Seq<EntryV>,
    es_new: Seq<EntryV>,
)
    requires
        store_wf(s_old),
        0 <= i < s_old.users.len(),
        i == first_where(s_old.users, by_user_id(m.id)),
        m.id == s_old.users[i].id,
        s_new.users == s_old.users.update(i, m),
        user_keys_cover(s_old, m.id, s_old.users[i].email, m.email, key_set(keys)),
        es_new == keep_where(es_old, key_not_in(key_set(keys))),
    ensures
        cache_lookup(es_new, all_users_key()) is None,
        cache_lookup(es_new, user_id_key(m.id)) is None,
        (s_old.users[i].email matches Some(a) ==> cache_lookup(es_new, user_email_key(a)) is None),
        (m.email matches Some(b) ==> cache_lookup(es_new, user_email_key(b)) is None),
        expected_by_id(s_new, m.id) == Some(m),
{
    let ks = key_set(keys);
    lemma_invalidated_key_gone(es_old, ks, all_users_key());
    lemma_invalidated_key_gone(es_old, ks, user_id_key(m.id));
    if s_old.users[i].email is Some {
        lemma_invalidated_key_gone(es_old, ks, user_email_key(s_old.users[i].email.unwrap()));
    }
    if m.email is Some {
        lemma_invalidated_key_gone(es_old, ks, user_email_key(m.email.unwrap()));
    }
    lemma_first_where(s_old.users, by_user_id(m.id));
    crate::store::lemma_first_where_pointwise(
        s_old.users,
        by_user_id(m.id),
        s_new.users,
        by_user_id(m.id),
    );
    assert(forall|j: int|
        0 <= j < s_new.users.len() ==> #[trigger] s_new.users[j].id == s_old.users[j].id);
    assert(first_where(s_new.users, by_user_id(m.id)) == i);
    assert(s_new.users[i] == m);
}

/// Linking is idempotent: after any successful link of a (provider,
/// account) pair, the pair resolves to a link edge, so a second link
/// with the same arguments takes the no-change branch: at most one
/// provider node per name and at most one edge per pair ever come to
/// exist.
pub proof fn lemma_link_idempotent(
    s_old: StoreV,
    s_new: StoreV,
    provider: Seq<char>,
    account_id: Seq<char>,
    user_id: u128,
)
    requires
        store_wf(s_old),
        store_wf(s_new),
        ({
            match lookup_provider_by_name(s_old.providers, provider) {
                Some(pr) => {
                    &&& lookup_link(s_old.links, pr.id, account_id) is None
                    &&& s_new.providers == s_old.providers
                    &&& s_new.links == s_old.links.push(
                        crate::store::LinkV {
                            provider_id: pr.id,
                            user_id,
                            provider_account_id: account_id,
                        },
                    )
                },
                None => exists|fresh: u128|
                    {
                        &&& s_new.providers == s_old.providers.push(
                            #[trigger] provider_v(fresh, provider),
                        )
                        &&& s_new.links == s_old.links.push(
                            crate::store::LinkV {
                                provider_id: fresh,
                                user_id,
                                provider_account_id: account_id,
                            },
                        )
                        &&& lookup_provider_by_id(s_old.providers, fresh) is None
                    },
            }
        }),
    ensures
        account_link_of(s_new, provider, account_id) is Some,
{
    match lookup_provider_by_name(s_old.providers, provider) {
        Some(pr) => {
            let l_new = crate::store::LinkV {
                provider_id: pr.id,
                user_id,
                provider_account_id: account_id,
            };
            assert(lookup_provider_by_name(s_new.providers, provider) == Some(pr));
            crate::store::lemma_lookup_where_push(
                s_old.links,
                crate::store::by_link_pair(pr.id, account_id),
                l_new,
            );
        },
        None => {
            let fresh = choose|fresh: u128|
                {
                    &&& s_new.providers == s_old.providers.push(
                        #[trigger] provider_v(fresh, provider),
                    )
                    &&& s_new.links == s_old.links.push(
                        crate::store::LinkV {
                            provider_id: fresh,
                            user_id,
                            provider_account_id: account_id,
                        },
                    )
                    &&& lookup_provider_by_id(s_old.providers, fresh) is None
                };
            let pr = provider_v(fresh, provider);
            let l_new = crate::store::LinkV {
                provider_id: fresh,
                user_id,
                provider_account_id: account_id,
            };
            crate::store::lemma_lookup_where_push(
                s_old.providers,
                by_provider_name(provider),
                pr,
            );
            assert(lookup_provider_by_name(s_new.providers, provider) == Some(pr));
            lemma_no_link_for_unknown_provider(s_old, fresh, account_id);
            crate::store::lemma_lookup_where_push(
                s_old.links,
                crate::store::by_link_pair(fresh, account_id),
                l_new,
            );
        },
    }
}

} // verus!
