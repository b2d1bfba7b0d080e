//! Cache key scheme: deterministic, collision-free key derivation for
//! every queryable access pattern, and the closed set of keys a
//! mutation must invalidate.

use vstd::prelude::*;

use crate::ids::{uuid_chars, Uid};
use crate::strutil::push_char;

verus! {

/// A lookup predicate: one cache key per queryable access pattern.
#[derive(Clone, Copy, Debug)]
pub enum CacheKey<'a> {
    AllUsers,
    Session { token: &'a str },
    UserById { id: &'a Uid },
    UserByEmail { email: &'a str },
    UserByAccount { provider: &'a str, provider_account_id: &'a str },
}

/// Mathematical value of a [`CacheKey`].
pub ghost enum CacheKeyV {
    AllUsers,
    Session { token: Seq<char> },
    UserById { id: u128 },
    UserByEmail { email: Seq<char> },
    UserByAccount { provider: Seq<char>, provider_account_id: Seq<char> },
}

impl<'a> View for CacheKey<'a> {
    type V = CacheKeyV;

    open spec fn view(&self) -> CacheKeyV {
        match *self {
            CacheKey::AllUsers => CacheKeyV::AllUsers,
            CacheKey::Session { token } => CacheKeyV::Session { token: token@ },
            CacheKey::UserById { id } => CacheKeyV::UserById { id: id.value },
            CacheKey::UserByEmail { email } => CacheKeyV::UserByEmail { email: email@ },
            CacheKey::UserByAccount { provider, provider_account_id } => CacheKeyV::UserByAccount {
                provider: provider@,
                provider_account_id: provider_account_id@,
            },
        }
    }
}

pub open spec fn all_users_key() -> Seq<char> {
    seq!['u', 's', 'e', 'r', 's', ':', 'a', 'l', 'l']
}

pub open spec fn user_id_key(id: u128) -> Seq<char> {
    seq!['u', 's', 'e', 'r', 's', ':', 'i', 'd', '='] + uuid_chars(id)
}

pub open spec fn user_email_key(email: Seq<char>) -> Seq<char> {
    seq!['u', 's', 'e', 'r', 's', ':', 'e', 'm', 'a', 'i', 'l', '='] + email
}

pub open spec fn user_account_key(provider: Seq<char>, account_id: Seq<char>) -> Seq<char> {
    seq!['u', 's', 'e', 'r', 's', ':', 'a', 'c', 'c', 'o', 'u', 'n', 't', '='] + provider
        + seq!['|'] + account_id
}

pub open spec fn session_key(token: Seq<char>) -> Seq<char> {
    seq!['s', 'e', 's', 's', 'i', 'o', 'n', '='] + token
}

/// The rendered key for a predicate.
pub open spec fn key_chars(k: CacheKeyV) -> Seq<char> {
    match k {
        CacheKeyV::AllUsers => all_users_key(),
        CacheKeyV::Session { token } => session_key(token),
        CacheKeyV::UserById { id } => user_id_key(id),
        CacheKeyV::UserByEmail { email } => user_email_key(email),
        CacheKeyV::UserByAccount { provider, provider_account_id } => user_account_key(
            provider,
            provider_account_id,
        ),
    }
}

/// A predicate is well formed when a provider name carries no `'|'`:
/// the separator of the account key's two fields.
pub open spec fn key_well_formed(k: CacheKeyV) -> bool {
    match k {
        CacheKeyV::UserByAccount { provider, provider_account_id } => !provider.contains('|'),
        _ => true,
    }
}

impl<'a> CacheKey<'a> {
    /// Renders the predicate as its stable string key.
    pub fn render(&self) -> (r: String)
        ensures
            r@ == key_chars(self@),
    {
        match *self {
            CacheKey::AllUsers => {
                let r = copy_str("users:all");
                proof {
                    reveal_strlit("users:all");
                    assert(r@ =~= all_users_key());
                }
                r
            },
            CacheKey::Session { token } => {
                let mut r = copy_str("session=");
                proof {
                    reveal_strlit("session=");
                }
                r.append(token);
                proof {
                    assert(r@ =~= session_key(token@));
                }
                r
            },
            CacheKey::UserById { id } => {
                let mut r = copy_str("users:id=");
                proof {
                    reveal_strlit("users:id=");
                }
                let hex = id.render();
                r.append(hex.as_str());
                proof {
                    assert(r@ =~= user_id_key(id.value));
                }
                r
            },
            CacheKey::UserByEmail { email } => {
                let mut r = copy_str("users:email=");
                proof {
                    reveal_strlit("users:email=");
                }
                r.append(email);
                proof {
                    assert(r@ =~= user_email_key(email@));
                }
                r
            },
            CacheKey::UserByAccount { provider, provider_account_id } => {
                let mut r = copy_str("users:account=");
                proof {
                    reveal_strlit("users:account=");
                }
                r.append(provider);
                push_char(&mut r, '|');
                r.append(provider_account_id);
                proof {
                    assert(r@ =~= user_account_key(provider@, provider_account_id@));
                }
                r
            },
        }
    }
}

/// An owned copy of a string slice.
fn copy_str(s: &str) -> (r: String)
    ensures
        r@ == s@,
{
    String::from_str(s)
}

/// Two sequences around a separator neither part contains split
/// uniquely: the key property behind account-key injectivity.
proof fn lemma_separator_split(p1: Seq<char>, a1: Seq<char>, p2: Seq<char>, a2: Seq<char>)
    requires
        !p1.contains('|'),
        !p2.contains('|'),
        p1 + seq!['|'] + a1 == p2 + seq!['|'] + a2,
    ensures
        p1 == p2,
        a1 == a2,
{
    let s1 = p1 + seq!['|'] + a1;
    let s2 = p2 + seq!['|'] + a2;
    if p1.len() < p2.len() {
        assert(s1[p1.len() as int] == '|');
        assert(s2[p1.len() as int] == p2[p1.len() as int]);
        assert(p2.contains('|'));
        assert(false);
    }
    if p2.len() < p1.len() {
        assert(s2[p2.len() as int] == '|');
        assert(s1[p2.len() as int] == p1[p2.len() as int]);
        assert(p1.contains('|'));
        assert(false);
    }
    assert forall|i: int| 0 <= i < p1.len() implies p1[i] == p2[i] by {
        assert(s1[i] == (p1 + seq!['|'])[i]);
        assert(s2[i] == (p2 + seq!['|'])[i]);
    }
    assert(p1 =~= p2);
    assert(s1.len() == s2.len());
    assert forall|i: int| 0 <= i < a1.len() implies a1[i] == a2[i] by {
        assert(s1[i + p1.len() + 1] == a1[i]);
        assert(s2[i + p2.len() + 1] == a2[i]);
    }
    assert(a1 =~= a2);
}

/// Cache-key injectivity: within well-formed predicates, equal keys
/// mean equal predicates, and equal predicates mean equal keys.
pub proof fn lemma_cache_key_injective(k1: CacheKeyV, k2: CacheKeyV)
    requires
        key_well_formed(k1),
        key_well_formed(k2),
    ensures
        key_chars(k1) == key_chars(k2) <==> k1 == k2,
{
    if key_chars(k1) == key_chars(k2) && k1 != k2 {
        match (k1, k2) {
            (CacheKeyV::UserById { id: a }, CacheKeyV::UserById { id: b }) => {
                assert(uuid_chars(a) =~= key_chars(k1).subrange(9, key_chars(k1).len() as int));
                assert(uuid_chars(b) =~= key_chars(k2).subrange(9, key_chars(k2).len() as int));
                crate::ids::lemma_uuid_chars_injective(a, b);
            },
            (CacheKeyV::UserByEmail { email: a }, CacheKeyV::UserByEmail { email: b }) => {
                assert(a =~= key_chars(k1).subrange(12, key_chars(k1).len() as int));
                assert(b =~= key_chars(k2).subrange(12, key_chars(k2).len() as int));
            },
            (CacheKeyV::Session { token: a }, CacheKeyV::Session { token: b }) => {
                assert(a =~= key_chars(k1).subrange(8, key_chars(k1).len() as int));
                assert(b =~= key_chars(k2).subrange(8, key_chars(k2).len() as int));
            },
            (
                CacheKeyV::UserByAccount { provider: p1, provider_account_id: a1 },
                CacheKeyV::UserByAccount { provider: p2, provider_account_id: a2 },
            ) => {
                let c1 = key_chars(k1);
                let pre = seq!['u', 's', 'e', 'r', 's', ':', 'a', 'c', 'c', 'o', 'u', 'n', 't', '='];
                assert(pre + p1 + seq!['|'] + a1 =~= pre + (p1 + seq!['|'] + a1));
                assert(pre + p2 + seq!['|'] + a2 =~= pre + (p2 + seq!['|'] + a2));
                assert(p1 + seq!['|'] + a1 =~= (pre + (p1 + seq!['|'] + a1)).subrange(
                    14,
                    (pre + (p1 + seq!['|'] + a1)).len() as int,
                ));
                assert(p2 + seq!['|'] + a2 =~= (pre + (p2 + seq!['|'] + a2)).subrange(
                    14,
                    (pre + (p2 + seq!['|'] + a2)).len() as int,
                ));
                lemma_separator_split(p1, a1, p2, a2);
            },
            _ => {
                lemma_cache_key_kinds_distinct(k1, k2);
            },
        }
    }
}

/// Keys of predicates of different shapes never collide: each shape is
/// told apart by its length or by a character at a fixed position.
proof fn lemma_cache_key_kinds_distinct(k1: CacheKeyV, k2: CacheKeyV)
    requires
        !(k1 is AllUsers && k2 is AllUsers),
        !(k1 is Session && k2 is Session),
        !(k1 is UserById && k2 is UserById),
        !(k1 is UserByEmail && k2 is UserByEmail),
        !(k1 is UserByAccount && k2 is UserByAccount),
    ensures
        key_chars(k1) != key_chars(k2),
{
    let c1 = key_chars(k1);
    let c2 = key_chars(k2);
    if c1 == c2 {
        // A session key starts with 's'; every user key starts with 'u'.
        if k1 is Session || k2 is Session {
            assert(c1[0] == c2[0]);
            assert(false);
        } else {
            // All user keys share "users:"; position 6 and 7 and the
            // length tell the four shapes apart.
            assert(c1[6] == c2[6] && c1[7] == c2[7]);
            if k1 is AllUsers || k2 is AllUsers {
                // "users:all" has length 9; "users:id=<36 digits>" has
                // length 45; the email and account keys share prefixes
                // of other characters at positions 6 and 7.
                assert(c1.len() == c2.len());
                assert(false);
            } else {
                assert(false);
            }
        }
    }
}

} // verus!
