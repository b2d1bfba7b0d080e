//! Verified cache-aside consistency layer for identity records.
//!
//! The crate models a data-access layer for users, sessions, linked
//! account providers and verification tokens.  A primary store is
//! authoritative; an optional cache holds serialized snapshots of domain
//! entities; an optional search index is kept eventually consistent.
//! Every decision the layer makes — how wire records map to domain
//! entities, how cache keys are derived and invalidated, how relation
//! queries are composed and decoded, and how search synchronization is
//! retried — is implemented here and verified against its contract.

use vstd::prelude::*;

pub mod cache;
pub mod cache_key;
pub mod client;
pub mod codec;
pub mod error;
pub mod ids;
pub mod interface;
pub mod search;
pub mod store;
pub mod strutil;
pub mod sys;
pub mod telemetry;
pub mod wire;

pub use cache::CacheState;
pub use cache_key::CacheKey;
pub use client::Client;
pub use error::{ClientError, CoreError, MappingError, SyncError};
pub use ids::Uid;
pub use interface::{Account, AccountMutation, DatabaseCredentials, Mutation, MutationType, Params,
    Query, RedisConfig, SchemaError, SearchResult, SessionAndUser, SessionMutation, SessionQuery,
    Subscription, UserChanged, UserMutation, UserQuery, UserSubscription,
    VerificationTokenMutation, VerificationTokenQuery};
pub use search::SearchState;
pub use store::Store;
pub use telemetry::log_levels;
pub use wire::{SessionRow, WireDoc, WireProvider, WireRecordId, WireSessionRow, WireTimestamp,
    WireUser, WireUserInput, WireValue};

verus! {

/// Classification tag of a user account.
#[derive(Debug, Clone, Copy, PartialEq, Eq, Structural)]
pub enum UserType {
    Individual,
    Company,
}

/// A user entity: the authoritative identity record.
///
/// Timestamps are seconds since the Unix epoch; the primary store's
/// native temporal values and ISO-8601 strings are both mapped onto
/// this representation by the entity mapper.
#[derive(Debug, Clone, PartialEq)]
pub struct User {
    pub id: Uid,
    pub username: String,
    pub email: Option<String>,
    pub name: Option<String>,
    pub avatar: Option<String>,
    pub user_type: UserType,
    pub phone_number: Option<String>,
    pub created: i64,
    pub updated: i64,
}

/// An account provider ("github", "google", ...), deduplicated by name.
#[derive(Debug, Clone, PartialEq)]
pub struct AccountProvider {
    pub id: Uid,
    pub name: String,
}

/// A session: a labeled edge between a user and an account provider,
/// addressed by its opaque token.
#[derive(Debug, Clone, PartialEq)]
pub struct Session {
    pub expires_at: i64,
    pub session_token: String,
    pub account_provider: AccountProvider,
    pub user_id: Uid,
}

/// A single-use verification token for a subject such as an email address.
#[derive(Debug, Clone, PartialEq)]
pub struct VerificationToken {
    pub id: Uid,
    pub identifier: String,
    pub token: String,
    pub expires_at: i64,
}

/// Mathematical value of a [`User`].
pub ghost struct UserV {
    pub id: u128,
    pub username: Seq<char>,
    pub email: Option<Seq<char>>,
    pub name: Option<Seq<char>>,
    pub avatar: Option<Seq<char>>,
    pub user_type: UserType,
    pub phone_number: Option<Seq<char>>,
    pub created: int,
    pub updated: int,
}

/// Mathematical value of an [`AccountProvider`].
pub ghost struct ProviderV {
    pub id: u128,
    pub name: Seq<char>,
}

/// Mathematical value of a [`Session`].
pub ghost struct SessionV {
    pub expires_at: int,
    pub session_token: Seq<char>,
    pub account_provider: ProviderV,
    pub user_id: u128,
}

/// Mathematical value of a [`VerificationToken`].
pub ghost struct TokenV {
    pub id: u128,
    pub identifier: Seq<char>,
    pub token: Seq<char>,
    pub expires_at: int,
}

/// The sequence of mathematical values of a sequence of viewable
/// values.
pub open spec fn seq_view<T: View>(s: Seq<T>) -> Seq<T::V> {
    s.map_values(|x: T| x@)
}

/// The mathematical value behind an optional value.
pub open spec fn opt_view<T: View>(o: Option<T>) -> Option<T::V> {
    match o {
        Some(v) => Some(v@),
        None => None,
    }
}

pub open spec fn view_opt_string(s: Option<String>) -> Option<Seq<char>> {
    match s {
        Some(v) => Some(v@),
        None => None,
    }
}

impl View for User {
    type V = UserV;

    open spec fn view(&self) -> UserV {
        UserV {
            id: self.id.value,
            username: self.username@,
            email: view_opt_string(self.email),
            name: view_opt_string(self.name),
            avatar: view_opt_string(self.avatar),
            user_type: self.user_type,
            phone_number: view_opt_string(self.phone_number),
            created: self.created as int,
            updated: self.updated as int,
        }
    }
}

impl View for AccountProvider {
    type V = ProviderV;

    open spec fn view(&self) -> ProviderV {
        ProviderV { id: self.id.value, name: self.name@ }
    }
}

impl View for Session {
    type V = SessionV;

    open spec fn view(&self) -> SessionV {
        SessionV {
            expires_at: self.expires_at as int,
            session_token: self.session_token@,
            account_provider: self.account_provider@,
            user_id: self.user_id.value,
        }
    }
}

impl View for VerificationToken {
    type V = TokenV;

    open spec fn view(&self) -> TokenV {
        TokenV {
            id: self.id.value,
            identifier: self.identifier@,
            token: self.token@,
            expires_at: self.expires_at as int,
        }
    }
}

impl User {
    /// Clone with a contract: the copy has the same mathematical value.
    pub fn duplicate(&self) -> (r: User)
        ensures
            r@ == self@,
    {
        User {
            id: self.id,
            username: self.username.clone(),
            email: clone_opt_string(&self.email),
            name: clone_opt_string(&self.name),
            avatar: clone_opt_string(&self.avatar),
            user_type: self.user_type,
            phone_number: clone_opt_string(&self.phone_number),
            created: self.created,
            updated: self.updated,
        }
    }
}

impl AccountProvider {
    /// Clone with a contract: the copy has the same mathematical value.
    pub fn duplicate(&self) -> (r: AccountProvider)
        ensures
            r@ == self@,
    {
        AccountProvider { id: self.id, name: self.name.clone() }
    }
}

impl Session {
    /// Clone with a contract: the copy has the same mathematical value.
    pub fn duplicate(&self) -> (r: Session)
        ensures
            r@ == self@,
    {
        Session {
            expires_at: self.expires_at,
            session_token: self.session_token.clone(),
            account_provider: self.account_provider.duplicate(),
            user_id: self.user_id,
        }
    }
}

impl VerificationToken {
    /// Clone with a contract: the copy has the same mathematical value.
    pub fn duplicate(&self) -> (r: VerificationToken)
        ensures
            r@ == self@,
    {
        VerificationToken {
            id: self.id,
            identifier: self.identifier.clone(),
            token: self.token.clone(),
            expires_at: self.expires_at,
        }
    }
}

/// Clone an optional string, preserving its mathematical value.
pub fn clone_opt_string(s: &Option<String>) -> (r: Option<String>)
    ensures
        view_opt_string(r) == view_opt_string(*s),
{
    match s {
        Some(v) => Some(v.clone()),
        None => None,
    }
}

} // verus!
