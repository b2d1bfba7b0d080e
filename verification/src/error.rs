//! Error taxonomy: mapping failures are schema bugs, store failures
//! are transient, missing rows are `None`, invariant violations are
//! `Unreachable`, and search problems stay on the search paths.

use vstd::prelude::*;

verus! {

/// The error callers of the core see.
#[derive(Debug, Clone, PartialEq)]
pub enum CoreError {
    /// A backing-store failure: transient, retryable.
    Database(String),
    /// Any other failure, carried as text.
    Other(String),
    /// A malformed record identifier from the primary store.
    Uuid(String),
    Unknown,
    /// A data-integrity invariant was violated upstream.
    Unreachable,
}

/// Client construction errors.
#[derive(Debug, Clone, PartialEq)]
pub enum ClientError {
    Engine(String),
    Other(String),
    InvalidHeader { expected: String, found: String },
    Unknown,
}

/// Why a wire record could not be mapped to a domain entity.
#[derive(Debug, Clone, Copy, PartialEq, Eq, Structural)]
pub enum MappingError {
    InvalidIdentifier,
    InvalidTimestamp,
}

/// Why a search request could not be served.
#[derive(Debug, Clone, Copy, PartialEq, Eq, Structural)]
pub enum SyncError {
    /// No search collaborator is configured.
    NotConfigured,
    /// The index did not become available within the retry budget.
    IndexUnavailable,
}

} // verus!
