//! Errors surfaced by the library.
use vstd::prelude::*;

verus! {

/// `std::io::Error`, carried opaquely inside [`CoreError::Io`].
#[verifier::external_type_specification]
#[verifier::external_body]
pub struct ExIoError(std::io::Error);

/// `serde_json::Error`, carried opaquely inside [`CoreError::Json`].
#[verifier::external_type_specification]
#[verifier::external_body]
pub struct ExJsonError(serde_json::Error);

/// Errors surfaced by the core layer.
#[derive(Debug)]
pub enum CoreError {
    /// An I/O failure while reading or writing persisted data.
    Io(std::io::Error),
    /// A JSON (de)serialization failure.
    Json(serde_json::Error),
    /// No profile carries the given id.
    ProfileNotFound(String),
    /// A domain that cannot be used.
    InvalidDomain(String),
    /// The solver found no working strategy.
    NoStrategyFound,
    /// Any other failure, described by its message.
    Other(String),
}

/// Results of the core layer.
pub type CoreResult<T> = core::result::Result<T, CoreError>;

} // verus!
