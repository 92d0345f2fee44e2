//! Authentication errors.

use vstd::prelude::*;

verus! {

/// What went wrong in an authentication primitive, with the underlying
/// message.
#[derive(Debug, Clone, PartialEq, Eq)]
pub enum AuthError {
    /// Password hashing or verification failed.
    Hash(String),
    /// A token, key or TOTP operation failed.
    Token(String),
    /// A proof-of-work challenge could not be issued or was not met.
    Pow(String),
    /// A WebAuthn ceremony failed.
    WebAuthn(String),
}

} // verus!
