//! Password hashing with Argon2id (the `argon2` crate), stored as PHC text.

use vstd::prelude::*;
use vstd::string::StringSliceAdditionalSpecFns;
use crate::auth::digest::random_bytes;
use crate::auth::error::AuthError;

verus! {

/// Argon2id (default parameters) of `plain` with `salt`, as PHC text, or the
/// error's text.
pub uninterp spec fn argon2id_hash(plain: Seq<u8>, salt: Seq<u8>) -> Result<Seq<char>, Seq<char>>;

/// Whether `plain` matches the PHC text `phc`, or the error's text when
/// `phc` does not parse.
pub uninterp spec fn argon2id_verify(plain: Seq<u8>, phc: Seq<char>) -> Result<bool, Seq<char>>;

/// `SaltString::encode_b64` then `Argon2::default().hash_password`: the
/// named hash. A hash it makes verifies against the same password, as the
/// `password-hash` API documents.
#[verifier::external_body]
fn argon2_hash(plain: &[u8], salt: &[u8]) -> (r: Result<String, String>)
    ensures
        r matches Ok(s) ==> (argon2id_hash(plain@, salt@) matches Ok(t) && t == s@),
        r matches Err(m) ==> (argon2id_hash(plain@, salt@) matches Err(t) && t == m@),
        r matches Ok(s) ==> (argon2id_verify(plain@, s@) matches Ok(b) && b),
{
    let salt = match argon2::password_hash::SaltString::encode_b64(salt) {
        Ok(s) => s,
        Err(e) => return Err(e.to_string()),
    };
    let a = argon2::Argon2::default();
    match <argon2::Argon2 as argon2::PasswordHasher>::hash_password(&a, plain, &salt) {
        Ok(h) => Ok(h.to_string()),
        Err(e) => Err(e.to_string()),
    }
}

/// `PasswordHash::new` then `Argon2::default().verify_password(..).is_ok()`.
#[verifier::external_body]
fn argon2_verify(plain: &[u8], phc: &str) -> (r: Result<bool, String>)
    ensures
        r matches Ok(b) ==> (argon2id_verify(plain@, phc@) matches Ok(c) && c == b),
        r matches Err(m) ==> (argon2id_verify(plain@, phc@) matches Err(t) && t == m@),
{
    let parsed = match argon2::password_hash::PasswordHash::new(phc) {
        Ok(p) => p,
        Err(e) => return Err(e.to_string()),
    };
    let a = argon2::Argon2::default();
    Ok(<argon2::Argon2 as argon2::PasswordVerifier>::verify_password(&a, plain, &parsed).is_ok())
}

/// Hashes a password with a fresh 16-byte random salt.
pub fn hash_password(plain: &str) -> (r: Result<String, AuthError>)
    ensures
        exists|salt: Seq<u8>|
            salt.len() == 16 && match (r, #[trigger] argon2id_hash(plain.spec_bytes(), salt)) {
                (Ok(s), Ok(t)) => s@ == t,
                (Err(AuthError::Hash(m)), Err(t)) => m@ == t,
                _ => false,
            },
        r matches Ok(s) ==> argon2id_verify(plain.spec_bytes(), s@) == Ok::<bool, Seq<char>>(true),
{
    let salt = random_bytes(16);
    match argon2_hash(plain.as_bytes(), salt.as_slice()) {
        Ok(s) => Ok(s),
        Err(m) => Err(AuthError::Hash(m)),
    }
}

/// Whether `plain` matches the stored PHC text.
pub fn verify_password(plain: &str, phc: &str) -> (r: Result<bool, AuthError>)
    ensures
        match (r, argon2id_verify(plain.spec_bytes(), phc@)) {
            (Ok(b), Ok(c)) => b == c,
            (Err(AuthError::Hash(m)), Err(t)) => m@ == t,
            _ => false,
        },
{
    match argon2_verify(plain.as_bytes(), phc) {
        Ok(b) => Ok(b),
        Err(m) => Err(AuthError::Hash(m)),
    }
}

} // verus!
