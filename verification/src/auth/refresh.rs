//! Refresh tokens: opaque random text given to the client; only its SHA-256
//! digest is stored, so a leaked store does not reveal live tokens.

use vstd::prelude::*;
use vstd::string::StringSliceAdditionalSpecFns;
use crate::auth::digest::{random_bytes, sha256, sha256_digest};
use crate::auth::error::AuthError;
use crate::auth::hex::{encode_hex, hex_encode};
use crate::text::ascii_chars;

verus! {

/// The stored digest of a refresh token.
pub fn hash_refresh(token: &str) -> (h: Vec<u8>)
    ensures
        h@ == sha256_digest(token.spec_bytes()),
        h@.len() == 32,
{
    sha256(token.as_bytes())
}

/// A new refresh token (32 random bytes as hex) and its stored digest.
pub fn generate_refresh() -> (r: Result<(String, Vec<u8>), AuthError>)
    ensures
        r matches Ok((t, h)) && (exists|b: Seq<u8>|
            b.len() == 32 && t@ == ascii_chars(#[trigger] hex_encode(b)))
            && h@ == sha256_digest(vstd::utf8::encode_utf8(t@)),
{
    let buf = random_bytes(32);
    let token = encode_hex(buf.as_slice());
    let hash = hash_refresh(token.as_str());
    Ok((token, hash))
}

} // verus!
