//! PASETO v4 tokens and keys from the `pasetors` crate, taken and given as
//! plain bytes and text.

use vstd::prelude::*;

verus! {

/// What a checked token says of its subject claim, or why it was refused.
#[derive(Debug, Clone, PartialEq, Eq)]
pub enum SubjectClaim {
    /// The token was refused; the message of the error.
    Rejected(String),
    /// The token carries no claims.
    NoClaims,
    /// The claims have no string `sub`.
    NoSubject,
    /// The `sub` claim.
    Subject(String),
}

/// The Ed25519 public key of a 32-byte seed.
pub uninterp spec fn ed25519_public_of(seed: Seq<u8>) -> Seq<u8>;

/// The `sub` claim (when it is a string) of the claims that decrypting the
/// v4.local `token` under `key` gives, with no footer and no implicit
/// assertion; `None` where the token does not authenticate, its payload is
/// not claims, or there is no such claim. The expiry is not part of it.
pub uninterp spec fn local_token_subject(key: Seq<u8>, token: Seq<char>) -> Option<Seq<char>>;

/// The `sub` claim (when it is a string) of the claims of the v4.public
/// `token` whose signature checks under the public key `public`, with no
/// footer and no implicit assertion; `None` where the signature does not
/// check, its payload is not claims, or there is no such claim. The expiry is
/// not part of it.
pub uninterp spec fn public_token_subject(public: Seq<u8>, token: Seq<char>) -> Option<Seq<char>>;

/// `SymmetricKey::<V4>::generate`: 32 fresh random key bytes, or the error's
/// text. Nothing is promised of the bytes beyond their number.
#[verifier::external_body]
pub(crate) fn generate_local_key() -> (r: Result<Vec<u8>, String>)
    ensures
        r matches Ok(k) ==> k@.len() == 32,
{
    let g = <pasetors::keys::SymmetricKey<pasetors::version4::V4> as pasetors::keys::Generate<
        pasetors::keys::SymmetricKey<pasetors::version4::V4>,
        pasetors::version4::V4,
    >>::generate();
    match g {
        Ok(k) => Ok(k.as_bytes().to_vec()),
        Err(e) => Err(e.to_string()),
    }
}

/// `SymmetricKey::<V4>::from`: accepts exactly 32 bytes; otherwise the error
/// `Key`.
#[verifier::external_body]
pub(crate) fn local_key_check(bytes: &[u8]) -> (r: Result<(), String>)
    ensures
        r is Ok <==> bytes@.len() == 32,
        r matches Err(m) ==> m@ == "Key"@,
{
    match pasetors::keys::SymmetricKey::<pasetors::version4::V4>::from(bytes) {
        Ok(_) => Ok(()),
        Err(e) => Err(e.to_string()),
    }
}

/// `local::encrypt` of fresh claims (`Claims::new`: issued now, expiring in
/// an hour) whose `sub` is `subject` (`Claims::subject` refuses an empty
/// one). The token depends on the time and a random nonce; what is promised
/// is that it decrypts under the same key to claims whose subject is
/// `subject`.
#[verifier::external_body]
pub(crate) fn local_encrypt_subject(key: &[u8], subject: &str) -> (r: Result<String, String>)
    requires
        key@.len() == 32,
    ensures
        r matches Ok(t) ==> local_token_subject(key@, t@) == Some(subject@),
{
    let k = pasetors::keys::SymmetricKey::<pasetors::version4::V4>::from(key).map_err(|e| e.to_string())?;
    let mut claims = pasetors::claims::Claims::new().map_err(|e| e.to_string())?;
    claims.subject(subject).map_err(|e| e.to_string())?;
    pasetors::local::encrypt(&k, &claims, None, None).map_err(|e| e.to_string())
}

/// The layers of a checked token's subject: its claims
/// (`TrustedToken::payload_claims`), their `sub` (`Claims::get_claim`) and
/// that claim's text (`Value::as_str`), each `None` where it is missing.
pub type SubLayers = Option<Option<Option<String>>>;

/// The subject text the layers hold, if any.
pub open spec fn sub_text(c: SubLayers) -> Option<Seq<char>> {
    match c {
        Some(Some(Some(s))) => Some(s@),
        _ => None,
    }
}

/// `local::decrypt` of `token` with the default rules, then the subject
/// layers of the claims. Whether it succeeds depends on the clock (the rules
/// check the expiry); a token that decrypts gives the subject that decrypting
/// under the same key carries.
#[verifier::external_body]
pub(crate) fn local_decrypt(key: &[u8], token: &str) -> (r: Result<SubLayers, String>)
    requires
        key@.len() == 32,
    ensures
        r matches Ok(c) ==> local_token_subject(key@, token@) == sub_text(c),
{
    let k = pasetors::keys::SymmetricKey::<pasetors::version4::V4>::from(key).map_err(|e| e.to_string())?;
    let untrusted = pasetors::token::UntrustedToken::<pasetors::Local, pasetors::version4::V4>::try_from(token)
        .map_err(|e| e.to_string())?;
    let rules = pasetors::claims::ClaimsValidationRules::new();
    let t = pasetors::local::decrypt(&k, &untrusted, &rules, None, None).map_err(|e| e.to_string())?;
    Ok(t.payload_claims().map(|c| c.get_claim("sub").map(|v| v.as_str().map(|s| s.to_string()))))
}

/// `AsymmetricKeyPair::<V4>::generate`: a fresh secret key (seed then public
/// key, 64 bytes) and its public key, or the error's text.
#[verifier::external_body]
pub(crate) fn generate_key_pair() -> (r: Result<(Vec<u8>, Vec<u8>), String>)
    ensures
        r matches Ok((s, p)) ==> s@.len() == 64 && p@.len() == 32 && p@ == s@.subrange(32, 64)
            && ed25519_public_of(s@.subrange(0, 32)) == p@ && !zero_seed(s@),
{
    let g = <pasetors::keys::AsymmetricKeyPair<pasetors::version4::V4> as pasetors::keys::Generate<
        pasetors::keys::AsymmetricKeyPair<pasetors::version4::V4>,
        pasetors::version4::V4,
    >>::generate();
    match g {
        Ok(kp) => Ok((kp.secret.as_bytes().to_vec(), kp.public.as_bytes().to_vec())),
        Err(e) => Err(e.to_string()),
    }
}

/// Whether the first 32 bytes (the seed) are all zero.
pub open spec fn zero_seed(bytes: Seq<u8>) -> bool {
    forall|i: int| 0 <= i < 32 ==> #[trigger] bytes[i] == 0
}

/// `AsymmetricSecretKey::<V4>::from`: accepts 64 bytes whose second half is
/// the public key of the seed in the first half; otherwise the error `Key`.
/// (It panics on a 64-byte key with an all-zero seed, hence the `requires`.)
#[verifier::external_body]
pub(crate) fn secret_key_check(bytes: &[u8]) -> (r: Result<(), String>)
    requires
        !(bytes@.len() == 64 && zero_seed(bytes@)),
    ensures
        r is Ok <==> (bytes@.len() == 64 && ed25519_public_of(bytes@.subrange(0, 32)) == bytes@.subrange(
            32,
            64,
        )),
        r matches Err(m) ==> m@ == "Key"@,
{
    match pasetors::keys::AsymmetricSecretKey::<pasetors::version4::V4>::from(bytes) {
        Ok(_) => Ok(()),
        Err(e) => Err(e.to_string()),
    }
}

/// `AsymmetricPublicKey::<V4>::from`: accepts exactly 32 bytes; otherwise
/// the error `Key`.
#[verifier::external_body]
pub(crate) fn public_key_check(bytes: &[u8]) -> (r: Result<(), String>)
    ensures
        r is Ok <==> bytes@.len() == 32,
        r matches Err(m) ==> m@ == "Key"@,
{
    match pasetors::keys::AsymmetricPublicKey::<pasetors::version4::V4>::from(bytes) {
        Ok(_) => Ok(()),
        Err(e) => Err(e.to_string()),
    }
}

/// `public::sign` of fresh claims (issued now, expiring in an hour) whose
/// `sub` is `subject` (`Claims::subject` refuses an empty one). The token
/// depends on the time; what is promised is that its signature checks under
/// the key's public half and its subject is `subject`.
#[verifier::external_body]
pub(crate) fn public_sign_subject(secret: &[u8], subject: &str) -> (r: Result<String, String>)
    requires
        secret@.len() == 64,
        ed25519_public_of(secret@.subrange(0, 32)) == secret@.subrange(32, 64),
        !zero_seed(secret@),
    ensures
        r matches Ok(t) ==> public_token_subject(secret@.subrange(32, 64), t@) == Some(subject@),
{
    let k = pasetors::keys::AsymmetricSecretKey::<pasetors::version4::V4>::from(secret).map_err(|e| e.to_string())?;
    let mut claims = pasetors::claims::Claims::new().map_err(|e| e.to_string())?;
    claims.subject(subject).map_err(|e| e.to_string())?;
    pasetors::public::sign(&k, &claims, None, None).map_err(|e| e.to_string())
}

/// `public::verify` of `token` with the default rules, then the subject
/// layers of the claims. Whether it succeeds depends on the clock (the rules
/// check the expiry); a token that verifies gives the subject of the token
/// whose signature checks under `public`.
#[verifier::external_body]
pub(crate) fn public_verify(public: &[u8], token: &str) -> (r: Result<SubLayers, String>)
    requires
        public@.len() == 32,
    ensures
        r matches Ok(c) ==> public_token_subject(public@, token@) == sub_text(c),
{
    let k = pasetors::keys::AsymmetricPublicKey::<pasetors::version4::V4>::from(public).map_err(|e| e.to_string())?;
    let untrusted = pasetors::token::UntrustedToken::<pasetors::Public, pasetors::version4::V4>::try_from(token)
        .map_err(|e| e.to_string())?;
    let rules = pasetors::claims::ClaimsValidationRules::new();
    let t = pasetors::public::verify(&k, &untrusted, &rules, None, None).map_err(|e| e.to_string())?;
    Ok(t.payload_claims().map(|c| c.get_claim("sub").map(|v| v.as_str().map(|s| s.to_string()))))
}

/// What the subject layers of a checked token say.
pub open spec fn claim_of(c: SubLayers) -> SubjectClaim {
    match c {
        None => SubjectClaim::NoClaims,
        Some(None) => SubjectClaim::NoSubject,
        Some(Some(None)) => SubjectClaim::NoSubject,
        Some(Some(Some(s))) => SubjectClaim::Subject(s),
    }
}

/// What a checked token says of its subject: no claims, no string `sub`, or
/// the subject.
pub fn token_subject(c: SubLayers) -> (r: SubjectClaim)
    ensures
        r == claim_of(c),
{
    match c {
        None => SubjectClaim::NoClaims,
        Some(None) => SubjectClaim::NoSubject,
        Some(Some(None)) => SubjectClaim::NoSubject,
        Some(Some(Some(s))) => SubjectClaim::Subject(s),
    }
}

} // verus!
