//! Access tokens: PASETO v4.public (Ed25519). Nodes that hold only the public
//! key can check tokens; all nodes share one key pair.

use vstd::prelude::*;
use vstd::string::StringSliceAdditionalSpecFns;
use crate::auth::error::AuthError;
use crate::auth::hex::{decode_hex_bytes, encode_hex, hex_decode, hex_encode, hex_error_message, hex_slices_ok, HexError};
use crate::auth::paseto::{
    ed25519_public_of, generate_key_pair, public_key_check, public_sign_subject, public_token_subject, public_verify,
    secret_key_check, token_subject, zero_seed, SubjectClaim,
};
use crate::text::{ascii_chars, decimal_string, decimal_text, int_error_message, lemma_parse_decimal_text, lemma_parse_uint_bounded, parse_uint, parse_uint_spec, IntErrorKind};

verus! {

/// A 64-byte secret key (seed, then its public key) is one the key type
/// accepts.
pub open spec fn secret_key_ok(b: Seq<u8>) -> bool {
    b.len() == 64 && ed25519_public_of(b.subrange(0, 32)) == b.subrange(32, 64)
}

/// What a checked access token gives: the user id in its subject, or the
/// message of the `Token` error.
pub open spec fn access_verdict(claim: SubjectClaim) -> Result<u64, Seq<char>> {
    match claim {
        SubjectClaim::Rejected(m) => Err(m@),
        SubjectClaim::NoClaims => Err("no claims"@),
        SubjectClaim::NoSubject => Err("missing sub"@),
        SubjectClaim::Subject(s) => match parse_uint_spec(vstd::utf8::encode_utf8(s@), u64::MAX as int) {
            Err(k) => Err(int_error_message(k)),
            Ok(v) => Ok(v as u64),
        },
    }
}

/// A result agrees with an expected outcome: the same user id, or a `Token`
/// error whose text is the expected one.
pub open spec fn token_result_is(r: Result<u64, AuthError>, v: Result<u64, Seq<char>>) -> bool {
    match (r, v) {
        (Ok(a), Ok(b)) => a == b,
        (Err(AuthError::Token(m)), Err(t)) => m@ == t,
        _ => false,
    }
}

/// The user id a checked token names in its subject.
pub fn subject_user_id(claim: SubjectClaim) -> (r: Result<u64, AuthError>)
    ensures
        token_result_is(r, access_verdict(claim)),
{
    match claim {
        SubjectClaim::Rejected(m) => Err(AuthError::Token(m)),
        SubjectClaim::NoClaims => Err(AuthError::Token("no claims".to_owned())),
        SubjectClaim::NoSubject => Err(AuthError::Token("missing sub".to_owned())),
        SubjectClaim::Subject(s) => match parse_uint(s.as_str(), u64::MAX) {
            Err(k) => Err(AuthError::Token(k.message())),
            Ok(v) => Ok(v),
        },
    }
}

/// The hex text of a key can be read without slicing inside a character.
pub open spec fn hex_readable(b: Seq<u8>) -> bool {
    b.len() % 2 == 1 || hex_slices_ok(b, 0)
}

/// What importing a key pair from hex gives: the two keys, or the message of
/// the `Token` error (secret first: its hex, then the key; then the public
/// key's hex, then the key).
pub open spec fn import_verdict(secret_text: Seq<u8>, public_text: Seq<u8>) -> Result<(Seq<u8>, Seq<u8>), Seq<char>> {
    if secret_text.len() % 2 == 1 {
        Err(hex_error_message(HexError::OddLength))
    } else {
        match hex_decode(secret_text) {
            None => Err(hex_error_message(HexError::InvalidDigit)),
            Some(s) => if !secret_key_ok(s) {
                Err("Key"@)
            } else if public_text.len() % 2 == 1 {
                Err(hex_error_message(HexError::OddLength))
            } else {
                match hex_decode(public_text) {
                    None => Err(hex_error_message(HexError::InvalidDigit)),
                    Some(p) => if p.len() != 32 {
                        Err("Key"@)
                    } else {
                        Ok((s, p))
                    },
                }
            },
        }
    }
}

/// The key pair: a secret key (seed, then its public key) and the public key
/// used to check tokens.
pub struct TokenKeys {
    secret: Vec<u8>,
    public: Vec<u8>,
}

impl TokenKeys {
    pub closed spec fn secret_bytes(&self) -> Seq<u8> {
        self.secret@
    }

    pub closed spec fn public_bytes(&self) -> Seq<u8> {
        self.public@
    }

    /// The secret key is one the key type accepts (with a non-zero seed) and
    /// the public key has 32 bytes.
    pub closed spec fn wf(&self) -> bool {
        &&& secret_key_ok(self.secret@)
        &&& !zero_seed(self.secret@)
        &&& self.public@.len() == 32
    }

    /// A fresh key pair.
    pub fn generate() -> (r: Result<TokenKeys, AuthError>)
        ensures
            r matches Ok(k) ==> k.wf() && k.public_bytes() == k.secret_bytes().subrange(32, 64),
            r matches Err(e) ==> e is Token,
    {
        match generate_key_pair() {
            Ok((s, p)) => Ok(TokenKeys { secret: s, public: p }),
            Err(m) => Err(AuthError::Token(m)),
        }
    }

    /// The keys as lowercase hex: (secret, public).
    pub fn export_hex(&self) -> (r: (String, String))
        ensures
            r.0@ == ascii_chars(hex_encode(self.secret_bytes())),
            r.1@ == ascii_chars(hex_encode(self.public_bytes())),
    {
        (encode_hex(self.secret.as_slice()), encode_hex(self.public.as_slice()))
    }

    /// Keys from hex text (to share one key pair between nodes).
    pub fn import_hex(secret_hex: &str, public_hex: &str) -> (r: Result<TokenKeys, AuthError>)
        requires
            hex_readable(secret_hex.spec_bytes()),
            hex_decode(secret_hex.spec_bytes()) matches Some(s) ==> !(s.len() == 64 && zero_seed(s)),
            hex_decode(secret_hex.spec_bytes()) matches Some(s) && secret_key_ok(s) ==> hex_readable(
                public_hex.spec_bytes(),
            ),
        ensures
            match (r, import_verdict(secret_hex.spec_bytes(), public_hex.spec_bytes())) {
                (Ok(k), Ok((s, p))) => k.wf() && k.secret_bytes() == s && k.public_bytes() == p,
                (Err(AuthError::Token(m)), Err(t)) => m@ == t,
                _ => false,
            },
    {
        let secret = match decode_hex_bytes(secret_hex) {
            Ok(b) => b,
            Err(e) => return Err(AuthError::Token(e.message())),
        };
        if let Err(m) = secret_key_check(secret.as_slice()) {
            return Err(AuthError::Token(m));
        }
        let public = match decode_hex_bytes(public_hex) {
            Ok(b) => b,
            Err(e) => return Err(AuthError::Token(e.message())),
        };
        if let Err(m) = public_key_check(public.as_slice()) {
            return Err(AuthError::Token(m));
        }
        Ok(TokenKeys { secret, public })
    }

    /// A signed access token whose subject is `user_id` in decimal.
    pub fn issue_access(&self, user_id: u64) -> (r: Result<String, AuthError>)
        requires
            self.wf(),
        ensures
            r matches Err(e) ==> e is Token,
            r matches Ok(t) ==> public_token_subject(self.secret_bytes().subrange(32, 64), t@) == Some(
                decimal_text(user_id as nat),
            ),
    {
        let sub = decimal_string(user_id);
        match public_sign_subject(self.secret.as_slice(), sub.as_str()) {
            Ok(t) => Ok(t),
            Err(m) => Err(AuthError::Token(m)),
        }
    }

    /// Checks an access token (signature and expiry) and gives its user id.
    pub fn verify_access(&self, token: &str) -> (r: Result<u64, AuthError>)
        requires
            self.wf(),
        ensures
            exists|claim: SubjectClaim| token_result_is(r, #[trigger] access_verdict(claim)),
            public_token_subject(self.public_bytes(), token@) is None ==> r is Err,
            r matches Ok(u) ==> (public_token_subject(self.public_bytes(), token@) matches Some(s)
                && parse_uint_spec(vstd::utf8::encode_utf8(s), u64::MAX as int) == Ok::<int, IntErrorKind>(u as int)),
    {
        let claim = match public_verify(self.public.as_slice(), token) {
            Ok(c) => token_subject(c),
            Err(m) => SubjectClaim::Rejected(m),
        };
        let ghost c = claim;
        let r = subject_user_id(claim);
        proof {
            assert(token_result_is(r, access_verdict(c)));
            if let SubjectClaim::Subject(s) = c {
                lemma_parse_uint_bounded(vstd::utf8::encode_utf8(s@), u64::MAX as int);
            }
        }
        r
    }
}

/// An access token issued for `user_id` checks back to `user_id` under the
/// same key pair: its subject, read under the pair's public key, parses to
/// `user_id`, so a check of it that succeeds gives `user_id` and no other id.
pub proof fn lemma_access_round_trip(keys: TokenKeys, user_id: u64, token: Seq<char>, checked: u64)
    requires
        keys.wf(),
        keys.public_bytes() == keys.secret_bytes().subrange(32, 64),
        public_token_subject(keys.secret_bytes().subrange(32, 64), token) == Some(decimal_text(user_id as nat)),
        public_token_subject(keys.public_bytes(), token) matches Some(s) && parse_uint_spec(
            vstd::utf8::encode_utf8(s),
            u64::MAX as int,
        ) == Ok::<int, IntErrorKind>(checked as int),
    ensures
        parse_uint_spec(vstd::utf8::encode_utf8(decimal_text(user_id as nat)), u64::MAX as int) == Ok::<
            int,
            IntErrorKind,
        >(user_id as int),
        checked == user_id,
{
    lemma_parse_decimal_text(user_id as nat, u64::MAX as int);
}

} // verus!
