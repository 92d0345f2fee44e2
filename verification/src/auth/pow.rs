//! Sign-up bot protection: a proof-of-work challenge.
//!
//! The challenge is a server-issued encrypted token that carries the
//! difficulty, so any node holding the shared key can check it. The client
//! finds a `nonce` such that `sha256(challenge ":" nonce)` starts with at
//! least `difficulty` zero bits.

use vstd::prelude::*;
use vstd::string::StringSliceAdditionalSpecFns;
use vstd::std_specs::bits::u8_leading_zeros;
use crate::auth::digest::{sha256, sha256_digest};
use crate::auth::error::AuthError;
use crate::auth::hex::{decode_hex_bytes, encode_hex, hex_decode, hex_encode, hex_error_message, hex_slices_ok, HexError};
use crate::auth::paseto::{generate_local_key, local_decrypt, local_encrypt_subject, local_key_check, local_token_subject, token_subject, SubjectClaim};
use crate::text::{ascii_chars, decimal_digits, decimal_string, decimal_text, int_error_message, lemma_decimal_text_bytes, lemma_parse_decimal_text, parse_uint, parse_uint_spec, IntErrorKind};

verus! {

/// Default difficulty in leading zero bits.
pub const DEFAULT_DIFFICULTY: u8 = 18;

/// The number of leading zero bits of a byte string.
pub open spec fn leading_zeros_of(s: Seq<u8>) -> int
    decreases s.len(),
{
    if s.len() == 0 {
        0
    } else if s[0] == 0 {
        8 + leading_zeros_of(s.drop_first())
    } else {
        u8_leading_zeros(s[0]) as int
    }
}

/// The number of leading zero bits of `bytes`.
pub fn leading_zero_bits(bytes: &[u8]) -> (n: u32)
    requires
        bytes@.len() * 8 <= u32::MAX,
    ensures
        n == leading_zeros_of(bytes@),
{
    let mut n: u32 = 0;
    let mut i: usize = 0;
    assert(bytes@.subrange(0, bytes@.len() as int) =~= bytes@);
    while i < bytes.len()
        invariant
            i <= bytes@.len(),
            bytes@.len() * 8 <= u32::MAX,
            n == 8 * i,
            leading_zeros_of(bytes@) == n + leading_zeros_of(bytes@.subrange(i as int, bytes@.len() as int)),
        decreases bytes.len() - i,
    {
        let b = bytes[i];
        let ghost rest = bytes@.subrange(i as int, bytes@.len() as int);
        assert(rest[0] == b);
        if b == 0 {
            assert(rest.drop_first() =~= bytes@.subrange(i + 1, bytes@.len() as int));
            n = n + 8;
        } else {
            proof {
                vstd::std_specs::bits::axiom_u8_leading_zeros(b);
            }
            n = n + b.leading_zeros();
            return n;
        }
        i = i + 1;
    }
    assert(bytes@.subrange(i as int, bytes@.len() as int) =~= Seq::<u8>::empty());
    n
}

/// The hashed message: challenge, `:`, nonce.
pub open spec fn pow_message(challenge: Seq<u8>, nonce: Seq<u8>) -> Seq<u8> {
    challenge + seq![58u8] + nonce
}

/// The nonce meets the difficulty for the challenge.
pub open spec fn pow_ok(challenge: Seq<u8>, nonce: Seq<u8>, difficulty: u8) -> bool {
    leading_zeros_of(sha256_digest(pow_message(challenge, nonce))) >= difficulty
}

fn pow_digest(challenge: &str, nonce: &str) -> (h: Vec<u8>)
    ensures
        h@ == sha256_digest(pow_message(challenge.spec_bytes(), nonce.spec_bytes())),
        h@.len() == 32,
{
    let mut msg: Vec<u8> = Vec::new();
    let c = challenge.as_bytes();
    let n = nonce.as_bytes();
    let mut i: usize = 0;
    while i < c.len()
        invariant
            i <= c@.len(),
            msg@ == c@.take(i as int),
        decreases c.len() - i,
    {
        msg.push(c[i]);
        assert(msg@ =~= c@.take(i + 1));
        i = i + 1;
    }
    msg.push(58);
    let mut j: usize = 0;
    while j < n.len()
        invariant
            j <= n@.len(),
            msg@ == c@ + seq![58u8] + n@.take(j as int),
        decreases n.len() - j,
    {
        msg.push(n[j]);
        assert(msg@ =~= c@ + seq![58u8] + n@.take(j + 1));
        j = j + 1;
    }
    assert(c@.take(c@.len() as int) =~= c@);
    assert(n@.take(n@.len() as int) =~= n@);
    sha256(msg.as_slice())
}

/// Whether `nonce` solves `challenge` at `difficulty`: the single check shared
/// by the server and the client solver.
pub fn satisfies(challenge: &str, nonce: &str, difficulty: u8) -> (r: bool)
    ensures
        r == pow_ok(challenge.spec_bytes(), nonce.spec_bytes(), difficulty),
{
    let h = pow_digest(challenge, nonce);
    leading_zero_bits(h.as_slice()) >= difficulty as u32
}

/// The least nonce in `from..=to` whose decimal text solves the challenge.
fn search(challenge: &str, difficulty: u8, from: u64, to: u64) -> (r: Option<u64>)
    ensures
        match r {
            Some(n) => from <= n <= to && pow_ok(challenge.spec_bytes(), decimal_digits(n as nat), difficulty)
                && forall|m: u64| from <= m < n ==> !pow_ok(challenge.spec_bytes(), #[trigger] decimal_digits(m as nat), difficulty),
            None => forall|m: u64| from <= m <= to ==> !pow_ok(challenge.spec_bytes(), #[trigger] decimal_digits(m as nat), difficulty),
        },
{
    if from > to {
        return None;
    }
    let mut nonce: u64 = from;
    loop
        invariant
            from <= nonce <= to,
            forall|m: u64| from <= m < nonce ==> !pow_ok(challenge.spec_bytes(), #[trigger] decimal_digits(m as nat), difficulty),
        decreases to - nonce,
    {
        let s = decimal_string(nonce);
        proof {
            lemma_decimal_text_bytes(nonce as nat);
        }
        if satisfies(challenge, s.as_str(), difficulty) {
            return Some(nonce);
        }
        if nonce == to {
            return None;
        }
        nonce = nonce + 1;
    }
}

/// Finds the least decimal nonce that solves the challenge (the client side).
pub fn solve(challenge: &str, difficulty: u8) -> (r: String)
    requires
        exists|n: u64| pow_ok(challenge.spec_bytes(), #[trigger] decimal_digits(n as nat), difficulty),
    ensures
        exists|n: u64|
            r@ == decimal_text(n as nat) && pow_ok(challenge.spec_bytes(), #[trigger] decimal_digits(n as nat), difficulty)
                && forall|m: u64| m < n ==> !pow_ok(challenge.spec_bytes(), #[trigger] decimal_digits(m as nat), difficulty),
{
    match search(challenge, difficulty, 0, u64::MAX) {
        Some(n) => decimal_string(n),
        None => {
            proof {
                let w = choose|n: u64| pow_ok(challenge.spec_bytes(), #[trigger] decimal_digits(n as nat), difficulty);
                assert(!pow_ok(challenge.spec_bytes(), decimal_digits(w as nat), difficulty));
            }
            decimal_string(0)
        },
    }
}

/// Looks for a solving nonce among `0..=max_nonce`; gives the least solving
/// nonce of all when one is there, and `None` otherwise.
pub fn try_solve(challenge: &str, difficulty: u8, max_nonce: u64) -> (r: Option<String>)
    ensures
        r is Some <==> exists|n: u64| n <= max_nonce && pow_ok(challenge.spec_bytes(), #[trigger] decimal_digits(n as nat), difficulty),
        r matches Some(s) ==> exists|n: u64|
            s@ == decimal_text(n as nat) && pow_ok(challenge.spec_bytes(), #[trigger] decimal_digits(n as nat), difficulty)
                && forall|m: u64| m < n ==> !pow_ok(challenge.spec_bytes(), #[trigger] decimal_digits(m as nat), difficulty),
{
    match search(challenge, difficulty, 0, max_nonce) {
        Some(n) => Some(decimal_string(n)),
        None => {
            proof {
                assert forall|n: u64| n <= max_nonce implies !pow_ok(
                    challenge.spec_bytes(),
                    #[trigger] decimal_digits(n as nat),
                    difficulty,
                ) by {}
            }
            None
        },
    }
}


/// What a checked challenge token gives: `Ok` when its difficulty parses and
/// the nonce meets it, else the message of the `Pow` error.
pub open spec fn challenge_verdict(
    claim: SubjectClaim,
    challenge: Seq<u8>,
    nonce: Seq<u8>,
) -> Result<(), Seq<char>> {
    match claim {
        SubjectClaim::Rejected(m) => Err(m@),
        SubjectClaim::NoClaims => Err("no claims"@),
        SubjectClaim::NoSubject => Err("missing difficulty"@),
        SubjectClaim::Subject(s) => match parse_uint_spec(vstd::utf8::encode_utf8(s@), 255) {
            Err(k) => Err(int_error_message(k)),
            Ok(d) => if pow_ok(challenge, nonce, d as u8) {
                Ok(())
            } else {
                Err("unsolved challenge"@)
            },
        },
    }
}

/// A result agrees with an expected outcome: both `Ok`, or a `Pow` error
/// whose text is the expected one.
pub open spec fn pow_result_is(r: Result<(), AuthError>, v: Result<(), Seq<char>>) -> bool {
    match (r, v) {
        (Ok(()), Ok(())) => true,
        (Err(AuthError::Pow(m)), Err(t)) => m@ == t,
        _ => false,
    }
}

/// Decides a challenge from what its token says of the difficulty.
pub fn check_challenge(claim: SubjectClaim, challenge: &str, nonce: &str) -> (r: Result<(), AuthError>)
    ensures
        pow_result_is(r, challenge_verdict(claim, challenge.spec_bytes(), nonce.spec_bytes())),
{
    match claim {
        SubjectClaim::Rejected(m) => Err(AuthError::Pow(m)),
        SubjectClaim::NoClaims => Err(AuthError::Pow("no claims".to_owned())),
        SubjectClaim::NoSubject => Err(AuthError::Pow("missing difficulty".to_owned())),
        SubjectClaim::Subject(s) => match parse_uint(s.as_str(), 255) {
            Err(k) => Err(AuthError::Pow(k.message())),
            Ok(d) => {
                if satisfies(challenge, nonce, d as u8) {
                    Ok(())
                } else {
                    Err(AuthError::Pow("unsolved challenge".to_owned()))
                }
            },
        },
    }
}

/// Challenge keys: a 32-byte symmetric key, shared by all nodes so that any
/// node can check a challenge another issued.
pub struct PowKeys {
    key: Vec<u8>,
}

impl PowKeys {
    /// The key bytes.
    pub closed spec fn key_bytes(&self) -> Seq<u8> {
        self.key@
    }

    /// The key has the 32 bytes a v4.local key has.
    pub closed spec fn wf(&self) -> bool {
        self.key@.len() == 32
    }

    /// A fresh random key.
    pub fn generate() -> (r: Result<PowKeys, AuthError>)
        ensures
            r matches Ok(k) ==> k.wf(),
            r matches Err(e) ==> e is Pow,
    {
        match generate_local_key() {
            Ok(k) => Ok(PowKeys { key: k }),
            Err(m) => Err(AuthError::Pow(m)),
        }
    }

    /// The key as lowercase hex (to share it between nodes).
    pub fn export_hex(&self) -> (s: String)
        ensures
            s@ == ascii_chars(hex_encode(self.key_bytes())),
    {
        encode_hex(self.key.as_slice())
    }

    /// A key from hex text.
    pub fn import_hex(secret_hex: &str) -> (r: Result<PowKeys, AuthError>)
        requires
            secret_hex.spec_bytes().len() % 2 == 1 || hex_slices_ok(secret_hex.spec_bytes(), 0),
        ensures
            secret_hex.spec_bytes().len() % 2 == 1 ==> (r matches Err(AuthError::Pow(m)) && m@
                == hex_error_message(HexError::OddLength)),
            secret_hex.spec_bytes().len() % 2 == 0 ==> match hex_decode(secret_hex.spec_bytes()) {
                None => r matches Err(AuthError::Pow(m)) && m@ == hex_error_message(HexError::InvalidDigit),
                Some(b) => if b.len() == 32 {
                    r matches Ok(k) && k.wf() && k.key_bytes() == b
                } else {
                    r matches Err(AuthError::Pow(m)) && m@ == "Key"@
                },
            },
    {
        let bytes = match decode_hex_bytes(secret_hex) {
            Ok(b) => b,
            Err(e) => return Err(AuthError::Pow(e.message())),
        };
        match local_key_check(bytes.as_slice()) {
            Ok(()) => Ok(PowKeys { key: bytes }),
            Err(m) => Err(AuthError::Pow(m)),
        }
    }

    /// Issues a challenge: an encrypted token whose authenticated subject is
    /// the difficulty in decimal.
    pub fn issue_challenge(&self, difficulty: u8) -> (r: Result<String, AuthError>)
        requires
            self.wf(),
        ensures
            r matches Err(e) ==> e is Pow,
            r matches Ok(t) ==> local_token_subject(self.key_bytes(), t@) == Some(decimal_text(difficulty as nat)),
    {
        let sub = decimal_string(difficulty as u64);
        match local_encrypt_subject(self.key.as_slice(), sub.as_str()) {
            Ok(t) => Ok(t),
            Err(m) => Err(AuthError::Pow(m)),
        }
    }

    /// Checks a solved challenge: the token must decrypt under this key and
    /// be unexpired, and the nonce must meet the difficulty it carries (the
    /// client's own claim of a difficulty is never trusted).
    pub fn verify(&self, challenge: &str, nonce: &str) -> (r: Result<(), AuthError>)
        requires
            self.wf(),
        ensures
            exists|claim: SubjectClaim|
                pow_result_is(r, #[trigger] challenge_verdict(claim, challenge.spec_bytes(), nonce.spec_bytes())),
            local_token_subject(self.key_bytes(), challenge@) is None ==> r is Err,
            r is Ok ==> (local_token_subject(self.key_bytes(), challenge@) matches Some(s)
                && parse_uint_spec(vstd::utf8::encode_utf8(s), 255) matches Ok(d)
                && pow_ok(challenge.spec_bytes(), nonce.spec_bytes(), d as u8)),
    {
        let claim = match local_decrypt(self.key.as_slice(), challenge) {
            Ok(c) => token_subject(c),
            Err(m) => SubjectClaim::Rejected(m),
        };
        let ghost c = claim;
        let r = check_challenge(claim, challenge, nonce);
        proof {
            assert(pow_result_is(r, challenge_verdict(c, challenge.spec_bytes(), nonce.spec_bytes())));
        }
        r
    }
}

/// A challenge issued at `difficulty` is checked against `difficulty` under
/// the same key: its subject parses to `difficulty`, so a check that succeeds
/// means the nonce meets the issued difficulty, whatever the client claims.
pub proof fn lemma_challenge_round_trip(
    keys: PowKeys,
    difficulty: u8,
    challenge: Seq<char>,
    challenge_bytes: Seq<u8>,
    nonce: Seq<u8>,
)
    requires
        keys.wf(),
        local_token_subject(keys.key_bytes(), challenge) == Some(decimal_text(difficulty as nat)),
        local_token_subject(keys.key_bytes(), challenge) matches Some(s) && parse_uint_spec(
            vstd::utf8::encode_utf8(s),
            255,
        ) matches Ok(d) && pow_ok(challenge_bytes, nonce, d as u8),
    ensures
        parse_uint_spec(vstd::utf8::encode_utf8(decimal_text(difficulty as nat)), 255) == Ok::<int, IntErrorKind>(
            difficulty as int,
        ),
        pow_ok(challenge_bytes, nonce, difficulty),
{
    lemma_parse_decimal_text(difficulty as nat, 255);
}

} // verus!
