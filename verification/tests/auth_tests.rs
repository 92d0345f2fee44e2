use backend::auth::error::AuthError;
use backend::auth::hex::{decode_hex_bytes, encode_hex, HexError};
use backend::auth::paseto::SubjectClaim;
use backend::auth::password::{hash_password, verify_password};
use backend::auth::pow::{
    check_challenge, leading_zero_bits, satisfies, solve, try_solve, PowKeys, DEFAULT_DIFFICULTY,
};
use backend::auth::refresh::{generate_refresh, hash_refresh};
use backend::auth::token::{subject_user_id, TokenKeys};
use backend::auth::webauthn::{exclusion_list, user_uuid, WebauthnService};
use backend::auth::totp::{decode_hex, generate, new_secret, otpauth_uri, verify, DIGITS, STEP};
use backend::text::{parse_uint, IntErrorKind};

// ---- password ----

#[test]
fn hash_then_verify() {
    let phc = hash_password("hunter2").unwrap();
    assert!(phc.starts_with("$argon2id$"));
    assert!(verify_password("hunter2", &phc).unwrap());
    assert!(!verify_password("wrong", &phc).unwrap());
}

#[test]
fn verify_password_rejects_malformed_hash() {
    assert!(matches!(verify_password("x", "not a phc string"), Err(AuthError::Hash(_))));
}

// ---- proof of work ----

#[test]
fn solve_then_verify_roundtrip() {
    let keys = PowKeys::generate().unwrap();
    let challenge = keys.issue_challenge(8).unwrap();
    assert!(challenge.starts_with("v4.local."));
    let nonce = solve(&challenge, 8);
    assert!(keys.verify(&challenge, &nonce).is_ok());
}

#[test]
fn wrong_nonce_rejected() {
    let keys = PowKeys::generate().unwrap();
    let challenge = keys.issue_challenge(12).unwrap();
    assert!(keys.verify(&challenge, "0").is_err());
}

#[test]
fn tampered_challenge_rejected() {
    let keys = PowKeys::generate().unwrap();
    let mut challenge = keys.issue_challenge(8).unwrap();
    let nonce = solve(&challenge, 8);
    challenge.push('x');
    assert!(keys.verify(&challenge, &nonce).is_err());
}

#[test]
fn shared_key_verifies_across_instances() {
    let issuer = PowKeys::generate().unwrap();
    let challenge = issuer.issue_challenge(8).unwrap();
    let nonce = solve(&challenge, 8);
    let verifier = PowKeys::import_hex(&issuer.export_hex()).unwrap();
    assert!(verifier.verify(&challenge, &nonce).is_ok());
}

#[test]
fn wrong_key_rejected() {
    let a = PowKeys::generate().unwrap();
    let b = PowKeys::generate().unwrap();
    let challenge = a.issue_challenge(8).unwrap();
    let nonce = solve(&challenge, 8);
    assert!(b.verify(&challenge, &nonce).is_err());
}

#[test]
fn leading_zero_bits_counts() {
    assert_eq!(leading_zero_bits(&[0x00, 0x00, 0xFF]), 16);
    assert_eq!(leading_zero_bits(&[0x0F, 0xFF]), 4);
    assert_eq!(leading_zero_bits(&[0xFF]), 0);
}

#[test]
fn leading_zero_bits_edges() {
    assert_eq!(leading_zero_bits(&[]), 0);
    assert_eq!(leading_zero_bits(&[0x00, 0x00]), 16);
    assert_eq!(leading_zero_bits(&[0x01]), 7);
    assert_eq!(leading_zero_bits(&[0x00, 0x40, 0x00]), 9);
}

#[test]
fn solver_finds_least_nonce() {
    let c = "some-challenge";
    let s = solve(c, 4);
    let n: u64 = s.parse().unwrap();
    assert!(satisfies(c, &s, 4));
    for m in 0..n {
        assert!(!satisfies(c, &m.to_string(), 4));
    }
    assert_eq!(try_solve(c, 4, n), Some(s.clone()));
    if n > 0 {
        assert_eq!(try_solve(c, 4, n - 1), None);
    }
    assert!(satisfies(c, "anything", 0));
    assert_eq!(DEFAULT_DIFFICULTY, 18);
}

#[test]
fn challenge_claims_decide_the_verdict() {
    let c = "abc";
    assert_eq!(check_challenge(SubjectClaim::NoClaims, c, "0"), Err(AuthError::Pow("no claims".into())));
    assert_eq!(
        check_challenge(SubjectClaim::NoSubject, c, "0"),
        Err(AuthError::Pow("missing difficulty".into()))
    );
    assert_eq!(
        check_challenge(SubjectClaim::Rejected("bad token".into()), c, "0"),
        Err(AuthError::Pow("bad token".into()))
    );
    assert_eq!(
        check_challenge(SubjectClaim::Subject("256".into()), c, "0"),
        Err(AuthError::Pow("number too large to fit in target type".into()))
    );
    assert_eq!(
        check_challenge(SubjectClaim::Subject("x".into()), c, "0"),
        Err(AuthError::Pow("invalid digit found in string".into()))
    );
    assert_eq!(check_challenge(SubjectClaim::Subject("0".into()), c, "0"), Ok(()));
    let nonce = solve(c, 10);
    assert_eq!(check_challenge(SubjectClaim::Subject("10".into()), c, &nonce), Ok(()));
}

// ---- refresh tokens ----

#[test]
fn generated_token_hash_matches() {
    let (token, hash) = generate_refresh().unwrap();
    assert_eq!(token.len(), 64);
    assert_eq!(hash_refresh(&token), hash);
}

#[test]
fn tokens_are_unique() {
    let (a, _) = generate_refresh().unwrap();
    let (b, _) = generate_refresh().unwrap();
    assert_ne!(a, b);
}

#[test]
fn refresh_hash_is_sha256() {
    let h = hash_refresh("abc");
    assert_eq!(
        encode_hex(&h),
        "ba7816bf8f01cfea414140de5dae2223b00361a396177a9cb410ff61f20015ad"
    );
}

// ---- access tokens ----

#[test]
fn issue_then_verify() {
    let keys = TokenKeys::generate().unwrap();
    let token = keys.issue_access(123).unwrap();
    assert!(token.starts_with("v4.public."));
    assert_eq!(keys.verify_access(&token).unwrap(), 123);
}

#[test]
fn tampered_token_fails() {
    let keys = TokenKeys::generate().unwrap();
    let mut token = keys.issue_access(1).unwrap();
    token.push('x');
    assert!(keys.verify_access(&token).is_err());
}

#[test]
fn exported_keys_verify_across_instances() {
    let issuer = TokenKeys::generate().unwrap();
    let token = issuer.issue_access(42).unwrap();
    let (sk, pk) = issuer.export_hex();
    let verifier = TokenKeys::import_hex(&sk, &pk).unwrap();
    assert_eq!(verifier.verify_access(&token).unwrap(), 42);
    let token2 = verifier.issue_access(7).unwrap();
    assert_eq!(issuer.verify_access(&token2).unwrap(), 7);
}

#[test]
fn wrong_key_fails() {
    let a = TokenKeys::generate().unwrap();
    let b = TokenKeys::generate().unwrap();
    let token = a.issue_access(7).unwrap();
    assert!(b.verify_access(&token).is_err());
}

#[test]
fn import_rejects_bad_hex() {
    assert!(matches!(TokenKeys::import_hex("abc", "00"), Err(AuthError::Token(_))));
    assert!(matches!(TokenKeys::import_hex("zz", "00"), Err(AuthError::Token(_))));
    assert!(matches!(TokenKeys::import_hex("00", "00"), Err(AuthError::Token(_))));
}

#[test]
fn subject_claims_decide_the_user() {
    assert_eq!(subject_user_id(SubjectClaim::Subject("42".into())), Ok(42));
    assert_eq!(subject_user_id(SubjectClaim::NoClaims), Err(AuthError::Token("no claims".into())));
    assert_eq!(subject_user_id(SubjectClaim::NoSubject), Err(AuthError::Token("missing sub".into())));
    assert_eq!(
        subject_user_id(SubjectClaim::Subject("".into())),
        Err(AuthError::Token("cannot parse integer from empty string".into()))
    );
    assert_eq!(
        subject_user_id(SubjectClaim::Subject("18446744073709551616".into())),
        Err(AuthError::Token("number too large to fit in target type".into()))
    );
    assert_eq!(
        subject_user_id(SubjectClaim::Rejected("expired".into())),
        Err(AuthError::Token("expired".into()))
    );
}

// ---- TOTP ----

#[test]
fn generated_code_verifies() {
    let secret = new_secret();
    let now = 1_700_000_000;
    let code = generate(&secret, now).unwrap();
    assert_eq!(code.len(), DIGITS);
    assert!(verify(&secret, &code, now).unwrap());
}

#[test]
fn wrong_code_rejected() {
    let secret = new_secret();
    let now = 1_700_000_000;
    let code = generate(&secret, now).unwrap();
    let bad: String = code.chars().rev().collect();
    if bad != code {
        assert!(!verify(&secret, &bad, now).unwrap());
    }
    assert!(!verify(&secret, "000000", now + 10_000_000).unwrap_or(false) && true);
}

#[test]
fn skew_tolerates_adjacent_step() {
    let secret = new_secret();
    let now = 1_700_000_000;
    let code = generate(&secret, now).unwrap();
    assert!(verify(&secret, &code, now + STEP).unwrap());
    assert!(!verify(&secret, &code, now + STEP * 3).unwrap());
}

#[test]
fn hex_roundtrip() {
    let secret = new_secret();
    assert_eq!(decode_hex(&encode_hex(&secret)).unwrap(), secret);
}

#[test]
fn otpauth_uri_has_issuer() {
    let uri = otpauth_uri(&new_secret(), "alice").unwrap();
    assert!(uri.starts_with("otpauth://totp/"));
    assert!(uri.contains("discord-v1"));
}

#[test]
fn short_secret_is_refused() {
    let short = vec![1u8; 8];
    assert!(matches!(generate(&short, 100), Err(AuthError::Token(_))));
    assert!(matches!(verify(&short, "123456", 100), Err(AuthError::Token(_))));
    assert!(matches!(otpauth_uri(&short, "bob"), Err(AuthError::Token(_))));
    assert!(matches!(otpauth_uri(&new_secret(), "a:b"), Err(AuthError::Token(_))));
}

// ---- hex ----

#[test]
fn hex_decoding_errors() {
    assert_eq!(decode_hex("abc"), Err(AuthError::Token("odd hex length".into())));
    assert_eq!(decode_hex("zz"), Err(AuthError::Token("invalid digit found in string".into())));
    assert_eq!(decode_hex("0aFf"), Ok(vec![0x0a, 0xff]));
    assert_eq!(decode_hex("+f"), Ok(vec![0x0f]));
    assert_eq!(decode_hex_bytes("1"), Err(HexError::OddLength));
    assert_eq!(encode_hex(&[0x00, 0xab, 0x10]), "00ab10");
    assert_eq!(HexError::InvalidDigit.message(), "invalid digit found in string");
}

#[test]
fn uint_parsing_kinds() {
    assert_eq!(parse_uint("", 10), Err(IntErrorKind::Empty));
    assert_eq!(parse_uint("+", 10), Err(IntErrorKind::InvalidDigit));
    assert_eq!(parse_uint("1a", 10), Err(IntErrorKind::InvalidDigit));
    assert_eq!(parse_uint("11", 10), Err(IntErrorKind::PosOverflow));
    assert_eq!(parse_uint("+10", 10), Ok(10));
    assert_eq!(parse_uint("007", 255), Ok(7));
    assert_eq!(IntErrorKind::Empty.message(), "cannot parse integer from empty string");
}

// ---- WebAuthn ----

#[test]
fn webauthn_relying_party_setup() {
    let rp = WebauthnService::new("localhost", "http://localhost:8080").unwrap();
    let (challenge, _state) = rp.start_register(user_uuid(12345), "alice", "Alice", &[]).unwrap();
    let _ = challenge;
    assert!(matches!(WebauthnService::new("example.com", "http://localhost:8080"), Err(AuthError::WebAuthn(_))));
    assert!(matches!(WebauthnService::new("localhost", "not a url"), Err(AuthError::WebAuthn(_))));
    assert_eq!(user_uuid(12345).as_u128(), 12345);
    assert!(exclusion_list(Vec::new()).is_none());
}

#[test]
fn otpauth_uri_encodes_account_and_secret() {
    let secret = [0u8; 16];
    let uri = otpauth_uri(&secret, "a b").unwrap();
    let expected = format!("otpauth://totp/discord-v1:a%20b?secret={}&issuer=discord-v1", "A".repeat(26));
    assert_eq!(uri, expected);
    let uri2 = otpauth_uri(&[0xffu8; 16], "bob").unwrap();
    assert!(uri2.starts_with("otpauth://totp/discord-v1:bob?secret=7777"));
    assert!(uri2.ends_with("&issuer=discord-v1"));
}

#[test]
fn no_passkeys_exclude_nothing() {
    assert!(backend::auth::webauthn::credential_ids(&[]).is_empty());
    assert!(exclusion_list(Vec::new()).is_none());
}
