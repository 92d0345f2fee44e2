//! Second factor: time-based one-time passwords (RFC 6238), computed by the
//! `totp-rs` crate with SHA-1, 6 digits, 30-second steps and a tolerance of
//! one step either way. Secrets travel as hex.

use vstd::prelude::*;
use vstd::string::StringSliceAdditionalSpecFns;
use crate::auth::digest::random_bytes;
use crate::auth::error::AuthError;
use crate::auth::hex::{decode_hex_bytes, hex_decode, hex_error_message, hex_slices_ok, HexError};

pub use crate::auth::hex::encode_hex;

verus! {

/// The issuer shown by authenticator apps.
pub const ISSUER: &'static str = "discord-v1";
/// Digits per code.
pub const DIGITS: usize = 6;
/// Steps of tolerance either way.
pub const SKEW: u8 = 1;
/// Seconds per step.
pub const STEP: u64 = 30;

/// The `digits`-digit SHA-1 code for `secret` at time step `counter`.
pub uninterp spec fn totp_code_at(secret: Seq<u8>, digits: usize, counter: u64) -> Seq<char>;

/// Bit `j` of `bytes` read as one big-endian bit string, zero past its end.
pub open spec fn bit_at(bytes: Seq<u8>, j: int) -> int {
    if 0 <= j < 8 * bytes.len() {
        (bytes[j / 8] as int / vstd::arithmetic::power2::pow2((7 - j % 8) as nat) as int) % 2
    } else {
        0
    }
}

/// The RFC 4648 base32 digit of a 5-bit value: `A`..`Z`, then `2`..`7`.
pub open spec fn base32_digit(v: int) -> char {
    if v < 26 {
        (65 + v) as char
    } else {
        (24 + v) as char
    }
}

/// The unpadded RFC 4648 base32 text of `bytes`: one digit per 5 bits, the
/// last group filled with zero bits, no `=` padding.
pub open spec fn base32_unpadded(bytes: Seq<u8>) -> Seq<char> {
    Seq::new(
        ((8 * bytes.len() + 4) / 5) as nat,
        |i: int|
            base32_digit(
                16 * bit_at(bytes, 5 * i) + 8 * bit_at(bytes, 5 * i + 1) + 4 * bit_at(bytes, 5 * i + 2) + 2
                    * bit_at(bytes, 5 * i + 3) + bit_at(bytes, 5 * i + 4),
            ),
    )
}

/// A byte that percent-encoding keeps: an ASCII letter or digit, `-`, `.`,
/// `_` or `~`.
pub open spec fn url_safe(b: u8) -> bool {
    (48 <= b <= 57) || (65 <= b <= 90) || (97 <= b <= 122) || b == 45 || b == 46 || b == 95 || b == 126
}

/// The upper-case hex digit of `n` (`0..16`).
pub open spec fn upper_hex_digit(n: int) -> u8 {
    if n < 10 {
        (48 + n) as u8
    } else {
        (55 + n) as u8
    }
}

/// Percent-encoding of bytes: safe bytes stay, every other byte becomes `%`
/// and two upper-case hex digits.
pub open spec fn url_encode_bytes(b: Seq<u8>) -> Seq<u8>
    decreases b.len(),
{
    if b.len() == 0 {
        Seq::empty()
    } else {
        let c = b.last();
        if url_safe(c) {
            url_encode_bytes(b.drop_last()).push(c)
        } else {
            url_encode_bytes(b.drop_last()) + seq![37u8, upper_hex_digit((c / 16) as int), upper_hex_digit((c % 16) as int)]
        }
    }
}

/// The percent-encoding of the UTF-8 bytes of `text` (`urlencoding::encode`).
pub open spec fn url_encoded(text: Seq<char>) -> Seq<char> {
    crate::text::ascii_chars(url_encode_bytes(vstd::utf8::encode_utf8(text)))
}

/// Safe bytes encode as themselves.
proof fn lemma_url_encode_safe(b: Seq<u8>)
    requires
        forall|i: int| 0 <= i < b.len() ==> url_safe(#[trigger] b[i]),
    ensures
        url_encode_bytes(b) == b,
    decreases b.len(),
{
    if b.len() > 0 {
        lemma_url_encode_safe(b.drop_last());
        assert(url_safe(b[b.len() - 1]));
        assert(b.drop_last().push(b.last()) =~= b);
    }
}

/// Text made of safe ASCII characters percent-encodes as itself.
pub proof fn lemma_url_encoded_plain(text: Seq<char>)
    requires
        vstd::utf8::is_ascii_chars(text),
        forall|i: int| 0 <= i < text.len() ==> url_safe(#[trigger] text[i] as u8),
    ensures
        url_encoded(text) == text,
{
    vstd::utf8::is_ascii_chars_encode_utf8(text);
    let b = vstd::utf8::encode_utf8(text);
    assert forall|i: int| 0 <= i < b.len() implies url_safe(#[trigger] b[i]) by {
        assert(text[i] as u8 == b[i]);
    }
    lemma_url_encode_safe(b);
    assert(crate::text::ascii_chars(b) =~= text) by {
        assert forall|i: int| 0 <= i < text.len() implies crate::text::ascii_chars(b)[i] == text[i] by {
            assert(text[i] as u8 == b[i]);
        }
    }
}

/// `TOTP::new` (SHA-1): accepts 6 to 8 digits, a secret of at least 16
/// bytes and an issuer and account name without `:`; otherwise its error's
/// text, which is left unsaid.
#[verifier::external_body]
fn totp_build_check(secret: &[u8], digits: usize, skew: u8, step: u64, issuer: &str, account: &str) -> (r: Result<(), String>)
    ensures
        r is Ok <==> (6 <= digits <= 8 && secret@.len() >= 16 && !issuer@.contains(':') && !account@.contains(':')),
{
    let t = totp_rs::TOTP::new(
        totp_rs::Algorithm::SHA1, digits, skew, step, secret.to_vec(), Some(issuer.to_string()),
        account.to_string(),
    );
    match t {
        Ok(_) => Ok(()),
        Err(e) => Err(e.to_string()),
    }
}

/// `TOTP::get_url`. With 6 digits and 30-second steps it is
/// `otpauth://totp/<issuer>:<account>?secret=<base32>&issuer=<issuer>`, the
/// issuer and account percent-encoded; other settings add parameters, which
/// are left unsaid.
#[verifier::external_body]
fn totp_url(secret: &[u8], digits: usize, skew: u8, step: u64, issuer: &str, account: &str) -> (r: String)
    requires
        6 <= digits <= 8,
        secret@.len() >= 16,
        !issuer@.contains(':'),
        !account@.contains(':'),
    ensures
        digits == 6 && step == 30 ==> r@ == "otpauth://totp/"@ + url_encoded(issuer@) + ":"@ + url_encoded(account@)
            + "?secret="@ + base32_unpadded(secret@) + "&issuer="@ + url_encoded(issuer@),
{
    let t = totp_rs::TOTP::new(
        totp_rs::Algorithm::SHA1, digits, skew, step, secret.to_vec(), Some(issuer.to_string()),
        account.to_string(),
    );
    match t {
        Ok(t) => t.get_url(),
        Err(_) => String::new(),
    }
}

/// `TOTP::generate`: the code of the time step of `time`, `digits` ASCII
/// digits.
#[verifier::external_body]
fn totp_generate(secret: &[u8], digits: usize, skew: u8, step: u64, issuer: &str, time: u64) -> (r: String)
    requires
        6 <= digits <= 8,
        secret@.len() >= 16,
        !issuer@.contains(':'),
        step > 0,
    ensures
        r@ == totp_code_at(secret@, digits, time / step),
        r@.len() == digits,
{
    let t = totp_rs::TOTP::new(
        totp_rs::Algorithm::SHA1, digits, skew, step, secret.to_vec(), Some(issuer.to_string()),
        String::new(),
    );
    match t {
        Ok(t) => t.generate(time),
        Err(_) => String::new(),
    }
}

/// `TOTP::check`: whether `code` is the code of a time step within `skew`
/// steps of the step of `time`. (It underflows before step `skew` and
/// overflows near the largest times, hence the `requires`.)
#[verifier::external_body]
fn totp_check(secret: &[u8], digits: usize, skew: u8, step: u64, issuer: &str, code: &str, time: u64) -> (r: bool)
    requires
        6 <= digits <= 8,
        secret@.len() >= 16,
        !issuer@.contains(':'),
        step > 0,
        skew <= time / step,
        (time / step + skew) * step <= u64::MAX,
    ensures
        r == (exists|i: int|
            0 <= i <= 2 * skew && code@ == #[trigger] totp_code_at(secret@, digits, (time / step - skew + i) as u64)),
{
    let t = totp_rs::TOTP::new(
        totp_rs::Algorithm::SHA1, digits, skew, step, secret.to_vec(), Some(issuer.to_string()),
        String::new(),
    );
    match t {
        Ok(t) => t.check(code, time),
        Err(_) => false,
    }
}

/// `code` is the code of the step of `time` or of one step before or after.
pub open spec fn totp_accepts(secret: Seq<u8>, code: Seq<char>, time: u64) -> bool {
    exists|i: int| 0 <= i <= 2 && code == #[trigger] totp_code_at(secret, 6, (time / 30 - 1 + i) as u64)
}

/// The `otpauth://` URI for enrolling `secret` under `account`.
pub open spec fn otpauth_uri_of(secret: Seq<u8>, account: Seq<char>) -> Seq<char> {
    "otpauth://totp/"@ + url_encoded("discord-v1"@) + ":"@ + url_encoded(account) + "?secret="@
        + base32_unpadded(secret) + "&issuer="@ + url_encoded("discord-v1"@)
}

/// A fresh 20-byte secret (the length RFC 6238 recommends for SHA-1).
pub fn new_secret() -> (s: Vec<u8>)
    ensures
        s@.len() == 20,
{
    random_bytes(20)
}

/// Reads hex text into bytes.
pub fn decode_hex(s: &str) -> (r: Result<Vec<u8>, AuthError>)
    requires
        s.spec_bytes().len() % 2 == 1 || hex_slices_ok(s.spec_bytes(), 0),
    ensures
        s.spec_bytes().len() % 2 == 1 ==> (r matches Err(AuthError::Token(m)) && m@ == hex_error_message(
            HexError::OddLength,
        )),
        s.spec_bytes().len() % 2 == 0 ==> match hex_decode(s.spec_bytes()) {
            Some(v) => r matches Ok(w) && w@ == v,
            None => r matches Err(AuthError::Token(m)) && m@ == hex_error_message(HexError::InvalidDigit),
        },
{
    match decode_hex_bytes(s) {
        Ok(v) => Ok(v),
        Err(e) => Err(AuthError::Token(e.message())),
    }
}

fn build(secret: &[u8], account: &str) -> (r: Result<(), AuthError>)
    ensures
        r is Ok <==> (secret@.len() >= 16 && !account@.contains(':')),
        r matches Err(e) ==> e is Token,
{
    proof {
        reveal_strlit("discord-v1");
    }
    match totp_build_check(secret, DIGITS, SKEW, STEP, ISSUER, account) {
        Ok(()) => Ok(()),
        Err(m) => Err(AuthError::Token(m)),
    }
}

/// The `otpauth://` URI that enrolls `secret` in an authenticator app.
pub fn otpauth_uri(secret: &[u8], account: &str) -> (r: Result<String, AuthError>)
    ensures
        r is Ok <==> (secret@.len() >= 16 && !account@.contains(':')),
        r matches Ok(u) ==> u@ == otpauth_uri_of(secret@, account@),
        r matches Ok(u) ==> u@ == "otpauth://totp/discord-v1:"@ + url_encoded(account@) + "?secret="@
            + base32_unpadded(secret@) + "&issuer=discord-v1"@,
        r matches Err(e) ==> e is Token,
{
    build(secret, account)?;
    proof {
        reveal_strlit("discord-v1");
        reveal_strlit(":");
        reveal_strlit("otpauth://totp/");
        reveal_strlit("otpauth://totp/discord-v1:");
        reveal_strlit("&issuer=");
        reveal_strlit("&issuer=discord-v1");
        let issuer = "discord-v1"@;
        assert(vstd::utf8::is_ascii_chars(issuer));
        assert forall|i: int| 0 <= i < issuer.len() implies url_safe(#[trigger] issuer[i] as u8) by {}
        lemma_url_encoded_plain(issuer);
        assert("otpauth://totp/"@ + issuer + ":"@ =~= "otpauth://totp/discord-v1:"@);
        assert("&issuer="@ + issuer =~= "&issuer=discord-v1"@);
    }
    Ok(totp_url(secret, DIGITS, SKEW, STEP, ISSUER, account))
}

/// Checks `code` against `secret` at `now_unix`, one step of drift allowed.
pub fn verify(secret: &[u8], code: &str, now_unix: u64) -> (r: Result<bool, AuthError>)
    requires
        secret@.len() < 16 || (30 <= now_unix && now_unix / 30 + 1 <= u64::MAX / 30),
    ensures
        r is Ok <==> secret@.len() >= 16,
        r matches Ok(b) ==> b == totp_accepts(secret@, code@, now_unix),
        r matches Err(e) ==> e is Token,
{
    proof {
        reveal_strlit("user");
    }
    build(secret, "user")?;
    proof {
        reveal_strlit("discord-v1");
    }
    let ok = totp_check(secret, DIGITS, SKEW, STEP, ISSUER, code, now_unix);
    assert(ok == totp_accepts(secret@, code@, now_unix));
    Ok(ok)
}

/// The code for `secret` at `now_unix` (what an authenticator app shows).
pub fn generate(secret: &[u8], now_unix: u64) -> (r: Result<String, AuthError>)
    ensures
        r is Ok <==> secret@.len() >= 16,
        r matches Ok(c) ==> c@ == totp_code_at(secret@, 6, now_unix / 30) && c@.len() == 6,
        r matches Err(e) ==> e is Token,
{
    proof {
        reveal_strlit("user");
    }
    build(secret, "user")?;
    proof {
        reveal_strlit("discord-v1");
    }
    Ok(totp_generate(secret, DIGITS, SKEW, STEP, ISSUER, now_unix))
}

/// A code is accepted during its own step and the steps next to it.
pub proof fn lemma_totp_window(secret: Seq<u8>, issued: u64, now: u64)
    requires
        30 <= now,
        issued / 30 + 1 >= now / 30,
        now / 30 + 1 >= issued / 30,
    ensures
        totp_accepts(secret, totp_code_at(secret, 6, issued / 30), now),
{
    let i = issued / 30 - now / 30 + 1;
    assert((now / 30 - 1 + i) as u64 == issued / 30);
    assert(totp_code_at(secret, 6, issued / 30) == totp_code_at(secret, 6, (now / 30 - 1 + i) as u64));
}

} // verus!
