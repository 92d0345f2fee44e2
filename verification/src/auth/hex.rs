//! Hexadecimal text for keys and secrets.

use vstd::prelude::*;
use vstd::string::StringSliceAdditionalSpecFns;
use vstd::utf8::is_char_boundary;
use crate::text::{ascii_chars, ascii_string, lemma_ascii_encode};

verus! {

/// The lowercase hex digit of `n` (`0..16`).
pub open spec fn hex_digit(n: int) -> u8 {
    if n < 10 {
        (48 + n) as u8
    } else {
        (87 + n) as u8
    }
}

/// Two lowercase hex digits per byte, most significant first.
pub open spec fn hex_encode(b: Seq<u8>) -> Seq<u8>
    decreases b.len(),
{
    if b.len() == 0 {
        Seq::empty()
    } else {
        hex_encode(b.drop_last()) + seq![hex_digit((b.last() / 16) as int), hex_digit((b.last() % 16) as int)]
    }
}

/// The value of a hex digit (either case).
pub open spec fn hex_value(c: u8) -> Option<int> {
    if 48 <= c <= 57 {
        Some(c - 48)
    } else if 97 <= c <= 102 {
        Some(c - 87)
    } else if 65 <= c <= 70 {
        Some(c - 55)
    } else {
        None
    }
}

/// What std's `u8::from_str_radix(_, 16)` gives for the two bytes `a b`: two
/// hex digits, or a `+` sign and one digit.
pub open spec fn hex_pair(a: u8, b: u8) -> Option<u8> {
    if a == 43 {
        match hex_value(b) {
            Some(v) => Some(v as u8),
            None => None,
        }
    } else {
        match (hex_value(a), hex_value(b)) {
            (Some(x), Some(y)) => Some((x * 16 + y) as u8),
            _ => None,
        }
    }
}

/// The bytes written by hex text, read two characters at a time.
pub open spec fn hex_decode(b: Seq<u8>) -> Option<Seq<u8>>
    decreases b.len(),
{
    if b.len() == 0 {
        Some(Seq::empty())
    } else if b.len() == 1 {
        None
    } else {
        match (hex_decode(b.subrange(0, b.len() - 2)), hex_pair(b[b.len() - 2], b[b.len() - 1])) {
            (Some(p), Some(v)) => Some(p.push(v)),
            _ => None,
        }
    }
}

/// Slicing the text two bytes at a time, from `i`, stays on character
/// boundaries up to the first pair that is not hex.
pub open spec fn hex_slices_ok(b: Seq<u8>, i: int) -> bool
    decreases b.len() - i,
{
    if i < 0 || i + 2 > b.len() {
        true
    } else if !is_char_boundary(b, i + 2) {
        false
    } else if hex_pair(b[i], b[i + 1]) is None {
        true
    } else {
        hex_slices_ok(b, i + 2)
    }
}

/// Why hex text was refused.
#[derive(Debug, Clone, Copy, PartialEq, Eq)]
pub enum HexError {
    /// An odd number of bytes.
    OddLength,
    /// A pair that is not a hex byte.
    InvalidDigit,
}

proof fn lemma_hex_encode_ascii(b: Seq<u8>)
    ensures
        hex_encode(b).len() == 2 * b.len(),
        forall|i: int| 0 <= i < hex_encode(b).len() ==> #[trigger] hex_encode(b)[i] < 128,
    decreases b.len(),
{
    if b.len() > 0 {
        lemma_hex_encode_ascii(b.drop_last());
        let p = hex_encode(b.drop_last());
        let e = hex_encode(b);
        assert forall|i: int| 0 <= i < e.len() implies #[trigger] e[i] < 128 by {
            if i < p.len() {
                assert(e[i] == p[i]);
            }
        }
    }
}

/// Lowercase hex text of `bytes`.
pub fn encode_hex(bytes: &[u8]) -> (s: String)
    ensures
        s@ == ascii_chars(hex_encode(bytes@)),
{
    let mut out: Vec<u8> = Vec::new();
    let mut i: usize = 0;
    while i < bytes.len()
        invariant
            i <= bytes@.len(),
            out@ == hex_encode(bytes@.take(i as int)),
        decreases bytes.len() - i,
    {
        let b = bytes[i];
        let hi = b / 16;
        let lo = b % 16;
        out.push(if hi < 10 { 48 + hi } else { 87 + hi });
        out.push(if lo < 10 { 48 + lo } else { 87 + lo });
        proof {
            assert(bytes@.take(i + 1).drop_last() =~= bytes@.take(i as int));
            assert(out@ =~= hex_encode(bytes@.take(i + 1)));
        }
        i = i + 1;
    }
    proof {
        assert(bytes@.take(bytes@.len() as int) =~= bytes@);
        lemma_hex_encode_ascii(bytes@);
    }
    ascii_string(out)
}

/// A decodable text has decodable even prefixes.
proof fn lemma_hex_decode_prefix(b: Seq<u8>, k: int)
    requires
        0 <= 2 * k <= b.len(),
        b.len() % 2 == 0,
        hex_decode(b) is Some,
    ensures
        hex_decode(b.subrange(0, 2 * k)) is Some,
    decreases b.len(),
{
    if 2 * k < b.len() {
        let p = b.subrange(0, b.len() - 2);
        lemma_hex_decode_prefix(p, k);
        assert(p.subrange(0, 2 * k) =~= b.subrange(0, 2 * k));
    } else {
        assert(b.subrange(0, 2 * k) =~= b);
    }
}

/// Reads hex text (two characters per byte; a pair may also be a `+` and one
/// digit). Refuses an odd length first, then the first pair that is not hex.
pub fn decode_hex_bytes(s: &str) -> (r: Result<Vec<u8>, HexError>)
    requires
        s.spec_bytes().len() % 2 == 1 || hex_slices_ok(s.spec_bytes(), 0),
    ensures
        s.spec_bytes().len() % 2 == 1 ==> r == Err::<Vec<u8>, HexError>(HexError::OddLength),
        s.spec_bytes().len() % 2 == 0 ==> match hex_decode(s.spec_bytes()) {
            Some(v) => r matches Ok(w) && w@ == v,
            None => r == Err::<Vec<u8>, HexError>(HexError::InvalidDigit),
        },
{
    let b = s.as_bytes();
    if b.len() % 2 == 1 {
        return Err(HexError::OddLength);
    }
    let mut out: Vec<u8> = Vec::new();
    let mut i: usize = 0;
    while i < b.len()
        invariant
            b@ == s.spec_bytes(),
            b@.len() % 2 == 0,
            i <= b@.len(),
            i % 2 == 0,
            hex_decode(b@.subrange(0, i as int)) == Some(out@),
        decreases b.len() - i,
    {
        let ghost pre = b@.subrange(0, i as int);
        let ghost cur = b@.subrange(0, i + 2);
        proof {
            assert(cur.subrange(0, cur.len() - 2) =~= pre);
            assert(cur[cur.len() - 2] == b@[i as int]);
            assert(cur[cur.len() - 1] == b@[i + 1]);
        }
        let v = pair_value(b[i], b[i + 1]);
        match v {
            Some(x) => {
                out.push(x);
                assert(hex_decode(cur) == Some(out@));
            },
            None => {
                proof {
                    assert(hex_decode(cur) is None);
                    if hex_decode(b@) is Some {
                        lemma_hex_decode_prefix(b@, (i + 2) / 2);
                    }
                }
                return Err(HexError::InvalidDigit);
            },
        }
        i = i + 2;
    }
    assert(b@.subrange(0, b@.len() as int) =~= b@);
    Ok(out)
}

fn digit_value(c: u8) -> (r: Option<u8>)
    ensures
        match hex_value(c) {
            Some(v) => r == Some(v as u8),
            None => r is None,
        },
{
    if 48 <= c && c <= 57 {
        Some(c - 48)
    } else if 97 <= c && c <= 102 {
        Some(c - 87)
    } else if 65 <= c && c <= 70 {
        Some(c - 55)
    } else {
        None
    }
}

fn pair_value(a: u8, b: u8) -> (r: Option<u8>)
    ensures
        r == hex_pair(a, b),
{
    if a == 43 {
        digit_value(b)
    } else {
        match (digit_value(a), digit_value(b)) {
            (Some(x), Some(y)) => Some(x * 16 + y),
            _ => None,
        }
    }
}

/// The message for a hex error, as the callers report it.
pub open spec fn hex_error_message(e: HexError) -> Seq<char> {
    match e {
        HexError::OddLength => "odd hex length"@,
        HexError::InvalidDigit => "invalid digit found in string"@,
    }
}

impl HexError {
    pub fn message(self) -> (m: String)
        ensures
            m@ == hex_error_message(self),
    {
        match self {
            HexError::OddLength => "odd hex length".to_owned(),
            HexError::InvalidDigit => "invalid digit found in string".to_owned(),
        }
    }
}

/// A hex digit of a value below 16 reads back as that value, and is no `+`.
proof fn lemma_hex_digit_value(n: int)
    requires
        0 <= n < 16,
    ensures
        hex_value(hex_digit(n)) == Some(n),
        hex_digit(n) != 43,
{
}

/// ASCII bytes that are valid UTF-8 can be sliced two at a time anywhere.
proof fn lemma_ascii_slices_ok(b: Seq<u8>, i: int)
    requires
        vstd::utf8::valid_utf8(b),
        forall|j: int| 0 <= j < b.len() ==> #[trigger] b[j] < 128,
    ensures
        hex_slices_ok(b, i),
    decreases b.len() - i,
{
    if 0 <= i && i + 2 <= b.len() {
        if i + 2 == b.len() {
            vstd::utf8::is_char_boundary_start_end_of_seq(b);
        } else {
            vstd::utf8::is_char_boundary_iff_not_is_continuation_byte(b, i + 2);
        }
        lemma_ascii_slices_ok(b, i + 2);
    }
}

/// Decoding the hex text of any bytes gives the bytes back; the text is
/// ASCII, so its UTF-8 bytes are its digits, and the decoder can slice it.
pub proof fn lemma_hex_round_trip(b: Seq<u8>)
    ensures
        hex_decode(hex_encode(b)) == Some(b),
        vstd::utf8::encode_utf8(ascii_chars(hex_encode(b))) == hex_encode(b),
        hex_slices_ok(hex_encode(b), 0),
    decreases b.len(),
{
    let e = hex_encode(b);
    lemma_hex_encode_ascii(b);
    lemma_ascii_encode(e);
    vstd::utf8::encode_utf8_valid_utf8(ascii_chars(e));
    lemma_ascii_slices_ok(e, 0);
    if b.len() > 0 {
        let p = b.drop_last();
        let x = b.last();
        lemma_hex_round_trip(p);
        lemma_hex_encode_ascii(p);
        lemma_hex_digit_value((x / 16) as int);
        lemma_hex_digit_value((x % 16) as int);
        assert(e.subrange(0, e.len() - 2) =~= hex_encode(p));
        assert(e[e.len() - 2] == hex_digit((x / 16) as int));
        assert(e[e.len() - 1] == hex_digit((x % 16) as int));
        assert((((x / 16) as int * 16 + (x % 16) as int) as u8) == x);
        assert(p.push(x) =~= b);
    }
}

} // verus!
