//! Byte and string helpers shared by the library: equality and ordering of
//! strings by their UTF-8 bytes, decimal and hexadecimal text.

use vstd::prelude::*;
use vstd::utf8::encode_utf8;
use vstd::string::StringSliceAdditionalSpecFns;

verus! {

/// Whether two byte slices hold the same bytes.
pub fn bytes_eq(a: &[u8], b: &[u8]) -> (r: bool)
    ensures
        r == (a@ == b@),
{
    if a.len() != b.len() {
        return false;
    }
    let mut i: usize = 0;
    while i < a.len()
        invariant
            a@.len() == b@.len(),
            i <= a@.len(),
            forall|k: int| 0 <= k < i ==> a@[k] == b@[k],
        decreases a.len() - i,
    {
        if a[i] != b[i] {
            return false;
        }
        i = i + 1;
    }
    assert(a@ =~= b@);
    true
}

/// Two strings are equal exactly when their UTF-8 encodings are.
pub proof fn lemma_bytes_eq_iff_chars_eq(a: Seq<char>, b: Seq<char>)
    ensures
        (encode_utf8(a) == encode_utf8(b)) == (a == b),
{
    vstd::utf8::encode_utf8_decode_utf8(a);
    vstd::utf8::encode_utf8_decode_utf8(b);
}

/// Whether two strings are equal.
pub fn str_eq(a: &str, b: &str) -> (r: bool)
    ensures
        r == (a@ == b@),
{
    let r = bytes_eq(a.as_bytes(), b.as_bytes());
    proof {
        lemma_bytes_eq_iff_chars_eq(a@, b@);
    }
    r
}

} // verus!

verus! {

/// Whether `b` is an ASCII decimal digit.
pub open spec fn is_digit(b: u8) -> bool {
    48 <= b <= 57
}

/// Whether every byte of `s` is a decimal digit.
pub open spec fn all_digits(s: Seq<u8>) -> bool {
    forall|i: int| 0 <= i < s.len() ==> is_digit(#[trigger] s[i])
}

/// The number written by the decimal digits `s` (most significant first).
pub open spec fn decimal_value(s: Seq<u8>) -> int
    decreases s.len(),
{
    if s.len() == 0 {
        0
    } else {
        decimal_value(s.drop_last()) * 10 + (s.last() - 48)
    }
}

pub proof fn lemma_decimal_value_nonneg(s: Seq<u8>)
    requires
        all_digits(s),
    ensures
        decimal_value(s) >= 0,
    decreases s.len(),
{
    if s.len() > 0 {
        lemma_decimal_value_nonneg(s.drop_last());
        assert(is_digit(s[s.len() - 1]));
    }
}

proof fn lemma_decimal_value_mono(s: Seq<u8>)
    requires
        all_digits(s),
        s.len() > 0,
    ensures
        decimal_value(s) >= decimal_value(s.drop_last()),
{
    lemma_decimal_value_nonneg(s.drop_last());
    assert(is_digit(s[s.len() - 1]));
}

/// The value of the digits `b[start..end]`, or `None` when it exceeds `u64::MAX`.
pub fn parse_digits_u64(b: &[u8], start: usize, end: usize) -> (r: Option<u64>)
    requires
        start <= end <= b@.len(),
        all_digits(b@.subrange(start as int, end as int)),
    ensures
        r matches Some(v) ==> v == decimal_value(b@.subrange(start as int, end as int)),
        r is None <==> decimal_value(b@.subrange(start as int, end as int)) > u64::MAX,
{
    let mut v: u64 = 0;
    let mut i: usize = start;
    while i < end
        invariant
            start <= i <= end <= b@.len(),
            all_digits(b@.subrange(start as int, end as int)),
            v == decimal_value(b@.subrange(start as int, i as int)),
        decreases end - i,
    {
        let ghost pre = b@.subrange(start as int, i as int);
        let ghost cur = b@.subrange(start as int, i + 1);
        proof {
            assert(cur.drop_last() =~= pre);
            assert(b@[i as int] == b@.subrange(start as int, end as int)[i - start]);
        }
        let d = (b[i] - 48) as u64;
        if v > 1844674407370955161u64 || (v == 1844674407370955161u64 && d > 5) {
            proof {
                assert(decimal_value(cur) > u64::MAX);
                lemma_digits_value_grows(b@.subrange(start as int, end as int), i + 1 - start);
                assert(b@.subrange(start as int, end as int).subrange(0, i + 1 - start) =~= cur);
            }
            return None;
        }
        v = v * 10 + d;
        i = i + 1;
    }
    Some(v)
}

/// A longer digit prefix has a value at least as large.
proof fn lemma_digits_value_grows(s: Seq<u8>, k: int)
    requires
        all_digits(s),
        0 <= k <= s.len(),
    ensures
        decimal_value(s) >= decimal_value(s.subrange(0, k)),
    decreases s.len() - k,
{
    if k < s.len() {
        lemma_digits_value_grows(s, k + 1);
        let t = s.subrange(0, k + 1);
        assert(t.drop_last() =~= s.subrange(0, k));
        assert(all_digits(t));
        lemma_decimal_value_mono(t);
    } else {
        assert(s.subrange(0, k) =~= s);
    }
}

/// The decimal digits of `v`, most significant first (`"0"` for zero).
pub open spec fn decimal_digits(v: nat) -> Seq<u8>
    decreases v,
{
    if v < 10 {
        seq![(v + 48) as u8]
    } else {
        decimal_digits(v / 10).push(((v % 10) + 48) as u8)
    }
}

} // verus!

verus! {

/// The characters of ASCII bytes.
pub open spec fn ascii_chars(b: Seq<u8>) -> Seq<char> {
    b.map_values(|x: u8| x as char)
}

/// The decimal text of `v`.
pub open spec fn decimal_text(v: nat) -> Seq<char> {
    ascii_chars(decimal_digits(v))
}

/// The string of ASCII bytes (std's `String::from_utf8`: ASCII bytes are
/// UTF-8, one character per byte).
#[verifier::external_body]
pub(crate) fn ascii_string(bytes: Vec<u8>) -> (s: String)
    requires
        forall|i: int| 0 <= i < bytes@.len() ==> #[trigger] bytes@[i] < 128,
    ensures
        s@ == ascii_chars(bytes@),
{
    match String::from_utf8(bytes) {
        Ok(s) => s,
        Err(_) => String::new(),
    }
}

/// `a` followed by `b` (std's `String + &str`).
#[verifier::external_body]
pub(crate) fn concat_str(a: String, b: &str) -> (s: String)
    ensures
        s@ == a@ + b@,
{
    a + b
}

proof fn lemma_decimal_digits_ascii(v: nat)
    ensures
        forall|i: int| 0 <= i < decimal_digits(v).len() ==> 48 <= #[trigger] decimal_digits(v)[i] <= 57,
    decreases v,
{
    let d = decimal_digits(v);
    if v >= 10 {
        lemma_decimal_digits_ascii(v / 10);
        let p = decimal_digits(v / 10);
        assert(d == p.push(((v % 10) + 48) as u8));
        assert forall|i: int| 0 <= i < d.len() implies 48 <= #[trigger] d[i] <= 57 by {
            if i < p.len() {
                assert(d[i] == p[i]);
            }
        }
    } else {
        assert(d == seq![(v + 48) as u8]);
    }
}

/// Appends the decimal digits of `v`.
pub fn push_decimal(out: &mut Vec<u8>, v: u64)
    ensures
        final(out)@ == old(out)@ + decimal_digits(v as nat),
    decreases v,
{
    if v >= 10 {
        push_decimal(out, v / 10);
    }
    out.push((v % 10) as u8 + 48);
    proof {
        if v >= 10 {
            assert(final(out)@ =~= old(out)@ + decimal_digits(v as nat));
        } else {
            assert(final(out)@ =~= old(out)@ + decimal_digits(v as nat));
        }
    }
}

/// `v` in decimal.
pub fn decimal_string(v: u64) -> (s: String)
    ensures
        s@ == decimal_text(v as nat),
{
    let mut out: Vec<u8> = Vec::new();
    push_decimal(&mut out, v);
    proof {
        assert(out@ =~= decimal_digits(v as nat));
        lemma_decimal_digits_ascii(v as nat);
    }
    ascii_string(out)
}

} // verus!

verus! {

/// Why text is not an unsigned integer (the kinds std's integer parsing reports).
#[derive(Debug, Clone, Copy, PartialEq, Eq)]
pub enum IntErrorKind {
    /// The text is empty.
    Empty,
    /// A character is not a digit (a lone sign counts as one).
    InvalidDigit,
    /// The number does not fit the target type.
    PosOverflow,
}

/// Scans the digits `b[i..]` onto `acc`, left to right, as std's integer
/// parsing does: the first non-digit or the first value above `max` decides.
pub open spec fn scan_digits(b: Seq<u8>, i: int, acc: int, max: int) -> Result<int, IntErrorKind>
    decreases b.len() - i,
{
    if i >= b.len() {
        Ok(acc)
    } else if !is_digit(b[i]) {
        Err(IntErrorKind::InvalidDigit)
    } else if acc * 10 + (b[i] - 48) > max {
        Err(IntErrorKind::PosOverflow)
    } else {
        scan_digits(b, i + 1, acc * 10 + (b[i] - 48), max)
    }
}

/// What std's `str::parse` gives for an unsigned type whose largest value is
/// `max`: empty text, a lone `+`, an optional leading `+`, then digits.
pub open spec fn parse_uint_spec(b: Seq<u8>, max: int) -> Result<int, IntErrorKind> {
    if b.len() == 0 {
        Err(IntErrorKind::Empty)
    } else if b.len() == 1 && (b[0] == 43 || b[0] == 45) {
        Err(IntErrorKind::InvalidDigit)
    } else if b[0] == 43 {
        scan_digits(b, 1, 0, max)
    } else {
        scan_digits(b, 0, 0, max)
    }
}

/// Parses an unsigned integer no larger than `max` the way std's `str::parse`
/// does for the unsigned type whose largest value is `max`.
pub fn parse_uint(s: &str, max: u64) -> (r: Result<u64, IntErrorKind>)
    ensures
        match parse_uint_spec(s.spec_bytes(), max as int) {
            Ok(v) => 0 <= v <= max && r == Ok::<u64, IntErrorKind>(v as u64),
            Err(e) => r == Err::<u64, IntErrorKind>(e),
        },
{
    let b = s.as_bytes();
    if b.len() == 0 {
        return Err(IntErrorKind::Empty);
    }
    if b.len() == 1 && (b[0] == 43 || b[0] == 45) {
        return Err(IntErrorKind::InvalidDigit);
    }
    let start: usize = if b[0] == 43 { 1 } else { 0 };
    let mut acc: u64 = 0;
    let mut i: usize = start;
    while i < b.len()
        invariant
            start <= i <= b@.len(),
            b@ == s.spec_bytes(),
            acc <= max,
            parse_uint_spec(b@, max as int) == scan_digits(b@, i as int, acc as int, max as int),
        decreases b.len() - i,
    {
        let c = b[i];
        if c < 48 || c > 57 {
            return Err(IntErrorKind::InvalidDigit);
        }
        let d = (c - 48) as u64;
        if d > max || acc > (max - d) / 10 {
            proof {
                if d <= max {
                    assert(acc * 10 + d > max) by (nonlinear_arith)
                        requires
                            acc > (max - d) / 10,
                            d <= max,
                    ;
                }
            }
            return Err(IntErrorKind::PosOverflow);
        }
        proof {
            assert(acc * 10 + d <= max) by (nonlinear_arith)
                requires
                    acc <= (max - d) / 10,
            ;
        }
        acc = acc * 10 + d;
        i = i + 1;
    }
    Ok(acc)
}

/// The message std gives for each kind of integer parse error.
pub open spec fn int_error_message(e: IntErrorKind) -> Seq<char> {
    match e {
        IntErrorKind::Empty => "cannot parse integer from empty string"@,
        IntErrorKind::InvalidDigit => "invalid digit found in string"@,
        IntErrorKind::PosOverflow => "number too large to fit in target type"@,
    }
}

impl IntErrorKind {
    /// The message std gives for this kind.
    pub fn message(self) -> (m: String)
        ensures
            m@ == int_error_message(self),
    {
        match self {
            IntErrorKind::Empty => "cannot parse integer from empty string".to_owned(),
            IntErrorKind::InvalidDigit => "invalid digit found in string".to_owned(),
            IntErrorKind::PosOverflow => "number too large to fit in target type".to_owned(),
        }
    }
}

} // verus!

verus! {

/// ASCII characters encode as their own bytes.
pub proof fn lemma_ascii_encode(b: Seq<u8>)
    requires
        forall|i: int| 0 <= i < b.len() ==> #[trigger] b[i] < 128,
    ensures
        encode_utf8(ascii_chars(b)) == b,
{
    let c = ascii_chars(b);
    assert(vstd::utf8::is_ascii_chars(c)) by {
        assert forall|i: int| 0 <= i < c.len() implies '\0' <= #[trigger] c[i] <= '\u{7f}' by {
            assert(b[i] < 128);
        }
    }
    vstd::utf8::is_ascii_chars_encode_utf8(c);
    assert forall|i: int| 0 <= i < b.len() implies encode_utf8(c)[i] == b[i] by {
        assert(c[i] as u8 == encode_utf8(c)[i]);
    }
    assert(encode_utf8(c) =~= b);
}

/// A successful scan from a value within `0..=max` ends within it.
proof fn lemma_scan_bounded(b: Seq<u8>, i: int, acc: int, max: int)
    requires
        0 <= i,
        0 <= acc <= max,
    ensures
        scan_digits(b, i, acc, max) matches Ok(v) ==> 0 <= v <= max,
    decreases b.len() - i,
{
    if 0 <= i < b.len() && is_digit(b[i]) && acc * 10 + (b[i] - 48) <= max {
        let d: int = b[i] - 48;
        assert(acc * 10 + d >= 0) by (nonlinear_arith)
            requires
                acc >= 0,
                d >= 0,
        ;
        lemma_scan_bounded(b, i + 1, acc * 10 + d, max);
    }
}

/// What parses is within `0..=max`.
pub proof fn lemma_parse_uint_bounded(b: Seq<u8>, max: int)
    requires
        0 <= max,
    ensures
        parse_uint_spec(b, max) matches Ok(v) ==> 0 <= v <= max,
{
    if b.len() > 0 {
        if b[0] == 43 {
            lemma_scan_bounded(b, 1, 0, max);
        } else {
            lemma_scan_bounded(b, 0, 0, max);
        }
    }
}

/// Scanning digits whose value fits from the value of a prefix gives the
/// value of the whole.
proof fn lemma_scan_digits_value(s: Seq<u8>, i: int, max: int)
    requires
        all_digits(s),
        0 <= i <= s.len(),
        decimal_value(s) <= max,
    ensures
        scan_digits(s, i, decimal_value(s.subrange(0, i)), max) == Ok::<int, IntErrorKind>(decimal_value(s)),
    decreases s.len() - i,
{
    if i < s.len() {
        let t = s.subrange(0, i + 1);
        assert(t.drop_last() =~= s.subrange(0, i));
        assert(t.last() == s[i]);
        assert(is_digit(s[i]));
        lemma_digits_value_grows(s, i + 1);
        lemma_scan_digits_value(s, i + 1, max);
    } else {
        assert(s.subrange(0, i) =~= s);
    }
}

/// The digits of `v` are digits, at least one, and have the value `v`.
proof fn lemma_decimal_digits_value(v: nat)
    ensures
        decimal_value(decimal_digits(v)) == v,
        all_digits(decimal_digits(v)),
        decimal_digits(v).len() > 0,
    decreases v,
{
    lemma_decimal_digits_ascii(v);
    let d = decimal_digits(v);
    if v < 10 {
        assert(d.drop_last() =~= Seq::<u8>::empty());
        assert(d.last() == (v + 48) as u8);
        assert(((v + 48) as u8) as int == v + 48);
        assert(decimal_value(d.drop_last()) == 0);
        assert(decimal_value(d) == decimal_value(d.drop_last()) * 10 + (d.last() - 48));
    } else {
        lemma_decimal_digits_value(v / 10);
        assert(d.drop_last() =~= decimal_digits(v / 10));
        assert(d.last() == ((v % 10) + 48) as u8);
        assert((((v % 10) + 48) as u8) as int == (v % 10) + 48);
        assert((v / 10) * 10 + v % 10 == v);
        assert(decimal_value(d) == decimal_value(d.drop_last()) * 10 + (d.last() - 48));
    }
}

/// The decimal text of `v` parses back to `v` wherever `v` fits.
pub proof fn lemma_parse_decimal_text(v: nat, max: int)
    requires
        v <= max,
    ensures
        parse_uint_spec(encode_utf8(decimal_text(v)), max) == Ok::<int, IntErrorKind>(v as int),
{
    lemma_decimal_text_bytes(v);
    lemma_decimal_digits_value(v);
    let d = decimal_digits(v);
    assert(is_digit(d[0]));
    assert(d.subrange(0, 0) =~= Seq::<u8>::empty());
    lemma_scan_digits_value(d, 0, max);
}

/// The UTF-8 bytes of the decimal text of `v` are its decimal digits.
pub proof fn lemma_decimal_text_bytes(v: nat)
    ensures
        encode_utf8(decimal_text(v)) == decimal_digits(v),
{
    lemma_decimal_digits_ascii(v);
    lemma_ascii_encode(decimal_digits(v));
}

} // verus!
