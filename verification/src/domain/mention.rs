//! Mention parsing: user ids from `<@123>` and `<@!123>` (nickname) tokens,
//! without duplicates, in order of first appearance. Role mentions (`<@&id>`)
//! and malformed tokens are ignored.

use vstd::prelude::*;
use crate::domain::id::{Snowflake, UserId};
use crate::text::{all_digits, decimal_value, is_digit, lemma_decimal_value_nonneg, parse_digits_u64};
use vstd::string::StringSliceAdditionalSpecFns;

verus! {

/// Whether a `<@` starts at byte `k`.
pub open spec fn opens_token(b: Seq<u8>, k: int) -> bool {
    0 <= k && k + 1 < b.len() && b[k] == 60 && b[k + 1] == 64
}

/// End of the run of digits in `b` starting at `j`.
pub open spec fn digits_end(b: Seq<u8>, j: int) -> int
    decreases b.len() - j,
{
    if 0 <= j < b.len() && is_digit(b[j]) {
        digits_end(b, j + 1)
    } else {
        j
    }
}

/// Start of the digits of a token whose `<@` is at `pos` (after an optional `!`).
pub open spec fn token_digits_start(b: Seq<u8>, pos: int) -> int {
    if pos + 2 < b.len() && b[pos + 2] == 33 { pos + 3 } else { pos + 2 }
}

/// The user ids of the well-formed tokens of `b` from byte `pos` on, in order,
/// duplicates kept. A token is `<@`, an optional `!`, one or more digits whose
/// value fits a `u64`, and `>`. Scanning resumes after the digits of each `<@`
/// found (or right after the `<@` when no digit follows).
pub open spec fn scan_mentions(b: Seq<u8>, pos: int) -> Seq<u64>
    decreases b.len() - pos,
{
    if pos < 0 || pos + 1 >= b.len() {
        seq![]
    } else if b[pos] == 60 && b[pos + 1] == 64 {
        let ds = token_digits_start(b, pos);
        proof {
            lemma_digits_end_bounds(b, ds);
        }
        let de = digits_end(b, ds);
        let next = if de > pos + 2 { de } else { pos + 2 };
        let v = decimal_value(b.subrange(ds, de));
        if de > ds && de < b.len() && b[de] == 62 && v <= u64::MAX {
            seq![v as u64] + scan_mentions(b, next)
        } else {
            scan_mentions(b, next)
        }
    } else {
        scan_mentions(b, pos + 1)
    }
}

/// The first occurrences of `s`, in order.
pub open spec fn dedup(s: Seq<u64>) -> Seq<u64>
    decreases s.len(),
{
    if s.len() == 0 {
        seq![]
    } else {
        let d = dedup(s.drop_last());
        if d.contains(s.last()) { d } else { d.push(s.last()) }
    }
}

/// The mentioned user ids of `content`.
pub open spec fn mentions_of(content: Seq<u8>) -> Seq<u64> {
    dedup(scan_mentions(content, 0))
}

pub proof fn lemma_digits_end_bounds(b: Seq<u8>, j: int)
    requires
        0 <= j <= b.len(),
    ensures
        j <= digits_end(b, j) <= b.len(),
        all_digits(b.subrange(j, digits_end(b, j))),
        digits_end(b, j) < b.len() ==> !is_digit(b[digits_end(b, j)]),
    decreases b.len() - j,
{
    if j < b.len() && is_digit(b[j]) {
        lemma_digits_end_bounds(b, j + 1);
        let e = digits_end(b, j);
        assert forall|k: int| 0 <= k < e - j implies is_digit(#[trigger] b.subrange(j, e)[k]) by {
            if k > 0 {
                assert(b.subrange(j, e)[k] == b.subrange(j + 1, e)[k - 1]);
            }
        }
    }
}

/// Scanning from `pos` equals the ids of tokens found before `p` followed by
/// scanning from `p`, when no `<@` starts between `pos` and `p`.
proof fn lemma_scan_skip(b: Seq<u8>, pos: int, p: int)
    requires
        0 <= pos <= p,
        forall|k: int| pos <= k < p ==> !#[trigger] opens_token(b, k),
    ensures
        scan_mentions(b, pos) == scan_mentions(b, p),
    decreases p - pos,
{
    if pos < p {
        assert(!opens_token(b, pos));
        lemma_scan_skip(b, pos + 1, p);
    }
}

/// A well-formed user mention of `id` starts at byte `i` of `b`: `<@`, an
/// optional `!`, one or more ASCII digits whose value is `id`, then `>`.
pub open spec fn mention_at(b: Seq<u8>, i: int, id: u64) -> bool {
    exists|ds: int, de: int|
        #![trigger b.subrange(ds, de)]
        {
            &&& 0 <= i && i + 1 < b.len() && b[i] == 60 && b[i + 1] == 64
            &&& (ds == i + 2 || (ds == i + 3 && b[i + 2] == 33))
            &&& ds < de < b.len()
            &&& all_digits(b.subrange(ds, de))
            &&& b[de] == 62
            &&& decimal_value(b.subrange(ds, de)) == id
        }
}

/// A run of digits from `j` up to a non-digit at `de` ends at `de`.
proof fn lemma_digits_end_at(b: Seq<u8>, j: int, de: int)
    requires
        0 <= j <= de < b.len(),
        forall|k: int| j <= k < de ==> is_digit(#[trigger] b[k]),
        !is_digit(b[de]),
    ensures
        digits_end(b, j) == de,
    decreases de - j,
{
    if j < de {
        lemma_digits_end_at(b, j + 1, de);
    }
}

/// A sequence that contains `x` still does with a prefix before it.
proof fn lemma_contains_after(p: Seq<u64>, s: Seq<u64>, x: u64)
    requires
        s.contains(x),
    ensures
        (p + s).contains(x),
{
    let k = choose|k: int| 0 <= k < s.len() && s[k] == x;
    assert((p + s)[p.len() + k] == x);
}

/// Scanning from any byte at or before a well-formed mention finds its id.
proof fn lemma_scan_finds(b: Seq<u8>, pos: int, i: int, id: u64)
    requires
        0 <= pos <= i,
        mention_at(b, i, id),
    ensures
        scan_mentions(b, pos).contains(id),
    decreases i - pos,
{
    let (ds, de) = choose|ds: int, de: int|
        #![trigger b.subrange(ds, de)]
        {
            &&& 0 <= i && i + 1 < b.len() && b[i] == 60 && b[i + 1] == 64
            &&& (ds == i + 2 || (ds == i + 3 && b[i + 2] == 33))
            &&& ds < de < b.len()
            &&& all_digits(b.subrange(ds, de))
            &&& b[de] == 62
            &&& decimal_value(b.subrange(ds, de)) == id
        };
    if b[pos] == 60 && b[pos + 1] == 64 {
        let ds0 = token_digits_start(b, pos);
        lemma_digits_end_bounds(b, ds0);
        let de0 = digits_end(b, ds0);
        let next = if de0 > pos + 2 { de0 } else { pos + 2 };
        let v = decimal_value(b.subrange(ds0, de0));
        if pos == i {
            assert(is_digit(b.subrange(ds, de)[0]));
            assert(ds == ds0);
            assert forall|k: int| ds <= k < de implies is_digit(#[trigger] b[k]) by {
                assert(b.subrange(ds, de)[k - ds] == b[k]);
            }
            lemma_digits_end_at(b, ds, de);
            assert(scan_mentions(b, pos) == seq![v as u64] + scan_mentions(b, next));
            assert(scan_mentions(b, pos)[0] == id);
        } else {
            assert(i != pos + 1);
            if i < next {
                assert(ds0 <= i < de0 || i == pos + 2);
                if ds0 <= i < de0 {
                    assert(b.subrange(ds0, de0)[i - ds0] == b[i]);
                    assert(is_digit(b[i]));
                }
                assert(false);
            }
            lemma_scan_finds(b, next, i, id);
            if de0 > ds0 && de0 < b.len() && b[de0] == 62 && v <= u64::MAX {
                lemma_contains_after(seq![v as u64], scan_mentions(b, next), id);
            }
        }
    } else {
        assert(pos != i);
        lemma_scan_finds(b, pos + 1, i, id);
    }
}

/// Every id the scan from `pos` gives is that of a well-formed mention at or
/// after `pos`.
proof fn lemma_scan_sound(b: Seq<u8>, pos: int, id: u64)
    requires
        0 <= pos,
        scan_mentions(b, pos).contains(id),
    ensures
        exists|i: int| pos <= i && #[trigger] mention_at(b, i, id),
    decreases b.len() - pos,
{
    if pos + 1 < b.len() {
        if b[pos] == 60 && b[pos + 1] == 64 {
            let ds0 = token_digits_start(b, pos);
            lemma_digits_end_bounds(b, ds0);
            let de0 = digits_end(b, ds0);
            let next = if de0 > pos + 2 { de0 } else { pos + 2 };
            let v = decimal_value(b.subrange(ds0, de0));
            let rest = scan_mentions(b, next);
            if de0 > ds0 && de0 < b.len() && b[de0] == 62 && v <= u64::MAX {
                if v as u64 == id {
                    lemma_decimal_value_nonneg(b.subrange(ds0, de0));
                    assert(mention_at(b, pos, id));
                } else {
                    let t = seq![v as u64] + rest;
                    let k = choose|k: int| 0 <= k < t.len() && t[k] == id;
                    assert(k > 0);
                    assert(rest[k - 1] == id);
                    lemma_scan_sound(b, next, id);
                }
            } else {
                lemma_scan_sound(b, next, id);
            }
        } else {
            lemma_scan_sound(b, pos + 1, id);
        }
    }
}

/// Deduplication keeps exactly the values of `s`, each once.
proof fn lemma_dedup(s: Seq<u64>, x: u64)
    ensures
        dedup(s).contains(x) <==> s.contains(x),
        dedup(s).no_duplicates(),
    decreases s.len(),
{
    if s.len() > 0 {
        let init = s.drop_last();
        lemma_dedup(init, x);
        lemma_dedup(init, s.last());
        let d = dedup(init);
        if s.contains(x) && !init.contains(x) {
            let k = choose|k: int| 0 <= k < s.len() && s[k] == x;
            if k < init.len() {
                assert(init[k] == x);
            }
            assert(x == s.last());
        }
        if init.contains(x) {
            let k = choose|k: int| 0 <= k < init.len() && init[k] == x;
            assert(s[k] == x);
        }
        if !d.contains(s.last()) {
            let e = d.push(s.last());
            assert(e[d.len() as int] == s.last());
            assert forall|a: int, c: int| 0 <= a < c < e.len() implies e[a] != e[c] by {
                if c == d.len() {
                    assert(e[a] == d[a]);
                }
            }
            if e.contains(x) && !d.contains(x) {
                let k = choose|k: int| 0 <= k < e.len() && e[k] == x;
                if k < d.len() {
                    assert(d[k] == x);
                }
            }
            if d.contains(x) {
                let k = choose|k: int| 0 <= k < d.len() && d[k] == x;
                assert(e[k] == x);
            }
        }
    }
}

/// `x` is the id of a mention at some position in `lo..j`.
spec fn mentioned_between(b: Seq<u8>, x: u64, lo: int, j: int) -> bool {
    exists|i: int| lo <= i < j && #[trigger] mention_at(b, i, x)
}

/// Each of the first `k` ids of `s` is that of a mention in `lo..j`.
spec fn all_from_between(b: Seq<u8>, s: Seq<u64>, k: int, lo: int, j: int) -> bool {
    forall|q: int| 0 <= q < k ==> #[trigger] mentioned_between(b, s[q], lo, j)
}

/// `s` lists `y` at some index before which every id is that of a mention
/// in `lo..j`.
spec fn listed_after_earlier(b: Seq<u8>, s: Seq<u64>, y: u64, lo: int, j: int) -> bool {
    exists|k: int| 0 <= k < s.len() && s[k] == y && #[trigger] all_from_between(b, s, k, lo, j)
}

/// Widening the range of positions keeps the ids accounted for.
proof fn lemma_from_between_widen(b: Seq<u8>, s: Seq<u64>, k: int, lo: int, lo2: int, j: int)
    requires
        all_from_between(b, s, k, lo2, j),
        lo <= lo2,
    ensures
        all_from_between(b, s, k, lo, j),
{
    assert forall|q: int| 0 <= q < k implies #[trigger] mentioned_between(b, s[q], lo, j) by {
        assert(mentioned_between(b, s[q], lo2, j));
        let i = choose|i: int| lo2 <= i < j && #[trigger] mention_at(b, i, s[q]);
        assert(lo <= i < j && mention_at(b, i, s[q]));
    }
}

/// An id of a mention at `pos`, put in front, is accounted for too.
proof fn lemma_from_between_cons(b: Seq<u8>, v: u64, rest: Seq<u64>, k: int, pos: int, next: int, j: int)
    requires
        all_from_between(b, rest, k, next, j),
        mention_at(b, pos, v),
        0 <= pos < next,
        pos < j,
        0 <= k <= rest.len(),
    ensures
        all_from_between(b, seq![v] + rest, k + 1, pos, j),
{
    let t = seq![v] + rest;
    assert forall|q: int| 0 <= q < k + 1 implies #[trigger] mentioned_between(b, t[q], pos, j) by {
        if q == 0 {
            assert(t[0] == v);
            assert(pos <= pos < j && mention_at(b, pos, t[q]));
        } else {
            assert(mentioned_between(b, rest[q - 1], next, j));
            assert(t[q] == rest[q - 1]);
            let i = choose|i: int| next <= i < j && #[trigger] mention_at(b, i, rest[q - 1]);
            assert(pos <= i < j && mention_at(b, i, t[q]));
        }
    }
}

/// The scan from `pos` lists the id of a well-formed mention at `j`, and
/// every id it lists before that one comes from a mention before `j`.
proof fn lemma_scan_before(b: Seq<u8>, pos: int, j: int, y: u64)
    requires
        0 <= pos <= j,
        mention_at(b, j, y),
    ensures
        listed_after_earlier(b, scan_mentions(b, pos), y, pos, j),
    decreases j - pos,
{
    let (ds, de) = choose|ds: int, de: int|
        #![trigger b.subrange(ds, de)]
        {
            &&& 0 <= j && j + 1 < b.len() && b[j] == 60 && b[j + 1] == 64
            &&& (ds == j + 2 || (ds == j + 3 && b[j + 2] == 33))
            &&& ds < de < b.len()
            &&& all_digits(b.subrange(ds, de))
            &&& b[de] == 62
            &&& decimal_value(b.subrange(ds, de)) == y
        };
    let s = scan_mentions(b, pos);
    if b[pos] == 60 && b[pos + 1] == 64 {
        let ds0 = token_digits_start(b, pos);
        lemma_digits_end_bounds(b, ds0);
        let de0 = digits_end(b, ds0);
        let next = if de0 > pos + 2 { de0 } else { pos + 2 };
        let v = decimal_value(b.subrange(ds0, de0));
        let rest = scan_mentions(b, next);
        let found = de0 > ds0 && de0 < b.len() && b[de0] == 62 && v <= u64::MAX;
        if pos == j {
            assert(is_digit(b.subrange(ds, de)[0]));
            assert forall|k: int| ds <= k < de implies is_digit(#[trigger] b[k]) by {
                assert(b.subrange(ds, de)[k - ds] == b[k]);
            }
            lemma_digits_end_at(b, ds, de);
            assert(s == seq![v as u64] + rest);
            assert(s[0] == y);
            assert(all_from_between(b, s, 0, pos, j));
        } else {
            assert(j != pos + 1);
            if j < next {
                if ds0 <= j < de0 {
                    assert(b.subrange(ds0, de0)[j - ds0] == b[j]);
                    assert(is_digit(b[j]));
                }
                assert(false);
            }
            lemma_scan_before(b, next, j, y);
            let kr = choose|k: int| 0 <= k < rest.len() && rest[k] == y && #[trigger] all_from_between(b, rest, k, next, j);
            if found {
                lemma_decimal_value_nonneg(b.subrange(ds0, de0));
                assert(s == seq![v as u64] + rest);
                assert(mention_at(b, pos, v as u64));
                assert(s[kr + 1] == y);
                lemma_from_between_cons(b, v as u64, rest, kr, pos, next, j);
                assert(all_from_between(b, s, kr + 1, pos, j));
            } else {
                assert(s == rest);
                lemma_from_between_widen(b, s, kr, pos, next, j);
                assert(all_from_between(b, s, kr, pos, j));
            }
        }
    } else {
        assert(pos != j);
        lemma_scan_before(b, pos + 1, j, y);
        assert(s == scan_mentions(b, pos + 1));
        let kr = choose|k: int| 0 <= k < s.len() && s[k] == y && #[trigger] all_from_between(b, s, k, pos + 1, j);
        lemma_from_between_widen(b, s, kr, pos, pos + 1, j);
        assert(all_from_between(b, s, kr, pos, j));
    }
}

/// In the deduplicated list, an earlier value first occurs in `s` before
/// every occurrence of a later one.
proof fn lemma_dedup_order(s: Seq<u64>, a: int, c: int)
    requires
        0 <= a < c < dedup(s).len(),
    ensures
        exists|k: int|
            0 <= k < s.len() && s[k] == dedup(s)[a] && forall|q: int| 0 <= q < s.len() && s[q] == dedup(s)[c] ==> k < q,
    decreases s.len(),
{
    let init = s.drop_last();
    let d = dedup(init);
    let x = dedup(s)[a];
    let y = dedup(s)[c];
    if c < d.len() {
        assert(dedup(s)[a] == d[a] && dedup(s)[c] == d[c]);
        lemma_dedup_order(init, a, c);
        let k = choose|k: int|
            0 <= k < init.len() && init[k] == d[a] && forall|q: int| 0 <= q < init.len() && init[q] == d[c] ==> k < q;
        assert(s[k] == x);
        assert forall|q: int| 0 <= q < s.len() && s[q] == y implies k < q by {
            if q < init.len() {
                assert(init[q] == s[q]);
            }
        }
    } else {
        assert(!d.contains(s.last()));
        assert(dedup(s) == d.push(s.last()));
        assert(c == d.len());
        assert(y == s.last());
        lemma_dedup(init, y);
        lemma_dedup(init, x);
        assert(dedup(s)[a] == d[a]);
        assert(d.contains(x));
        let k = choose|k: int| 0 <= k < init.len() && init[k] == x;
        assert(s[k] == x);
        assert forall|q: int| 0 <= q < s.len() && s[q] == y implies k < q by {
            if q < init.len() {
                assert(init[q] == y);
                assert(init.contains(y));
            }
        }
    }
}

/// The parsed list follows first appearance: for two users in it, the
/// earlier one is mentioned before any mention of the later one.
pub proof fn lemma_mentions_in_order(content: Seq<u8>, a: int, c: int, j: int)
    requires
        0 <= a < c < mentions_of(content).len(),
        mention_at(content, j, mentions_of(content)[c]),
    ensures
        exists|i: int| 0 <= i < j && #[trigger] mention_at(content, i, mentions_of(content)[a]),
{
    let s = scan_mentions(content, 0);
    let x = mentions_of(content)[a];
    let y = mentions_of(content)[c];
    lemma_scan_before(content, 0, j, y);
    let kj = choose|k: int| 0 <= k < s.len() && s[k] == y && #[trigger] all_from_between(content, s, k, 0, j);
    lemma_dedup_order(s, a, c);
    let k = choose|k: int| 0 <= k < s.len() && s[k] == x && forall|q: int| 0 <= q < s.len() && s[q] == y ==> k < q;
    assert(k < kj);
    assert(mentioned_between(content, s[k], 0, j));
    let i = choose|i: int| 0 <= i < j && #[trigger] mention_at(content, i, s[k]);
    assert(mention_at(content, i, mentions_of(content)[a]));
}

/// Every user named by a well-formed mention anywhere in the content is in
/// the parsed list.
pub proof fn lemma_mentions_complete(content: Seq<u8>, i: int, id: u64)
    requires
        mention_at(content, i, id),
    ensures
        mentions_of(content).contains(id),
{
    let (ds, de) = choose|ds: int, de: int|
        #![trigger content.subrange(ds, de)]
        {
            &&& 0 <= i && i + 1 < content.len() && content[i] == 60 && content[i + 1] == 64
            &&& (ds == i + 2 || (ds == i + 3 && content[i + 2] == 33))
            &&& ds < de < content.len()
            &&& all_digits(content.subrange(ds, de))
            &&& content[de] == 62
            &&& decimal_value(content.subrange(ds, de)) == id
        };
    lemma_scan_finds(content, 0, i, id);
    lemma_dedup(scan_mentions(content, 0), id);
}

/// Every user in the parsed list is named by a well-formed mention in the
/// content.
pub proof fn lemma_mentions_sound(content: Seq<u8>, id: u64)
    requires
        mentions_of(content).contains(id),
    ensures
        exists|i: int| 0 <= i && #[trigger] mention_at(content, i, id),
{
    lemma_dedup(scan_mentions(content, 0), id);
    lemma_scan_sound(content, 0, id);
}

/// The parsed list names each user once.
pub proof fn lemma_mentions_distinct(content: Seq<u8>)
    ensures
        mentions_of(content).no_duplicates(),
{
    lemma_dedup(scan_mentions(content, 0), 0);
}

/// Appends `uid` unless it is already present.
fn push_unique(out: &mut Vec<UserId>, uid: UserId)
    ensures
        final(out)@.map_values(|u: UserId| u.0.0) == (if old(out)@.map_values(|u: UserId| u.0.0).contains(uid.0.0) {
            old(out)@.map_values(|u: UserId| u.0.0)
        } else {
            old(out)@.map_values(|u: UserId| u.0.0).push(uid.0.0)
        }),
{
    let ghost ids = old(out)@.map_values(|u: UserId| u.0.0);
    let mut i: usize = 0;
    while i < out.len()
        invariant
            i <= out@.len(),
            out@ == old(out)@,
            ids == old(out)@.map_values(|u: UserId| u.0.0),
            forall|k: int| 0 <= k < i ==> ids[k] != uid.0.0,
        decreases out.len() - i,
    {
        if out[i].0.raw() == uid.0.raw() {
            assert(ids[i as int] == uid.0.0);
            return;
        }
        i = i + 1;
    }
    out.push(uid);
    assert(out@.map_values(|u: UserId| u.0.0) =~= ids.push(uid.0.0));
}

/// Extracts the mentioned user ids of `content` (deduplicated, in order).
pub fn parse_mentions(content: &str) -> (out: Vec<UserId>)
    ensures
        out@.map_values(|u: UserId| u.0.0) == mentions_of(content.spec_bytes()),
{
    let b = content.as_bytes();
    let ghost bs = b@;
    let mut out: Vec<UserId> = Vec::new();
    let mut search: usize = 0;
    let ghost mut found: Seq<u64> = seq![];
    proof {
        assert(out@.map_values(|u: UserId| u.0.0) =~= dedup(found));
    }
    while b.len() > 0 && search < b.len() - 1
        invariant
            bs == b@,
            bs == content.spec_bytes(),
            search <= b@.len(),
            found + scan_mentions(bs, search as int) == scan_mentions(bs, 0),
            out@.map_values(|u: UserId| u.0.0) == dedup(found),
        decreases b.len() - search,
    {
        // Find the next "<@" at or after `search`.
        let mut k: usize = search;
        while k < b.len() - 1 && !(b[k] == 60 && b[k + 1] == 64)
            invariant
                search <= k <= b@.len(),
                b@.len() >= 2,
                bs == b@,
                forall|q: int| search <= q < k ==> !#[trigger] opens_token(bs, q),
            decreases b.len() - k,
        {
            k = k + 1;
        }
        proof {
            lemma_scan_skip(bs, search as int, k as int);
        }
        if k >= b.len() - 1 {
            proof {
                assert(scan_mentions(bs, k as int) =~= seq![]);
                assert(found + seq![] =~= found);
            }
            search = b.len();
        } else {
            let mut j: usize = k + 2;
            if j < b.len() && b[j] == 33 {
                j = j + 1;
            }
            let ds = j;
            proof {
                lemma_digits_end_bounds(bs, ds as int);
            }
            while j < b.len() && 48 <= b[j] && b[j] <= 57
                invariant
                    ds <= j <= b@.len(),
                    bs == b@,
                    digits_end(bs, ds as int) == digits_end(bs, j as int),
                decreases b.len() - j,
            {
                j = j + 1;
            }
            proof {
                lemma_digits_end_bounds(bs, j as int);
            }
            let ghost next: int = if j > k + 2 { j as int } else { k + 2 };
            if j > ds && j < b.len() && b[j] == 62 {
                let parsed = parse_digits_u64(b, ds, j);
                match parsed {
                    Some(id) => {
                        let uid = UserId(Snowflake::from_raw(id));
                        push_unique(&mut out, uid);
                        proof {
                            let f2 = found.push(id);
                            assert(f2.drop_last() =~= found);
                            assert(f2.last() == id);
                            assert(found + scan_mentions(bs, k as int) =~= f2 + scan_mentions(bs, next));
                            found = f2;
                        }
                    },
                    None => {},
                }
            }
            search = if j > k + 2 { j } else { k + 2 };
        }
    }
    proof {
        assert(scan_mentions(bs, search as int) =~= seq![]);
        assert(found + seq![] =~= found);
    }
    out
}

} // verus!
