//! Sorted vectors: the ordered maps and sets the CRDTs are built on.
//!
//! Keys are ordered by a rank (a sequence of integers compared
//! lexicographically), so that a map's vector is canonical: two maps with the
//! same contents have the same entries in the same order.

use vstd::prelude::*;
use vstd::string::StringSliceAdditionalSpecFns;

verus! {

/// Strict lexicographic order on integer sequences (a proper prefix comes first).
pub open spec fn lex_lt(a: Seq<int>, b: Seq<int>) -> bool
    decreases a.len(),
{
    if b.len() == 0 {
        false
    } else if a.len() == 0 {
        true
    } else if a[0] != b[0] {
        a[0] < b[0]
    } else {
        lex_lt(a.drop_first(), b.drop_first())
    }
}

/// `lex_lt` is a strict total order: irreflexive, asymmetric and total.
pub proof fn lemma_lex_total(a: Seq<int>, b: Seq<int>)
    ensures
        a == b || lex_lt(a, b) || lex_lt(b, a),
        !(lex_lt(a, b) && lex_lt(b, a)),
        !lex_lt(a, a),
    decreases a.len(),
{
    if a.len() > 0 && b.len() > 0 && a[0] == b[0] {
        lemma_lex_total(a.drop_first(), b.drop_first());
        if a.drop_first() == b.drop_first() {
            assert forall|k: int| 0 <= k < a.len() implies a[k] == b[k] by {
                if k > 0 {
                    assert(a[k] == a.drop_first()[k - 1]);
                    assert(b[k] == b.drop_first()[k - 1]);
                }
            }
            assert(a =~= b);
        }
    }
    if a.len() == 0 && b.len() == 0 {
        assert(a =~= b);
    }
    if a.len() > 0 {
        lemma_lex_total(a.drop_first(), a.drop_first());
    }
}

/// `lex_lt` is transitive.
pub proof fn lemma_lex_trans(a: Seq<int>, b: Seq<int>, c: Seq<int>)
    requires
        lex_lt(a, b),
        lex_lt(b, c),
    ensures
        lex_lt(a, c),
    decreases a.len(),
{
    if a.len() > 0 && b.len() > 0 && c.len() > 0 && a[0] == b[0] && b[0] == c[0] {
        lemma_lex_trans(a.drop_first(), b.drop_first(), c.drop_first());
    }
}

/// Past a common prefix of length `i`, comparison is decided by the rest.
proof fn lemma_lex_common_prefix(a: Seq<int>, b: Seq<int>, i: int)
    requires
        0 <= i <= a.len(),
        i <= b.len(),
        forall|k: int| 0 <= k < i ==> a[k] == b[k],
    ensures
        lex_lt(a, b) == lex_lt(a.subrange(i, a.len() as int), b.subrange(i, b.len() as int)),
    decreases i,
{
    if i > 0 {
        lemma_lex_common_prefix(a.drop_first(), b.drop_first(), i - 1);
        assert(a.drop_first().subrange(i - 1, a.len() - 1) =~= a.subrange(i, a.len() as int));
        assert(b.drop_first().subrange(i - 1, b.len() - 1) =~= b.subrange(i, b.len() as int));
    } else {
        assert(a.subrange(0, a.len() as int) =~= a);
        assert(b.subrange(0, b.len() as int) =~= b);
    }
}

/// The integers of a byte sequence.
pub open spec fn byte_ints(b: Seq<u8>) -> Seq<int> {
    b.map_values(|x: u8| x as int)
}

/// Three-way lexicographic comparison of byte slices: -1, 0 or 1.
pub fn compare_bytes(a: &[u8], b: &[u8]) -> (r: i8)
    ensures
        r == 0 <==> a@ == b@,
        r < 0 <==> lex_lt(byte_ints(a@), byte_ints(b@)),
        r > 0 <==> lex_lt(byte_ints(b@), byte_ints(a@)),
{
    let ghost ai = byte_ints(a@);
    let ghost bi = byte_ints(b@);
    let mut i: usize = 0;
    while i < a.len() && i < b.len()
        invariant
            i <= a@.len(),
            i <= b@.len(),
            ai == byte_ints(a@),
            bi == byte_ints(b@),
            forall|k: int| 0 <= k < i ==> a@[k] == b@[k],
        decreases a.len() - i,
    {
        if a[i] != b[i] {
            proof {
                assert forall|k: int| 0 <= k < i implies ai[k] == bi[k] by {}
                lemma_lex_common_prefix(ai, bi, i as int);
                lemma_lex_common_prefix(bi, ai, i as int);
                assert(ai.subrange(i as int, ai.len() as int)[0] == a@[i as int] as int);
                assert(bi.subrange(i as int, bi.len() as int)[0] == b@[i as int] as int);
            }
            if a[i] < b[i] {
                return -1;
            } else {
                return 1;
            }
        }
        i = i + 1;
    }
    proof {
        assert forall|k: int| 0 <= k < i implies ai[k] == bi[k] by {}
        lemma_lex_common_prefix(ai, bi, i as int);
        lemma_lex_common_prefix(bi, ai, i as int);
    }
    if a.len() < b.len() {
        -1
    } else if a.len() > b.len() {
        1
    } else {
        assert(a@ =~= b@);
        proof {
            lemma_lex_total(ai, bi);
        }
        0
    }
}

/// A key type ordered by a rank: keys with equal ranks are interchangeable.
pub trait SortKey: Sized {
    /// The rank that orders and identifies keys.
    spec fn rank(&self) -> Seq<int>;

    /// Three-way comparison by rank.
    fn compare(&self, other: &Self) -> (r: i8)
        ensures
            r == 0 <==> self.rank() == other.rank(),
            r < 0 <==> lex_lt(self.rank(), other.rank()),
            r > 0 <==> lex_lt(other.rank(), self.rank()),
    ;

    /// An owned copy of the key.
    fn copy_key(&self) -> (r: Self)
        ensures
            r == *self,
    ;
}

impl SortKey for u64 {
    open spec fn rank(&self) -> Seq<int> {
        seq![*self as int]
    }

    fn copy_key(&self) -> (r: Self) {
        *self
    }

    fn compare(&self, other: &Self) -> (r: i8) {
        let (x, y) = (*self, *other);
        let ghost a = seq![x as int];
        let ghost b = seq![y as int];
        proof {
            assert(a.drop_first() =~= Seq::<int>::empty());
            assert(b.drop_first() =~= Seq::<int>::empty());
            assert(a[0] == x);
            assert(b[0] == y);
            lemma_lex_total(a, b);
        }
        if x < y {
            -1
        } else if x > y {
            1
        } else {
            assert(a =~= b);
            0
        }
    }
}

impl SortKey for (u64, u64) {
    open spec fn rank(&self) -> Seq<int> {
        seq![self.0 as int, self.1 as int]
    }

    fn copy_key(&self) -> (r: Self) {
        *self
    }

    fn compare(&self, other: &Self) -> (r: i8) {
        let ghost a = seq![self.0 as int, self.1 as int];
        let ghost b = seq![other.0 as int, other.1 as int];
        proof {
            assert(a.drop_first() =~= seq![self.1 as int]);
            assert(b.drop_first() =~= seq![other.1 as int]);
            assert(a.drop_first().drop_first() =~= Seq::<int>::empty());
            assert(b.drop_first().drop_first() =~= Seq::<int>::empty());
            reveal_with_fuel(lex_lt, 3);
            lemma_lex_total(a, b);
        }
        if self.0 < other.0 {
            -1
        } else if self.0 > other.0 {
            1
        } else if self.1 < other.1 {
            -1
        } else if self.1 > other.1 {
            1
        } else {
            assert(a =~= b);
            0
        }
    }
}

impl SortKey for String {
    open spec fn rank(&self) -> Seq<int> {
        byte_ints(vstd::utf8::encode_utf8(self@))
    }

    fn compare(&self, other: &Self) -> (r: i8) {
        compare_bytes(self.as_str().as_bytes(), other.as_str().as_bytes())
    }

    fn copy_key(&self) -> (r: Self) {
        self.clone()
    }
}

impl<'a> SortKey for &'a str {
    open spec fn rank(&self) -> Seq<int> {
        byte_ints((**self).spec_bytes())
    }

    fn compare(&self, other: &Self) -> (r: i8) {
        compare_bytes(self.as_bytes(), other.as_bytes())
    }

    fn copy_key(&self) -> (r: Self) {
        *self
    }
}

} // verus!

verus! {

/// The entries are strictly increasing by the rank of their keys.
pub open spec fn strictly_sorted<K: SortKey, V>(s: Seq<(K, V)>) -> bool {
    forall|i: int, j: int|
        0 <= i < j < s.len() ==> lex_lt(#[trigger] s[i].0.rank(), #[trigger] s[j].0.rank())
}

/// Some entry has a key of rank `r`.
pub open spec fn has_rank<K: SortKey, V>(s: Seq<(K, V)>, r: Seq<int>) -> bool {
    exists|i: int| 0 <= i < s.len() && #[trigger] s[i].0.rank() == r
}

/// The entries as a map from key rank to value.
pub open spec fn rank_map<K: SortKey, V>(s: Seq<(K, V)>) -> Map<Seq<int>, V> {
    Map::new(
        |r: Seq<int>| has_rank(s, r),
        |r: Seq<int>| s[choose|i: int| 0 <= i < s.len() && #[trigger] s[i].0.rank() == r].1,
    )
}

/// Position `i` is where a key of rank `r` belongs: everything before it is
/// smaller and everything from it on is larger.
pub open spec fn fits_at<K: SortKey, V>(s: Seq<(K, V)>, i: int, r: Seq<int>) -> bool {
    &&& 0 <= i <= s.len()
    &&& forall|j: int| 0 <= j < i ==> lex_lt(#[trigger] s[j].0.rank(), r)
    &&& forall|j: int| i <= j < s.len() ==> lex_lt(r, #[trigger] s[j].0.rank())
}

/// In a sorted sequence the entry at `i` is the one the map gives for its rank.
pub proof fn lemma_rank_map_index<K: SortKey, V>(s: Seq<(K, V)>, i: int)
    requires
        strictly_sorted(s),
        0 <= i < s.len(),
    ensures
        rank_map(s).contains_key(s[i].0.rank()),
        rank_map(s)[s[i].0.rank()] == s[i].1,
{
    let r = s[i].0.rank();
    assert(has_rank(s, r));
    let j = choose|j: int| 0 <= j < s.len() && #[trigger] s[j].0.rank() == r;
    lemma_lex_total(r, r);
    if j < i {
        assert(lex_lt(s[j].0.rank(), s[i].0.rank()));
    } else if j > i {
        assert(lex_lt(s[i].0.rank(), s[j].0.rank()));
    }
}

/// A key of rank `r` that fits at some position is not in the map.
pub proof fn lemma_fits_absent<K: SortKey, V>(s: Seq<(K, V)>, i: int, r: Seq<int>)
    requires
        fits_at(s, i, r),
    ensures
        !rank_map(s).contains_key(r),
{
    lemma_lex_total(r, r);
    if has_rank(s, r) {
        let j = choose|j: int| 0 <= j < s.len() && #[trigger] s[j].0.rank() == r;
        if j < i {
            assert(lex_lt(s[j].0.rank(), r));
        } else {
            assert(lex_lt(r, s[j].0.rank()));
        }
    }
}

/// Inserting a fitting entry keeps the sequence sorted and adds it to the map.
pub proof fn lemma_rank_map_insert<K: SortKey, V>(s: Seq<(K, V)>, i: int, k: K, v: V)
    requires
        strictly_sorted(s),
        fits_at(s, i, k.rank()),
    ensures
        strictly_sorted(s.insert(i, (k, v))),
        rank_map(s.insert(i, (k, v))) == rank_map(s).insert(k.rank(), v),
{
    let t = s.insert(i, (k, v));
    assert forall|a: int, b: int| 0 <= a < b < t.len() implies lex_lt(
        #[trigger] t[a].0.rank(),
        #[trigger] t[b].0.rank(),
    ) by {
        if b < i {
        } else if a < i && b == i {
        } else if a < i {
            assert(t[b] == s[b - 1]);
            assert(lex_lt(s[a].0.rank(), k.rank()));
            lemma_lex_trans(s[a].0.rank(), k.rank(), s[b - 1].0.rank());
        } else if a == i {
            assert(t[b] == s[b - 1]);
        } else {
            assert(t[a] == s[a - 1]);
            assert(t[b] == s[b - 1]);
        }
    }
    let m = rank_map(s).insert(k.rank(), v);
    assert forall|r: Seq<int>| #[trigger] rank_map(t).contains_key(r) <==> m.contains_key(r) by {
        if has_rank(t, r) {
            let j = choose|j: int| 0 <= j < t.len() && #[trigger] t[j].0.rank() == r;
            if j < i {
                assert(s[j].0.rank() == r);
            } else if j > i {
                assert(s[j - 1].0.rank() == r);
            }
        }
        if has_rank(s, r) {
            let j = choose|j: int| 0 <= j < s.len() && #[trigger] s[j].0.rank() == r;
            if j < i {
                assert(t[j].0.rank() == r);
            } else {
                assert(t[j + 1].0.rank() == r);
            }
        }
        if r == k.rank() {
            assert(t[i].0.rank() == r);
        }
    }
    assert forall|r: Seq<int>| #[trigger] rank_map(t).contains_key(r) implies rank_map(t)[r]
        == m[r] by {
        let j = choose|j: int| 0 <= j < t.len() && #[trigger] t[j].0.rank() == r;
        lemma_rank_map_index(t, j);
        lemma_lex_total(r, r);
        if j < i {
            assert(t[j] == s[j]);
            lemma_rank_map_index(s, j);
            assert(lex_lt(s[j].0.rank(), k.rank()));
        } else if j > i {
            assert(t[j] == s[j - 1]);
            lemma_rank_map_index(s, j - 1);
            assert(lex_lt(k.rank(), s[j - 1].0.rank()));
        }
    }
    assert(rank_map(t) =~= m);
}

/// Replacing the value at `i` keeps the sequence sorted and updates the map.
pub proof fn lemma_rank_map_update<K: SortKey, V>(s: Seq<(K, V)>, i: int, v: V)
    requires
        strictly_sorted(s),
        0 <= i < s.len(),
    ensures
        strictly_sorted(s.update(i, (s[i].0, v))),
        rank_map(s.update(i, (s[i].0, v))) == rank_map(s).insert(s[i].0.rank(), v),
{
    let t = s.update(i, (s[i].0, v));
    let m = rank_map(s).insert(s[i].0.rank(), v);
    assert forall|a: int, b: int| 0 <= a < b < t.len() implies lex_lt(
        #[trigger] t[a].0.rank(),
        #[trigger] t[b].0.rank(),
    ) by {
        assert(t[a].0 == s[a].0);
        assert(t[b].0 == s[b].0);
    }
    assert forall|r: Seq<int>| #[trigger] rank_map(t).contains_key(r) <==> m.contains_key(r) by {
        if has_rank(t, r) {
            let j = choose|j: int| 0 <= j < t.len() && #[trigger] t[j].0.rank() == r;
            assert(s[j].0.rank() == r);
        }
        if has_rank(s, r) {
            let j = choose|j: int| 0 <= j < s.len() && #[trigger] s[j].0.rank() == r;
            assert(t[j].0.rank() == r);
        }
        if r == s[i].0.rank() {
            assert(t[i].0.rank() == r);
        }
    }
    assert forall|r: Seq<int>| #[trigger] rank_map(t).contains_key(r) implies rank_map(t)[r]
        == m[r] by {
        let j = choose|j: int| 0 <= j < t.len() && #[trigger] t[j].0.rank() == r;
        lemma_rank_map_index(t, j);
        lemma_rank_map_index(s, j);
        lemma_lex_total(r, r);
        if j < i {
            assert(lex_lt(s[j].0.rank(), s[i].0.rank()));
        } else if j > i {
            assert(lex_lt(s[i].0.rank(), s[j].0.rank()));
        }
    }
    assert(rank_map(t) =~= m);
}

/// Removing the entry at `i` keeps the sequence sorted and removes its key
/// from the map.
pub proof fn lemma_rank_map_remove<K: SortKey, V>(s: Seq<(K, V)>, i: int)
    requires
        strictly_sorted(s),
        0 <= i < s.len(),
    ensures
        strictly_sorted(s.remove(i)),
        rank_map(s.remove(i)) == rank_map(s).remove(s[i].0.rank()),
{
    let t = s.remove(i);
    let m = rank_map(s).remove(s[i].0.rank());
    assert forall|a: int, b: int| 0 <= a < b < t.len() implies lex_lt(
        #[trigger] t[a].0.rank(),
        #[trigger] t[b].0.rank(),
    ) by {
        if b < i {
        } else if a < i {
            assert(t[b] == s[b + 1]);
        } else {
            assert(t[a] == s[a + 1]);
            assert(t[b] == s[b + 1]);
        }
    }
    lemma_lex_total(s[i].0.rank(), s[i].0.rank());
    assert forall|r: Seq<int>| #[trigger] rank_map(t).contains_key(r) <==> m.contains_key(r) by {
        if has_rank(t, r) {
            let j = choose|j: int| 0 <= j < t.len() && #[trigger] t[j].0.rank() == r;
            if j < i {
                assert(s[j].0.rank() == r);
                assert(lex_lt(s[j].0.rank(), s[i].0.rank()));
            } else {
                assert(s[j + 1].0.rank() == r);
                assert(lex_lt(s[i].0.rank(), s[j + 1].0.rank()));
            }
        }
        if m.contains_key(r) {
            let j = choose|j: int| 0 <= j < s.len() && #[trigger] s[j].0.rank() == r;
            if j < i {
                assert(t[j].0.rank() == r);
            } else {
                assert(j != i);
                assert(t[j - 1].0.rank() == r);
            }
        }
    }
    assert forall|r: Seq<int>| #[trigger] rank_map(t).contains_key(r) implies rank_map(t)[r]
        == m[r] by {
        let j = choose|j: int| 0 <= j < t.len() && #[trigger] t[j].0.rank() == r;
        lemma_rank_map_index(t, j);
        if j < i {
            lemma_rank_map_index(s, j);
        } else {
            lemma_rank_map_index(s, j + 1);
        }
    }
    assert(rank_map(t) =~= m);
}

/// A prefix of a sorted sequence is sorted, and growing it by one entry adds
/// that entry to its map.
pub proof fn lemma_rank_map_prefix<K: SortKey, V>(s: Seq<(K, V)>, j: int)
    requires
        strictly_sorted(s),
        0 <= j < s.len(),
    ensures
        strictly_sorted(s.take(j)),
        strictly_sorted(s.take(j + 1)),
        fits_at(s.take(j), j, s[j].0.rank()),
        s.take(j + 1) == s.take(j).insert(j, s[j]),
        rank_map(s.take(j + 1)) == rank_map(s.take(j)).insert(s[j].0.rank(), s[j].1),
{
    assert(s.take(j + 1) =~= s.take(j).insert(j, s[j]));
    assert(strictly_sorted(s.take(j)));
    lemma_rank_map_insert(s.take(j), j, s[j].0, s[j].1);
}

/// A sorted sequence's map has one key per entry.
pub proof fn lemma_rank_map_len<K: SortKey, V>(s: Seq<(K, V)>, j: int)
    requires
        strictly_sorted(s),
        0 <= j <= s.len(),
    ensures
        rank_map(s.take(j)).dom().finite(),
        rank_map(s.take(j)).dom().len() == j,
    decreases j,
{
    if j == 0 {
        lemma_rank_map_empty(s.take(0));
    } else {
        lemma_rank_map_len(s, j - 1);
        lemma_rank_map_prefix(s, j - 1);
        lemma_fits_absent(s.take(j - 1), j - 1, s[j - 1].0.rank());
        assert(rank_map(s.take(j)).dom() =~= rank_map(s.take(j - 1)).dom().insert(s[j - 1].0.rank()));
    }
}

/// The map of an empty sequence is empty.
pub proof fn lemma_rank_map_empty<K: SortKey, V>(s: Seq<(K, V)>)
    requires
        s.len() == 0,
    ensures
        rank_map(s) == Map::<Seq<int>, V>::empty(),
{
    assert(rank_map(s) =~= Map::<Seq<int>, V>::empty());
}

/// Two sorted sequences with the same map hold the same ranks and values in
/// the same order: the sorted form is canonical.
pub proof fn lemma_sorted_canonical<K: SortKey, V>(s: Seq<(K, V)>, t: Seq<(K, V)>)
    requires
        strictly_sorted(s),
        strictly_sorted(t),
        rank_map(s) == rank_map(t),
    ensures
        s.len() == t.len(),
        forall|i: int|
            0 <= i < s.len() ==> #[trigger] s[i].0.rank() == t[i].0.rank() && s[i].1 == t[i].1,
    decreases s.len() + t.len(),
{
    if s.len() == 0 || t.len() == 0 {
        if s.len() > 0 {
            lemma_rank_map_index(s, 0);
            assert(!has_rank(t, s[0].0.rank()));
        }
        if t.len() > 0 {
            lemma_rank_map_index(t, 0);
            assert(!has_rank(s, t[0].0.rank()));
        }
        return;
    }
    let n = s.len() - 1;
    let m = t.len() - 1;
    lemma_rank_map_index(s, n);
    lemma_rank_map_index(t, m);
    let rs = s[n].0.rank();
    let rt = t[m].0.rank();
    // the last entries hold the largest rank of the common map
    let js = choose|j: int| 0 <= j < s.len() && #[trigger] s[j].0.rank() == rt;
    let jt = choose|j: int| 0 <= j < t.len() && #[trigger] t[j].0.rank() == rs;
    assert(has_rank(s, rt));
    assert(has_rank(t, rs));
    lemma_lex_total(rs, rt);
    if rs != rt {
        if lex_lt(rs, rt) {
            if js < n {
                assert(lex_lt(s[js].0.rank(), s[n].0.rank()));
                lemma_lex_total(rs, rt);
            }
        } else {
            if jt < m {
                assert(lex_lt(t[jt].0.rank(), t[m].0.rank()));
                lemma_lex_total(rs, rt);
            }
        }
    }
    assert(rs == rt);
    let s2 = s.take(n);
    let t2 = t.take(m);
    lemma_rank_map_prefix(s, n);
    lemma_rank_map_prefix(t, m);
    assert(s.take(n + 1) =~= s);
    assert(t.take(m + 1) =~= t);
    lemma_fits_absent(s2, n, rs);
    lemma_fits_absent(t2, m, rt);
    assert(rank_map(s2) =~= rank_map(s).remove(rs));
    assert(rank_map(t2) =~= rank_map(t).remove(rt));
    lemma_sorted_canonical(s2, t2);
    assert(n == m);
    assert(s[n].1 == rank_map(s)[rs]);
    assert(t[m].1 == rank_map(t)[rt]);
    assert(s[n].1 == t[n].1);
    assert forall|i: int| 0 <= i < s.len() implies #[trigger] s[i].0.rank() == t[i].0.rank()
        && s[i].1 == t[i].1 by {
        if i < n {
            assert(s[i] == s2[i]);
            assert(t[i] == t2[i]);
        }
    }
}

} // verus!

verus! {

/// A map kept as a vector of entries sorted by key rank. Two maps with the
/// same contents hold the same vector.
#[derive(Clone, Debug, PartialEq, Eq)]
pub struct SortedMap<K, V> {
    entries: Vec<(K, V)>,
}

impl<K: SortKey, V> View for SortedMap<K, V> {
    type V = Seq<(K, V)>;

    closed spec fn view(&self) -> Seq<(K, V)> {
        self.entries@
    }
}

impl<K: SortKey, V> SortedMap<K, V> {
    /// The entries are strictly increasing by key rank.
    pub open spec fn wf(&self) -> bool {
        strictly_sorted(self@)
    }

    /// The contents as a map from key rank to value.
    pub open spec fn map(&self) -> Map<Seq<int>, V> {
        rank_map(self@)
    }

    pub fn new() -> (m: Self)
        ensures
            m@ == Seq::<(K, V)>::empty(),
            m.wf(),
            m.map() == Map::<Seq<int>, V>::empty(),
    {
        let m = SortedMap { entries: Vec::new() };
        proof {
            lemma_rank_map_empty(m@);
        }
        m
    }

    /// The map that holds `entries` as they stand (sorted when they are).
    pub fn from_sorted(entries: Vec<(K, V)>) -> (m: Self)
        ensures
            m@ == entries@,
    {
        SortedMap { entries }
    }

    pub fn len(&self) -> (n: usize)
        ensures
            n == self@.len(),
    {
        self.entries.len()
    }

    pub fn key_at(&self, i: usize) -> (k: &K)
        requires
            i < self@.len(),
        ensures
            *k == self@[i as int].0,
    {
        &self.entries[i].0
    }

    pub fn value_at(&self, i: usize) -> (v: &V)
        requires
            i < self@.len(),
        ensures
            *v == self@[i as int].1,
    {
        &self.entries[i].1
    }

    /// Where the key is (`Ok`) or where it belongs (`Err`).
    pub fn find(&self, key: &K) -> (r: Result<usize, usize>)
        requires
            self.wf(),
        ensures
            match r {
                Ok(i) => i < self@.len() && self@[i as int].0.rank() == key.rank(),
                Err(i) => fits_at(self@, i as int, key.rank()),
            },
    {
        let mut i: usize = 0;
        while i < self.entries.len()
            invariant
                self.wf(),
                i <= self@.len(),
                forall|j: int| 0 <= j < i ==> lex_lt(#[trigger] self@[j].0.rank(), key.rank()),
            decreases self@.len() - i,
        {
            let c = self.entries[i].0.compare(key);
            if c == 0 {
                return Ok(i);
            } else if c > 0 {
                proof {
                    assert forall|j: int| i <= j < self@.len() implies lex_lt(
                        key.rank(),
                        #[trigger] self@[j].0.rank(),
                    ) by {
                        if j > i {
                            assert(lex_lt(self@[i as int].0.rank(), self@[j].0.rank()));
                            lemma_lex_trans(key.rank(), self@[i as int].0.rank(), self@[j].0.rank());
                        }
                    }
                }
                return Err(i);
            }
            i = i + 1;
        }
        Err(i)
    }

    /// Inserts a new entry at the position where its key belongs.
    pub fn insert_at(&mut self, i: usize, key: K, value: V)
        requires
            old(self).wf(),
            fits_at(old(self)@, i as int, key.rank()),
        ensures
            final(self)@ == old(self)@.insert(i as int, (key, value)),
            final(self).wf(),
            final(self).map() == old(self).map().insert(key.rank(), value),
    {
        proof {
            lemma_rank_map_insert(self@, i as int, key, value);
        }
        self.entries.insert(i, (key, value));
    }

    /// Replaces the value of the entry at `i` and hands back the old one.
    pub fn replace_value_at(&mut self, i: usize, value: V) -> (prev: V)
        requires
            old(self).wf(),
            i < old(self)@.len(),
        ensures
            prev == old(self)@[i as int].1,
            final(self)@ == old(self)@.update(i as int, (old(self)@[i as int].0, value)),
            final(self).wf(),
            final(self).map() == old(self).map().insert(old(self)@[i as int].0.rank(), value),
    {
        proof {
            lemma_rank_map_update(self@, i as int, value);
        }
        let (k, prev) = self.entries.remove(i);
        self.entries.insert(i, (k, value));
        assert(self@ =~= old(self)@.update(i as int, (old(self)@[i as int].0, value)));
        prev
    }

    /// Removes the entry at `i` and hands it back.
    pub fn remove_at(&mut self, i: usize) -> (e: (K, V))
        requires
            old(self).wf(),
            i < old(self)@.len(),
        ensures
            e == old(self)@[i as int],
            final(self)@ == old(self)@.remove(i as int),
            final(self).wf(),
            final(self).map() == old(self).map().remove(old(self)@[i as int].0.rank()),
    {
        proof {
            lemma_rank_map_remove(self@, i as int);
        }
        self.entries.remove(i)
    }

    /// Sets the value of `key`, adding the key where it is new.
    pub fn insert(&mut self, key: K, value: V)
        requires
            old(self).wf(),
        ensures
            final(self).wf(),
            final(self).map() == old(self).map().insert(key.rank(), value),
    {
        match self.find(&key) {
            Ok(i) => {
                self.set_value_at(i, value);
            },
            Err(i) => {
                self.insert_at(i, key, value);
            },
        }
    }

    /// Replaces the value of the entry at `i`.
    pub fn set_value_at(&mut self, i: usize, value: V)
        requires
            old(self).wf(),
            i < old(self)@.len(),
        ensures
            final(self)@ == old(self)@.update(i as int, (old(self)@[i as int].0, value)),
            final(self).wf(),
            final(self).map() == old(self).map().insert(old(self)@[i as int].0.rank(), value),
    {
        proof {
            lemma_rank_map_update(self@, i as int, value);
        }
        let (k, _) = self.entries.remove(i);
        self.entries.insert(i, (k, value));
        assert(self@ =~= old(self)@.update(i as int, (old(self)@[i as int].0, value)));
    }
}

} // verus!

verus! {

/// The rank of a `u64` key.
pub open spec fn key_of(k: u64) -> Seq<int> {
    seq![k as int]
}

/// Distinct `u64`s have distinct ranks.
pub proof fn lemma_key_of_injective(a: u64, b: u64)
    ensures
        key_of(a) == key_of(b) ==> a == b,
{
    if key_of(a) == key_of(b) {
        assert(key_of(a)[0] == key_of(b)[0]);
    }
}

/// `u64` ranks order as the numbers do.
pub proof fn lemma_key_of_order(a: u64, b: u64)
    ensures
        lex_lt(key_of(a), key_of(b)) <==> a < b,
{
    assert(key_of(a).drop_first() =~= Seq::<int>::empty());
    assert(key_of(b).drop_first() =~= Seq::<int>::empty());
    assert(key_of(a)[0] == a);
    assert(key_of(b)[0] == b);
    reveal_with_fuel(lex_lt, 2);
}

/// An entry-for-entry copy of a map whose values are plain copies.
pub fn copy_sorted<K: SortKey, V: Copy>(m: &SortedMap<K, V>) -> (r: SortedMap<K, V>)
    ensures
        r@ == m@,
{
    let mut out: Vec<(K, V)> = Vec::new();
    let n = m.entries.len();
    let mut j: usize = 0;
    while j < n
        invariant
            n == m@.len(),
            j <= n,
            out@ =~= m@.take(j as int),
        decreases n - j,
    {
        let k = m.entries[j].0.copy_key();
        let v = m.entries[j].1;
        out.push((k, v));
        assert(m@.take(j + 1) =~= m@.take(j as int).push(m@[j as int]));
        j = j + 1;
    }
    assert(m@.take(n as int) =~= m@);
    SortedMap { entries: out }
}

} // verus!
