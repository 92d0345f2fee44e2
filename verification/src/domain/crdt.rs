//! State-based CRDTs: the pure merge engines behind offline sync.
//!
//! Each replica edits its local state and, on reconnection, joins the other
//! replica's state with `merge`. The joins are idempotent, commutative and
//! associative, so replicas converge whatever the order or the number of
//! times states are exchanged.

use vstd::prelude::*;
use crate::collections::{
    SortKey, SortedMap, byte_ints, copy_sorted, lemma_fits_absent, lemma_rank_map_empty,
    lemma_rank_map_index, lemma_rank_map_len, lemma_rank_map_prefix, lemma_sorted_canonical, has_rank, lex_lt, rank_map,
    strictly_sorted,
};

verus! {

/// `(timestamp_ms, node_id)`: the total order used for last-write-wins. The
/// larger dot wins; equal timestamps are decided by the node id.
pub type Dot = (u64, u64);

/// `a` is strictly older than `b`.
pub open spec fn dot_lt(a: Dot, b: Dot) -> bool {
    a.0 < b.0 || (a.0 == b.0 && a.1 < b.1)
}

fn dot_less(a: Dot, b: Dot) -> (r: bool)
    ensures
        r == dot_lt(a, b),
{
    a.0 < b.0 || (a.0 == b.0 && a.1 < b.1)
}

/// Last-write-wins choice between two timestamped values: the one with the
/// larger dot, the first one on equal dots.
pub open spec fn lww_pick<T>(a: (T, Dot), b: (T, Dot)) -> (T, Dot) {
    if dot_lt(a.1, b.1) {
        b
    } else {
        a
    }
}

/// Last-write-wins register: one value and the dot of the write that set it.
#[derive(Debug, PartialEq, Eq)]
pub struct LwwRegister<V: Clone + Eq> {
    pub value: V,
    pub dot: Dot,
}

impl<V: Clone + Eq> Clone for LwwRegister<V> {
    fn clone(&self) -> (r: Self)
        ensures
            r.dot == self.dot,
            cloned(self.value, r.value),
    {
        LwwRegister { value: self.value.clone(), dot: (self.dot.0, self.dot.1) }
    }
}

impl<V: Clone + Eq> LwwRegister<V> {
    pub fn new(value: V, ts_ms: u64, node: u64) -> (r: Self)
        ensures
            r.value == value,
            r.dot == (ts_ms, node),
    {
        LwwRegister { value, dot: (ts_ms, node) }
    }

    /// The larger dot wins; on an equal or smaller dot nothing changes.
    pub fn merge(&mut self, other: &Self)
        ensures
            final(self).dot == lww_pick((old(self).value, old(self).dot), (other.value, other.dot)).1,
            dot_lt(old(self).dot, other.dot) ==> cloned(other.value, final(self).value),
            !dot_lt(old(self).dot, other.dot) ==> *final(self) == *old(self),
    {
        if dot_less(self.dot, other.dot) {
            self.value = other.value.clone();
            self.dot = other.dot;
        }
    }

    pub fn merged(self, other: &Self) -> (r: Self)
        ensures
            r.dot == lww_pick((self.value, self.dot), (other.value, other.dot)).1,
            dot_lt(self.dot, other.dot) ==> cloned(other.value, r.value),
            !dot_lt(self.dot, other.dot) ==> r == self,
    {
        let mut s = self;
        s.merge(other);
        s
    }
}

/// A register merged with itself is unchanged.
pub proof fn lemma_lww_pick_idempotent<T>(a: (T, Dot))
    ensures
        lww_pick(a, a) == a,
{
}

/// Merging two registers keeps the larger dot whichever side it is on, where
/// equal dots carry equal values (one dot names one write).
pub proof fn lemma_lww_pick_commutative<T>(a: (T, Dot), b: (T, Dot))
    requires
        a.1 == b.1 ==> a.0 == b.0,
    ensures
        lww_pick(a, b) == lww_pick(b, a),
        !dot_lt(lww_pick(a, b).1, a.1) && !dot_lt(lww_pick(a, b).1, b.1),
{
}

/// Merging registers does not depend on how the merges are grouped.
pub proof fn lemma_lww_pick_associative<T>(a: (T, Dot), b: (T, Dot), c: (T, Dot))
    ensures
        lww_pick(lww_pick(a, b), c) == lww_pick(a, lww_pick(b, c)),
{
}

/// One key's slot in a last-write-wins map: the value (`None` is a tombstone)
/// and the dot of the write.
pub type Slot = (Option<String>, Dot);

/// The rank of a key: its UTF-8 bytes.
pub open spec fn key_rank(key: Seq<char>) -> Seq<int> {
    byte_ints(vstd::utf8::encode_utf8(key))
}

/// A write of `slot` to key `k`: kept unless the key already holds an equal or
/// newer dot.
pub open spec fn lww_apply(m: Map<Seq<int>, Slot>, k: Seq<int>, slot: Slot) -> Map<Seq<int>, Slot> {
    if m.contains_key(k) && !dot_lt(m[k].1, slot.1) {
        m
    } else {
        m.insert(k, slot)
    }
}

/// The join of two last-write-wins maps: every key of either, holding the
/// slot with the larger dot (the first map's on equal dots).
pub open spec fn lww_join(a: Map<Seq<int>, Slot>, b: Map<Seq<int>, Slot>) -> Map<Seq<int>, Slot> {
    Map::new(
        |k: Seq<int>| a.contains_key(k) || b.contains_key(k),
        |k: Seq<int>|
            if !b.contains_key(k) {
                a[k]
            } else if !a.contains_key(k) {
                b[k]
            } else {
                lww_pick(a[k], b[k])
            },
    )
}

/// Two maps agree when a key that both hold with the same dot holds the same
/// value in both: each dot names one write.
pub open spec fn lww_agree(a: Map<Seq<int>, Slot>, b: Map<Seq<int>, Slot>) -> bool {
    forall|k: Seq<int>|
        a.contains_key(k) && b.contains_key(k) && #[trigger] a[k].1 == #[trigger] b[k].1 ==> a[k]
            == b[k]
}

/// Last-write-wins map: key to value, with deletions kept as tombstones so that
/// a deletion is ordered against writes like any other write.
#[derive(Debug, PartialEq, Eq)]
pub struct LwwMap {
    entries: SortedMap<String, Slot>,
}

impl View for LwwMap {
    type V = Map<Seq<int>, Slot>;

    closed spec fn view(&self) -> Map<Seq<int>, Slot> {
        self.entries.map()
    }
}

impl Clone for LwwMap {
    /// A copy with the same slots in the same order.
    fn clone(&self) -> (r: Self)
        ensures
            r.slots() == self.slots(),
            r@ == self@,
            r.wf() == self.wf(),
    {
        let mut out: Vec<(String, Slot)> = Vec::new();
        let n = self.entries.len();
        let mut j: usize = 0;
        while j < n
            invariant
                n == self.entries@.len(),
                j <= n,
                out@ =~= self.entries@.take(j as int),
            decreases n - j,
        {
            let k = self.entries.key_at(j);
            let slot = self.entries.value_at(j);
            let v = match &slot.0 {
                Some(x) => Some(x.clone()),
                None => None,
            };
            out.push((k.clone(), (v, (slot.1.0, slot.1.1))));
            assert(self.entries@.take(j + 1) =~= self.entries@.take(j as int).push(self.entries@[j as int]));
            j = j + 1;
        }
        assert(self.entries@.take(n as int) =~= self.entries@);
        LwwMap { entries: SortedMap::from_sorted(out) }
    }
}

impl LwwMap {
    /// The entries are sorted by key.
    pub closed spec fn wf(&self) -> bool {
        self.entries.wf()
    }

    /// The slots in key order.
    pub closed spec fn slots(&self) -> Seq<(String, Slot)> {
        self.entries@
    }

    pub fn new() -> (m: Self)
        ensures
            m.wf(),
            m@ == Map::<Seq<int>, Slot>::empty(),
            m.slots().len() == 0,
    {
        LwwMap { entries: SortedMap::new() }
    }

    /// Writes `value` to `key` with dot `(ts_ms, node)`; kept if newer than
    /// what the key holds.
    pub fn set(&mut self, key: &str, value: String, ts_ms: u64, node: u64)
        requires
            old(self).wf(),
        ensures
            final(self).wf(),
            final(self)@ == lww_apply(old(self)@, key_rank(key@), (Some(value), (ts_ms, node))),
    {
        self.apply(key, Some(value), (ts_ms, node));
    }

    /// Deletes `key` with dot `(ts_ms, node)` (a tombstone); kept if newer
    /// than what the key holds.
    pub fn remove(&mut self, key: &str, ts_ms: u64, node: u64)
        requires
            old(self).wf(),
        ensures
            final(self).wf(),
            final(self)@ == lww_apply(old(self)@, key_rank(key@), (None, (ts_ms, node))),
    {
        self.apply(key, None, (ts_ms, node));
    }

    fn apply(&mut self, key: &str, value: Option<String>, dot: Dot)
        requires
            old(self).wf(),
        ensures
            final(self).wf(),
            final(self)@ == lww_apply(old(self)@, key_rank(key@), (value, dot)),
    {
        let k = key.to_owned();
        match self.entries.find(&k) {
            Ok(i) => {
                proof {
                    lemma_rank_map_index(self.entries@, i as int);
                }
                let cur = self.entries.value_at(i).1;
                if dot_less(cur, dot) {
                    self.entries.set_value_at(i, (value, dot));
                }
            },
            Err(i) => {
                proof {
                    crate::collections::lemma_fits_absent(self.entries@, i as int, k.rank());
                }
                self.entries.insert_at(i, k, (value, dot));
            },
        }
    }

    /// Loads a stored slot with its dot, as a write.
    pub fn apply_raw(&mut self, key: &str, value: Option<String>, ts_ms: u64, node: u64)
        requires
            old(self).wf(),
        ensures
            final(self).wf(),
            final(self)@ == lww_apply(old(self)@, key_rank(key@), (value, (ts_ms, node))),
    {
        self.apply(key, value, (ts_ms, node));
    }

    /// The live value of `key` (`None` for an absent key or a tombstone).
    pub fn get(&self, key: &str) -> (r: Option<&str>)
        requires
            self.wf(),
        ensures
            r.is_some() <==> (self@.contains_key(key_rank(key@)) && self@[key_rank(key@)].0.is_some()),
            r.is_some() ==> r.unwrap()@ == self@[key_rank(key@)].0.unwrap()@,
    {
        let k = key.to_owned();
        match self.entries.find(&k) {
            Ok(i) => {
                proof {
                    lemma_rank_map_index(self.entries@, i as int);
                }
                match &self.entries.value_at(i).0 {
                    Some(v) => Some(v.as_str()),
                    None => None,
                }
            },
            Err(i) => {
                proof {
                    crate::collections::lemma_fits_absent(self.entries@, i as int, k.rank());
                }
                None
            },
        }
    }
}


/// One entry of a user's sync document, as stored or sent: a tombstone has no
/// value.
#[derive(Clone, Debug, PartialEq, Eq)]
pub struct CrdtEntry {
    pub key: String,
    pub value: Option<String>,
    pub ts_ms: u64,
    pub node: u64,
}

/// The map obtained by writing each entry in turn.
pub open spec fn apply_entries(m: Map<Seq<int>, Slot>, es: Seq<CrdtEntry>) -> Map<Seq<int>, Slot>
    decreases es.len(),
{
    if es.len() == 0 {
        m
    } else {
        let e = es.last();
        lww_apply(apply_entries(m, es.drop_last()), key_rank(e.key@), (e.value, (e.ts_ms, e.node)))
    }
}

/// The live (key, value) pairs of a slot sequence, in order.
pub open spec fn live_pairs(s: Seq<(String, Slot)>) -> Seq<(Seq<char>, Seq<char>)>
    decreases s.len(),
{
    if s.len() == 0 {
        Seq::empty()
    } else {
        let rest = live_pairs(s.drop_last());
        match s.last().1.0 {
            Some(v) => rest.push((s.last().0@, v@)),
            None => rest,
        }
    }
}

/// Joining with the empty map changes nothing.
proof fn lemma_join_empty(a: Map<Seq<int>, Slot>)
    ensures
        lww_join(a, Map::empty()) == a,
{
    assert(lww_join(a, Map::empty()) =~= a);
}

/// Writing a slot for a key the second map lacks is joining with that map
/// grown by the slot.
proof fn lemma_join_step(a: Map<Seq<int>, Slot>, m: Map<Seq<int>, Slot>, k: Seq<int>, slot: Slot)
    requires
        !m.contains_key(k),
    ensures
        lww_apply(lww_join(a, m), k, slot) == lww_join(a, m.insert(k, slot)),
{
    assert(lww_apply(lww_join(a, m), k, slot) =~= lww_join(a, m.insert(k, slot)));
}

/// Joining a map with itself gives the map.
pub proof fn lemma_lww_join_idempotent(a: Map<Seq<int>, Slot>)
    ensures
        lww_join(a, a) == a,
{
    assert(lww_join(a, a) =~= a);
}

/// The join does not depend on the order of its arguments, where the two
/// maps agree on what each dot wrote.
pub proof fn lemma_lww_join_commutative(a: Map<Seq<int>, Slot>, b: Map<Seq<int>, Slot>)
    requires
        lww_agree(a, b),
    ensures
        lww_join(a, b) == lww_join(b, a),
{
    assert forall|k: Seq<int>| #[trigger] lww_join(a, b).contains_key(k) implies lww_join(a, b)[k]
        == lww_join(b, a)[k] by {
        if a.contains_key(k) && b.contains_key(k) && a[k].1 == b[k].1 {
            assert(a[k] == b[k]);
        }
    }
    assert(lww_join(a, b) =~= lww_join(b, a));
}

/// The join does not depend on how three maps are grouped.
pub proof fn lemma_lww_join_associative(
    a: Map<Seq<int>, Slot>,
    b: Map<Seq<int>, Slot>,
    c: Map<Seq<int>, Slot>,
)
    ensures
        lww_join(lww_join(a, b), c) == lww_join(a, lww_join(b, c)),
{
    assert(lww_join(lww_join(a, b), c) =~= lww_join(a, lww_join(b, c)));
}

/// Two writes give the same map in either order, unless they write the same
/// key with the same dot.
pub proof fn lemma_lww_apply_commutes(
    m: Map<Seq<int>, Slot>,
    k1: Seq<int>,
    s1: Slot,
    k2: Seq<int>,
    s2: Slot,
)
    requires
        k1 != k2 || s1.1 != s2.1,
    ensures
        lww_apply(lww_apply(m, k1, s1), k2, s2) == lww_apply(lww_apply(m, k2, s2), k1, s1),
{
    assert(lww_apply(lww_apply(m, k1, s1), k2, s2) =~= lww_apply(lww_apply(m, k2, s2), k1, s1));
}

impl LwwMap {
    /// Joins `other` into this replica, key by key.
    pub fn merge(&mut self, other: &LwwMap)
        requires
            old(self).wf(),
            other.wf(),
        ensures
            final(self).wf(),
            final(self)@ == lww_join(old(self)@, other@),
    {
        let n = other.entries.len();
        let mut j: usize = 0;
        proof {
            lemma_rank_map_empty(other.entries@.take(0));
            lemma_join_empty(self@);
        }
        while j < n
            invariant
                self.wf(),
                other.wf(),
                n == other.entries@.len(),
                j <= n,
                self@ == lww_join(old(self)@, rank_map(other.entries@.take(j as int))),
            decreases n - j,
        {
            let k = other.entries.key_at(j);
            let slot = other.entries.value_at(j);
            let v = match &slot.0 {
                Some(x) => Some(x.clone()),
                None => None,
            };
            proof {
                lemma_rank_map_prefix(other.entries@, j as int);
                crate::collections::lemma_fits_absent(
                    other.entries@.take(j as int),
                    j as int,
                    k.rank(),
                );
                lemma_join_step(
                    old(self)@,
                    rank_map(other.entries@.take(j as int)),
                    k.rank(),
                    (v, slot.1),
                );
            }
            self.apply(k.as_str(), v, slot.1);
            j = j + 1;
        }
        assert(other.entries@.take(n as int) =~= other.entries@);
    }

    /// This replica joined with `other`.
    pub fn merged(self, other: &LwwMap) -> (r: LwwMap)
        requires
            self.wf(),
            other.wf(),
        ensures
            r.wf(),
            r@ == lww_join(self@, other@),
    {
        let mut m = self;
        m.merge(other);
        m
    }

    /// The live pairs (tombstones left out), in key order.
    pub fn live(&self) -> (r: Vec<(&str, &str)>)
        ensures
            r@.map_values(|p: (&str, &str)| (p.0@, p.1@)) == live_pairs(self.slots()),
    {
        let mut out: Vec<(&str, &str)> = Vec::new();
        let n = self.entries.len();
        let mut j: usize = 0;
        while j < n
            invariant
                n == self.entries@.len(),
                j <= n,
                out@.map_values(|p: (&str, &str)| (p.0@, p.1@)) == live_pairs(
                    self.entries@.take(j as int),
                ),
            decreases n - j,
        {
            let k = self.entries.key_at(j);
            let slot = self.entries.value_at(j);
            assert(self.entries@.take(j + 1).drop_last() =~= self.entries@.take(j as int));
            match &slot.0 {
                Some(v) => {
                    out.push((k.as_str(), v.as_str()));
                },
                None => {},
            }
            assert(out@.map_values(|p: (&str, &str)| (p.0@, p.1@)) =~= live_pairs(
                self.entries@.take(j + 1),
            ));
            j = j + 1;
        }
        assert(self.entries@.take(n as int) =~= self.entries@);
        out
    }

    /// Every slot, tombstones included, in key order: (key, value, ts, node).
    pub fn raw_entries(&self) -> (r: Vec<(String, Option<String>, u64, u64)>)
        ensures
            r@.len() == self.slots().len(),
            forall|i: int|
                0 <= i < r@.len() ==> {
                    let s = #[trigger] self.slots()[i];
                    r@[i] == (s.0, s.1.0, s.1.1.0, s.1.1.1)
                },
    {
        let mut out: Vec<(String, Option<String>, u64, u64)> = Vec::new();
        let n = self.entries.len();
        let mut j: usize = 0;
        while j < n
            invariant
                n == self.entries@.len(),
                j <= n,
                out@.len() == j,
                forall|i: int|
                    0 <= i < j ==> {
                        let s = #[trigger] self.entries@[i];
                        out@[i] == (s.0, s.1.0, s.1.1.0, s.1.1.1)
                    },
            decreases n - j,
        {
            let k = self.entries.key_at(j);
            let slot = self.entries.value_at(j);
            let v = match &slot.0 {
                Some(x) => Some(x.clone()),
                None => None,
            };
            out.push((k.clone(), v, slot.1.0, slot.1.1));
            j = j + 1;
        }
        out
    }

    /// Builds a map by writing the entries in turn.
    pub fn from_entries(entries: Vec<CrdtEntry>) -> (r: LwwMap)
        ensures
            r.wf(),
            r@ == apply_entries(Map::empty(), entries@),
    {
        let mut m = LwwMap::new();
        let n = entries.len();
        let mut j: usize = 0;
        while j < n
            invariant
                m.wf(),
                n == entries@.len(),
                j <= n,
                m@ == apply_entries(Map::empty(), entries@.take(j as int)),
            decreases n - j,
        {
            let e = &entries[j];
            let v = match &e.value {
                Some(x) => Some(x.clone()),
                None => None,
            };
            assert(entries@.take(j + 1).drop_last() =~= entries@.take(j as int));
            m.apply_raw(e.key.as_str(), v, e.ts_ms, e.node);
            j = j + 1;
        }
        assert(entries@.take(n as int) =~= entries@);
        m
    }

    /// Every slot as an entry, tombstones included, in key order.
    pub fn to_entries(&self) -> (r: Vec<CrdtEntry>)
        ensures
            r@.len() == self.slots().len(),
            forall|i: int|
                0 <= i < r@.len() ==> {
                    let s = #[trigger] self.slots()[i];
                    r@[i] == CrdtEntry { key: s.0, value: s.1.0, ts_ms: s.1.1.0, node: s.1.1.1 }
                },
    {
        let raw = self.raw_entries();
        let mut out: Vec<CrdtEntry> = Vec::new();
        let n = raw.len();
        let mut j: usize = 0;
        while j < n
            invariant
                n == raw@.len(),
                raw@.len() == self.slots().len(),
                forall|i: int|
                    0 <= i < raw@.len() ==> {
                        let s = #[trigger] self.slots()[i];
                        raw@[i] == (s.0, s.1.0, s.1.1.0, s.1.1.1)
                    },
                j <= n,
                out@.len() == j,
                forall|i: int|
                    0 <= i < j ==> {
                        let s = #[trigger] self.slots()[i];
                        out@[i] == CrdtEntry { key: s.0, value: s.1.0, ts_ms: s.1.1.0, node: s.1.1.1 }
                    },
            decreases n - j,
        {
            let (key, value, ts_ms, node) = (
                raw[j].0.clone(),
                match &raw[j].1 {
                    Some(x) => Some(x.clone()),
                    None => None,
                },
                raw[j].2,
                raw[j].3,
            );
            out.push(CrdtEntry { key, value, ts_ms, node });
            j = j + 1;
        }
        out
    }
}

/// The stored slots of a well-formed map list its contents once per key, in
/// increasing key order: each slot holds what the map holds for its key,
/// every key of the map has a slot, and there are as many slots as keys.
pub proof fn lemma_slots_list_view(m: LwwMap)
    requires
        m.wf(),
    ensures
        m@.dom().finite(),
        m.slots().len() == m@.dom().len(),
        forall|i: int, j: int|
            0 <= i < j < m.slots().len() ==> lex_lt(
                key_rank(#[trigger] m.slots()[i].0@),
                key_rank(#[trigger] m.slots()[j].0@),
            ),
        forall|i: int|
            0 <= i < m.slots().len() ==> m@.contains_key(key_rank((#[trigger] m.slots()[i]).0@))
                && m@[key_rank(m.slots()[i].0@)] == m.slots()[i].1,
        forall|k: Seq<int>|
            #[trigger] m@.contains_key(k) ==> exists|i: int|
                0 <= i < m.slots().len() && key_rank(#[trigger] m.slots()[i].0@) == k,
{
    let s = m.slots();
    lemma_rank_map_len(s, s.len() as int);
    assert(s.take(s.len() as int) =~= s);
    assert forall|i: int, j: int| 0 <= i < j < s.len() implies lex_lt(
        key_rank(#[trigger] s[i].0@),
        key_rank(#[trigger] s[j].0@),
    ) by {
        assert(lex_lt(s[i].0.rank(), s[j].0.rank()));
    }
    assert forall|i: int| 0 <= i < s.len() implies m@.contains_key(key_rank((#[trigger] s[i]).0@))
        && m@[key_rank(s[i].0@)] == s[i].1 by {
        lemma_rank_map_index(s, i);
    }
    assert forall|k: Seq<int>| #[trigger] m@.contains_key(k) implies exists|i: int|
        0 <= i < s.len() && key_rank(#[trigger] s[i].0@) == k by {
        assert(has_rank(s, k));
        let i = choose|i: int| 0 <= i < s.len() && #[trigger] s[i].0.rank() == k;
        assert(key_rank(s[i].0@) == k);
    }
}

/// Writing the first `j` slots of a map, as entries in key order, into an
/// empty map gives the map of those slots.
proof fn lemma_entries_prefix(m: LwwMap, es: Seq<CrdtEntry>, j: int)
    requires
        m.wf(),
        es.len() == m.slots().len(),
        forall|i: int|
            0 <= i < es.len() ==> {
                let s = #[trigger] m.slots()[i];
                es[i] == CrdtEntry { key: s.0, value: s.1.0, ts_ms: s.1.1.0, node: s.1.1.1 }
            },
        0 <= j <= es.len(),
    ensures
        apply_entries(Map::empty(), es.take(j)) == rank_map(m.slots().take(j)),
    decreases j,
{
    let s = m.slots();
    if j == 0 {
        lemma_rank_map_empty(s.take(0));
        assert(es.take(0).len() == 0);
    } else {
        lemma_entries_prefix(m, es, j - 1);
        lemma_rank_map_prefix(s, j - 1);
        lemma_fits_absent(s.take(j - 1), j - 1, s[j - 1].0.rank());
        assert(es.take(j).drop_last() =~= es.take(j - 1));
        assert(es.take(j).last() == es[j - 1]);
    }
}

/// Writing a map's entries, listed as `to_entries` lists them (each slot in
/// key order, tombstones included), into an empty map rebuilds the map.
pub proof fn lemma_entries_round_trip(m: LwwMap, es: Seq<CrdtEntry>)
    requires
        m.wf(),
        es.len() == m.slots().len(),
        forall|i: int|
            0 <= i < es.len() ==> {
                let s = #[trigger] m.slots()[i];
                es[i] == CrdtEntry { key: s.0, value: s.1.0, ts_ms: s.1.1.0, node: s.1.1.1 }
            },
    ensures
        apply_entries(Map::empty(), es) == m@,
{
    lemma_entries_prefix(m, es, es.len() as int);
    assert(es.take(es.len() as int) =~= es);
    assert(m.slots().take(es.len() as int) =~= m.slots());
}

/// Two well-formed maps with the same contents hold the same slots in the
/// same order: a map's stored form is a function of its contents.
pub proof fn lemma_lww_map_canonical(a: LwwMap, b: LwwMap)
    requires
        a.wf(),
        b.wf(),
        a@ == b@,
    ensures
        a.slots().len() == b.slots().len(),
        forall|i: int|
            0 <= i < a.slots().len() ==> (#[trigger] a.slots()[i]).0@ == b.slots()[i].0@ && a.slots()[i].1
                == b.slots()[i].1,
{
    lemma_sorted_canonical(a.entries@, b.entries@);
    assert forall|i: int| 0 <= i < a.slots().len() implies (#[trigger] a.slots()[i]).0@
        == b.slots()[i].0@ && a.slots()[i].1 == b.slots()[i].1 by {
        let x = a.entries@[i].0@;
        let y = b.entries@[i].0@;
        assert(a.entries@[i].0.rank() == b.entries@[i].0.rank());
        assert(key_rank(x) == key_rank(y));
        lemma_key_rank_injective(x, y);
    }
}

/// Keys with the same rank are the same key.
pub proof fn lemma_key_rank_injective(x: Seq<char>, y: Seq<char>)
    requires
        key_rank(x) == key_rank(y),
    ensures
        x == y,
{
    let bx = vstd::utf8::encode_utf8(x);
    let by_ = vstd::utf8::encode_utf8(y);
    assert(bx.len() == byte_ints(bx).len());
    assert forall|i: int| 0 <= i < bx.len() implies bx[i] == by_[i] by {
        assert(byte_ints(bx)[i] == byte_ints(by_)[i]);
    }
    assert(bx =~= by_);
    vstd::utf8::encode_utf8_decode_utf8(x);
    vstd::utf8::encode_utf8_decode_utf8(y);
}


/// The rank of a dot.
pub open spec fn dot_rank(d: Dot) -> Seq<int> {
    seq![d.0 as int, d.1 as int]
}

/// The tags a tag map gives for `r` (none where it has no entry).
pub open spec fn tags_of(m: Map<Seq<int>, Set<Seq<int>>>, r: Seq<int>) -> Set<Seq<int>> {
    if m.contains_key(r) {
        m[r]
    } else {
        Set::empty()
    }
}

/// The tag sets of a map of sorted dot sets.
pub open spec fn tag_view(m: Map<Seq<int>, SortedMap<Dot, ()>>) -> Map<Seq<int>, Set<Seq<int>>> {
    Map::new(|r: Seq<int>| m.contains_key(r), |r: Seq<int>| m[r].map().dom())
}

/// Element-wise union of two tag maps.
pub open spec fn tags_union(
    a: Map<Seq<int>, Set<Seq<int>>>,
    b: Map<Seq<int>, Set<Seq<int>>>,
) -> Map<Seq<int>, Set<Seq<int>>> {
    Map::new(
        |r: Seq<int>| a.contains_key(r) || b.contains_key(r),
        |r: Seq<int>| tags_of(a, r).union(tags_of(b, r)),
    )
}

/// An element is present when one of its add tags has not been removed.
pub open spec fn orset_live(
    adds: Map<Seq<int>, Set<Seq<int>>>,
    removed: Set<Seq<int>>,
    r: Seq<int>,
) -> bool {
    adds.contains_key(r) && exists|t: Seq<int>| #[trigger] adds[r].contains(t) && !removed.contains(t)
}

/// Some tag of the set has not been removed.
pub open spec fn has_live_tag(tags: Set<Seq<int>>, removed: Set<Seq<int>>) -> bool {
    exists|t: Seq<int>| #[trigger] tags.contains(t) && !removed.contains(t)
}

/// Every dot set held in the sequence is sorted.
pub open spec fn inner_wf<T: SortKey>(s: Seq<(T, SortedMap<Dot, ()>)>) -> bool {
    forall|i: int| 0 <= i < s.len() ==> (#[trigger] s[i]).1.wf()
}

/// The elements of the sequence that have a tag outside `removed`, in order.
pub open spec fn live_members<T: SortKey>(
    s: Seq<(T, SortedMap<Dot, ()>)>,
    removed: Set<Seq<int>>,
) -> Seq<T>
    decreases s.len(),
{
    if s.len() == 0 {
        Seq::empty()
    } else {
        let rest = live_members(s.drop_last(), removed);
        if has_live_tag(s.last().1.map().dom(), removed) {
            rest.push(s.last().0)
        } else {
            rest
        }
    }
}

/// Adds every dot of `src` to `dst`.
fn union_into(dst: &mut SortedMap<Dot, ()>, src: &SortedMap<Dot, ()>)
    requires
        old(dst).wf(),
        src.wf(),
    ensures
        final(dst).wf(),
        final(dst).map().dom() == old(dst).map().dom().union(src.map().dom()),
{
    let n = src.len();
    let mut j: usize = 0;
    proof {
        lemma_rank_map_empty(src@.take(0));
        assert(dst.map().dom() =~= old(dst).map().dom().union(rank_map(src@.take(0)).dom()));
    }
    while j < n
        invariant
            dst.wf(),
            src.wf(),
            n == src@.len(),
            j <= n,
            dst.map().dom() == old(dst).map().dom().union(rank_map(src@.take(j as int)).dom()),
        decreases n - j,
    {
        let d = src.key_at(j).copy_key();
        proof {
            lemma_rank_map_prefix(src@, j as int);
        }
        dst.insert(d, ());
        assert(dst.map().dom() =~= old(dst).map().dom().union(rank_map(src@.take(j + 1)).dom()));
        j = j + 1;
    }
    assert(src@.take(n as int) =~= src@);
}

/// Whether some dot of `tags` is not in `removed`.
fn any_unremoved(tags: &SortedMap<Dot, ()>, removed: &SortedMap<Dot, ()>) -> (r: bool)
    requires
        tags.wf(),
        removed.wf(),
    ensures
        r == has_live_tag(tags.map().dom(), removed.map().dom()),
{
    let n = tags.len();
    let mut j: usize = 0;
    while j < n
        invariant
            tags.wf(),
            removed.wf(),
            n == tags@.len(),
            j <= n,
            forall|k: int| 0 <= k < j ==> removed.map().contains_key(#[trigger] tags@[k].0.rank()),
        decreases n - j,
    {
        match removed.find(tags.key_at(j)) {
            Ok(i) => {
                proof {
                    lemma_rank_map_index(removed@, i as int);
                }
            },
            Err(i) => {
                proof {
                    crate::collections::lemma_fits_absent(removed@, i as int, tags@[j as int].0.rank());
                    lemma_rank_map_index(tags@, j as int);
                    assert(tags.map().dom().contains(tags@[j as int].0.rank()));
                }
                return true;
            },
        }
        j = j + 1;
    }
    proof {
        assert forall|t: Seq<int>| #[trigger] tags.map().dom().contains(t) implies removed.map().dom().contains(t) by {
            let k = choose|k: int| 0 <= k < tags@.len() && #[trigger] tags@[k].0.rank() == t;
        }
    }
    false
}

/// Observed-remove set: each add carries a unique tag, and a remove retires
/// the tags it has seen, so an add concurrent with a remove survives.
#[derive(Debug, PartialEq, Eq)]
pub struct OrSet<T> {
    adds: SortedMap<T, SortedMap<Dot, ()>>,
    removed: SortedMap<Dot, ()>,
}

impl<T: SortKey> Clone for OrSet<T> {
    /// A copy with the same elements, tags and retired tags.
    fn clone(&self) -> (r: Self)
        ensures
            r.wf() == self.wf(),
            self.wf() ==> r.tags() == self.tags(),
            r.removed_tags() == self.removed_tags(),
    {
        let mut out: Vec<(T, SortedMap<Dot, ()>)> = Vec::new();
        let n = self.adds.len();
        let mut j: usize = 0;
        while j < n
            invariant
                n == self.adds@.len(),
                j <= n,
                out@.len() == j,
                forall|i: int|
                    0 <= i < j ==> (#[trigger] out@[i]).0 == self.adds@[i].0 && out@[i].1@ == self.adds@[i].1@,
            decreases n - j,
        {
            let k = self.adds.key_at(j).copy_key();
            let tags = copy_sorted(self.adds.value_at(j));
            out.push((k, tags));
            j = j + 1;
        }
        let adds = SortedMap::from_sorted(out);
        let r = OrSet { adds, removed: copy_sorted(&self.removed) };
        proof {
            let s = self.adds@;
            let t = r.adds@;
            assert(t.len() == s.len());
            assert(forall|i: int| 0 <= i < s.len() ==> (#[trigger] t[i]).0 == s[i].0 && t[i].1@ == s[i].1@);
            if strictly_sorted(s) {
                assert forall|i: int, j: int| 0 <= i < j < t.len() implies lex_lt(
                    #[trigger] t[i].0.rank(),
                    #[trigger] t[j].0.rank(),
                ) by {
                    assert(t[i].0 == s[i].0);
                    assert(t[j].0 == s[j].0);
                    assert(lex_lt(s[i].0.rank(), s[j].0.rank()));
                }
            }
            if strictly_sorted(t) {
                assert forall|i: int, j: int| 0 <= i < j < s.len() implies lex_lt(
                    #[trigger] s[i].0.rank(),
                    #[trigger] s[j].0.rank(),
                ) by {
                    assert(t[i].0 == s[i].0);
                    assert(t[j].0 == s[j].0);
                    assert(lex_lt(t[i].0.rank(), t[j].0.rank()));
                }
            }
            if inner_wf(s) {
                assert forall|i: int| 0 <= i < t.len() implies (#[trigger] t[i]).1.wf() by {
                    assert(t[i].1@ == s[i].1@);
                    assert(s[i].1.wf());
                }
            }
            if inner_wf(t) {
                assert forall|i: int| 0 <= i < s.len() implies (#[trigger] s[i]).1.wf() by {
                    assert(t[i].1@ == s[i].1@);
                    assert(t[i].1.wf());
                }
            }
            if self.wf() {
                assert forall|x: Seq<int>| #[trigger] has_rank(t, x) == has_rank(s, x) by {
                    if has_rank(t, x) {
                        let i = choose|i: int| 0 <= i < t.len() && #[trigger] t[i].0.rank() == x;
                        assert(s[i].0.rank() == x);
                    }
                    if has_rank(s, x) {
                        let i = choose|i: int| 0 <= i < s.len() && #[trigger] s[i].0.rank() == x;
                        assert(t[i].0.rank() == x);
                    }
                }
                assert forall|x: Seq<int>| #[trigger] r.tags().contains_key(x) implies r.tags()[x] == self.tags()[x] by {
                    let i = choose|i: int| 0 <= i < t.len() && #[trigger] t[i].0.rank() == x;
                    lemma_rank_map_index(t, i);
                    lemma_rank_map_index(s, i);
                    assert(t[i].1@ == s[i].1@);
                }
                assert(r.tags() =~= self.tags());
            }
        }
        r
    }
}

impl<T: SortKey> OrSet<T> {
    /// Sorted elements, each with a sorted set of tags, and a sorted set of
    /// retired tags.
    pub closed spec fn wf(&self) -> bool {
        &&& self.adds.wf()
        &&& self.removed.wf()
        &&& inner_wf(self.adds@)
    }

    /// Element rank to the tags of its adds.
    pub closed spec fn tags(&self) -> Map<Seq<int>, Set<Seq<int>>> {
        tag_view(self.adds.map())
    }

    /// The retired tags.
    pub closed spec fn removed_tags(&self) -> Set<Seq<int>> {
        self.removed.map().dom()
    }

    pub fn new() -> (s: Self)
        ensures
            s.wf(),
            s.tags() == Map::<Seq<int>, Set<Seq<int>>>::empty(),
            s.removed_tags() == Set::<Seq<int>>::empty(),
    {
        let s = OrSet { adds: SortedMap::new(), removed: SortedMap::new() };
        assert(s.tags() =~= Map::<Seq<int>, Set<Seq<int>>>::empty());
        s
    }

    /// Adds `value` under the tag `(ts_ms, node)`.
    pub fn add(&mut self, value: T, ts_ms: u64, node: u64)
        requires
            old(self).wf(),
        ensures
            final(self).wf(),
            final(self).tags() == old(self).tags().insert(
                value.rank(),
                tags_of(old(self).tags(), value.rank()).insert(dot_rank((ts_ms, node))),
            ),
            final(self).removed_tags() == old(self).removed_tags(),
    {
        let d: Dot = (ts_ms, node);
        let ghost r = value.rank();
        match self.adds.find(&value) {
            Ok(i) => {
                proof {
                    lemma_rank_map_index(self.adds@, i as int);
                }
                let mut tags = self.adds.replace_value_at(i, SortedMap::new());
                tags.insert(d, ());
                self.adds.set_value_at(i, tags);
                proof {
                    assert(inner_wf(self.adds@)) by {
                        assert forall|k: int| 0 <= k < self.adds@.len() implies (
                        #[trigger] self.adds@[k]).1.wf() by {
                            if k != i {
                                assert(self.adds@[k] == old(self).adds@[k]);
                            }
                        }
                    }
                    assert(self.tags() =~= old(self).tags().insert(
                        r,
                        tags_of(old(self).tags(), r).insert(dot_rank(d)),
                    ));
                }
            },
            Err(i) => {
                proof {
                    crate::collections::lemma_fits_absent(self.adds@, i as int, r);
                }
                let mut tags = SortedMap::new();
                tags.insert(d, ());
                self.adds.insert_at(i, value, tags);
                proof {
                    assert(inner_wf(self.adds@)) by {
                        assert forall|k: int| 0 <= k < self.adds@.len() implies (
                        #[trigger] self.adds@[k]).1.wf() by {
                            if k < i {
                                assert(self.adds@[k] == old(self).adds@[k]);
                            } else if k > i {
                                assert(self.adds@[k] == old(self).adds@[k - 1]);
                            }
                        }
                    }
                    assert(tags.map().dom() =~= Set::<Seq<int>>::empty().insert(dot_rank(d)));
                    assert(self.tags() =~= old(self).tags().insert(
                        r,
                        tags_of(old(self).tags(), r).insert(dot_rank(d)),
                    ));
                }
            },
        }
    }

    /// Retires every tag of `value` seen so far; later adds survive.
    pub fn remove(&mut self, value: &T)
        requires
            old(self).wf(),
        ensures
            final(self).wf(),
            final(self).tags() == old(self).tags(),
            final(self).removed_tags() == old(self).removed_tags().union(
                tags_of(old(self).tags(), value.rank()),
            ),
    {
        match self.adds.find(value) {
            Ok(i) => {
                proof {
                    lemma_rank_map_index(self.adds@, i as int);
                }
                let tags = self.adds.value_at(i);
                union_into(&mut self.removed, tags);
            },
            Err(i) => {
                proof {
                    crate::collections::lemma_fits_absent(self.adds@, i as int, value.rank());
                    assert(self.removed_tags() =~= old(self).removed_tags().union(
                        tags_of(old(self).tags(), value.rank()),
                    ));
                }
            },
        }
    }

    /// Whether `value` has an add tag that was not retired.
    pub fn contains(&self, value: &T) -> (r: bool)
        requires
            self.wf(),
        ensures
            r == orset_live(self.tags(), self.removed_tags(), value.rank()),
    {
        match self.adds.find(value) {
            Ok(i) => {
                proof {
                    lemma_rank_map_index(self.adds@, i as int);
                }
                let tags = self.adds.value_at(i);
                let b = any_unremoved(tags, &self.removed);
                proof {
                    let tv = self.tags();
                    assert(tv[value.rank()] == tags.map().dom());
                    if b {
                        let t = choose|t: Seq<int>| #[trigger] tags.map().dom().contains(t)
                            && !self.removed.map().dom().contains(t);
                        assert(tv[value.rank()].contains(t));
                    }
                }
                b
            },
            Err(i) => {
                proof {
                    crate::collections::lemma_fits_absent(self.adds@, i as int, value.rank());
                }
                false
            },
        }
    }
}


/// Some key of `s` has rank `x`.
pub open spec fn has_member_rank<T: SortKey>(s: Seq<T>, x: Seq<int>) -> bool {
    exists|i: int| 0 <= i < s.len() && #[trigger] s[i].rank() == x
}

/// Some entry of `s` has rank `x` and a live tag.
pub open spec fn has_live_entry<T: SortKey>(
    s: Seq<(T, SortedMap<Dot, ()>)>,
    removed: Set<Seq<int>>,
    x: Seq<int>,
) -> bool {
    exists|k: int|
        0 <= k < s.len() && #[trigger] s[k].0.rank() == x && has_live_tag(
            s[k].1.map().dom(),
            removed,
        )
}

/// The live members of a sorted sequence are sorted, and a rank is among
/// them exactly when an entry of that rank has a live tag.
proof fn lemma_live_members<T: SortKey>(s: Seq<(T, SortedMap<Dot, ()>)>, removed: Set<Seq<int>>)
    requires
        strictly_sorted(s),
    ensures
        forall|i: int, j: int|
            0 <= i < j < live_members(s, removed).len() ==> lex_lt(
                #[trigger] live_members(s, removed)[i].rank(),
                #[trigger] live_members(s, removed)[j].rank(),
            ),
        forall|x: Seq<int>|
            #[trigger] has_member_rank(live_members(s, removed), x) <==> has_live_entry(s, removed, x),
    decreases s.len(),
{
    if s.len() > 0 {
        let n = s.len() - 1;
        let t = s.drop_last();
        assert(strictly_sorted(t));
        lemma_live_members(t, removed);
        let rest = live_members(t, removed);
        let out = live_members(s, removed);
        assert forall|x: Seq<int>|
            #[trigger] has_member_rank(out, x) <==> has_live_entry(s, removed, x) by {
            assert(has_member_rank(rest, x) <==> has_live_entry(t, removed, x));
            if exists|i: int| 0 <= i < out.len() && #[trigger] out[i].rank() == x {
                let i = choose|i: int| 0 <= i < out.len() && #[trigger] out[i].rank() == x;
                if i < rest.len() {
                    assert(out[i] == rest[i]);
                    let k = choose|k: int|
                        0 <= k < t.len() && #[trigger] t[k].0.rank() == x && has_live_tag(
                            t[k].1.map().dom(),
                            removed,
                        );
                    assert(s[k] == t[k]);
                } else {
                    assert(s[n].0.rank() == x);
                }
            }
            if exists|k: int|
                0 <= k < s.len() && #[trigger] s[k].0.rank() == x && has_live_tag(
                    s[k].1.map().dom(),
                    removed,
                ) {
                let k = choose|k: int|
                    0 <= k < s.len() && #[trigger] s[k].0.rank() == x && has_live_tag(
                        s[k].1.map().dom(),
                        removed,
                    );
                if k < n {
                    assert(t[k] == s[k]);
                    assert(t[k].0.rank() == x);
                    let i = choose|i: int| 0 <= i < rest.len() && #[trigger] rest[i].rank() == x;
                    assert(out[i] == rest[i]);
                } else {
                    assert(out[out.len() - 1] == s[n].0);
                }
            }
        }
        assert forall|i: int, j: int| 0 <= i < j < out.len() implies lex_lt(
            #[trigger] out[i].rank(),
            #[trigger] out[j].rank(),
        ) by {
            if j < rest.len() {
                assert(out[i] == rest[i]);
                assert(out[j] == rest[j]);
            } else {
                assert(out[i] == rest[i]);
                let x = rest[i].rank();
                assert(has_member_rank(rest, x));
                assert(has_live_entry(t, removed, x));
                let k = choose|k: int|
                    0 <= k < t.len() && #[trigger] t[k].0.rank() == x && has_live_tag(
                        t[k].1.map().dom(),
                        removed,
                    );
                assert(s[k] == t[k]);
                assert(lex_lt(s[k].0.rank(), s[n].0.rank()));
            }
        }
    }
}

/// Growing the second tag map by a new element grows the union by the
/// element's tags.
proof fn lemma_tags_union_step(
    a: Map<Seq<int>, Set<Seq<int>>>,
    b: Map<Seq<int>, Set<Seq<int>>>,
    r: Seq<int>,
    t: Set<Seq<int>>,
)
    requires
        !b.contains_key(r),
    ensures
        tags_union(a, b.insert(r, t)) == tags_union(a, b).insert(
            r,
            tags_of(tags_union(a, b), r).union(t),
        ),
{
    let lhs = tags_union(a, b.insert(r, t));
    let rhs = tags_union(a, b).insert(r, tags_of(tags_union(a, b), r).union(t));
    assert forall|k: Seq<int>| #[trigger] lhs.contains_key(k) implies lhs[k] == rhs[k] by {
        if k == r {
            assert(lhs[k] =~= rhs[k]);
        } else {
            assert(lhs[k] =~= rhs[k]);
        }
    }
    assert(lhs =~= rhs);
}

/// Union of two tag maps does not depend on their order.
pub proof fn lemma_tags_union_commutative(
    a: Map<Seq<int>, Set<Seq<int>>>,
    b: Map<Seq<int>, Set<Seq<int>>>,
)
    ensures
        tags_union(a, b) == tags_union(b, a),
{
    assert forall|k: Seq<int>| #[trigger] tags_union(a, b).contains_key(k) implies tags_union(
        a,
        b,
    )[k] == tags_union(b, a)[k] by {
        assert(tags_union(a, b)[k] =~= tags_union(b, a)[k]);
    }
    assert(tags_union(a, b) =~= tags_union(b, a));
}

/// Union of tag maps does not depend on grouping.
pub proof fn lemma_tags_union_associative(
    a: Map<Seq<int>, Set<Seq<int>>>,
    b: Map<Seq<int>, Set<Seq<int>>>,
    c: Map<Seq<int>, Set<Seq<int>>>,
)
    ensures
        tags_union(tags_union(a, b), c) == tags_union(a, tags_union(b, c)),
{
    let l = tags_union(tags_union(a, b), c);
    let r = tags_union(a, tags_union(b, c));
    assert forall|k: Seq<int>| #[trigger] l.contains_key(k) implies l[k] == r[k] by {
        assert(l[k] =~= r[k]);
    }
    assert(l =~= r);
}

/// Union of a tag map with itself gives the map.
pub proof fn lemma_tags_union_idempotent(a: Map<Seq<int>, Set<Seq<int>>>)
    ensures
        tags_union(a, a) == a,
{
    assert forall|k: Seq<int>| #[trigger] tags_union(a, a).contains_key(k) implies tags_union(
        a,
        a,
    )[k] == a[k] by {
        assert(tags_union(a, a)[k] =~= a[k]);
    }
    assert(tags_union(a, a) =~= a);
}

/// Add wins: an add whose tag neither replica has retired keeps its element
/// present after the merge, whatever the other replica removed.
pub proof fn lemma_orset_add_wins(
    a_tags: Map<Seq<int>, Set<Seq<int>>>,
    a_removed: Set<Seq<int>>,
    b_tags: Map<Seq<int>, Set<Seq<int>>>,
    b_removed: Set<Seq<int>>,
    r: Seq<int>,
    t: Seq<int>,
)
    requires
        tags_of(b_tags, r).contains(t),
        !a_removed.contains(t),
        !b_removed.contains(t),
    ensures
        orset_live(tags_union(a_tags, b_tags), a_removed.union(b_removed), r),
{
    assert(tags_union(a_tags, b_tags)[r].contains(t));
}

/// After a remove, the element is absent until a new add.
pub proof fn lemma_orset_remove_hides(
    tags: Map<Seq<int>, Set<Seq<int>>>,
    removed: Set<Seq<int>>,
    r: Seq<int>,
)
    ensures
        !orset_live(tags, removed.union(tags_of(tags, r)), r),
{
}

/// After an add under a tag not retired, the element is present.
pub proof fn lemma_orset_add_shows(
    tags: Map<Seq<int>, Set<Seq<int>>>,
    removed: Set<Seq<int>>,
    r: Seq<int>,
    d: Dot,
)
    requires
        !removed.contains(dot_rank(d)),
    ensures
        orset_live(tags.insert(r, tags_of(tags, r).insert(dot_rank(d))), removed, r),
{
    let m = tags.insert(r, tags_of(tags, r).insert(dot_rank(d)));
    assert(m[r].contains(dot_rank(d)));
}

impl<T: SortKey> OrSet<T> {
    /// The present elements, in order.
    pub closed spec fn present(&self) -> Seq<T> {
        live_members(self.adds@, self.removed_tags())
    }

    /// The present elements, in order of rank.
    pub fn elements(&self) -> (r: Vec<T>)
        requires
            self.wf(),
        ensures
            r@ == self.present(),
            forall|i: int, j: int| 0 <= i < j < r@.len() ==> lex_lt(#[trigger] r@[i].rank(), #[trigger] r@[j].rank()),
            forall|x: Seq<int>|
                #[trigger] has_member_rank(r@, x) <==> orset_live(
                    self.tags(),
                    self.removed_tags(),
                    x,
                ),
    {
        let mut out: Vec<T> = Vec::new();
        let n = self.adds.len();
        let mut j: usize = 0;
        while j < n
            invariant
                self.wf(),
                n == self.adds@.len(),
                j <= n,
                out@ == live_members(self.adds@.take(j as int), self.removed_tags()),
            decreases n - j,
        {
            assert(self.adds@.take(j + 1).drop_last() =~= self.adds@.take(j as int));
            assert(self.adds@[j as int].1.wf());
            if any_unremoved(self.adds.value_at(j), &self.removed) {
                out.push(self.adds.key_at(j).copy_key());
            }
            j = j + 1;
        }
        assert(self.adds@.take(n as int) =~= self.adds@);
        proof {
            lemma_live_members(self.adds@, self.removed_tags());
            let s = self.adds@;
            assert forall|x: Seq<int>|
                #[trigger] has_member_rank(out@, x) <==> orset_live(self.tags(), self.removed_tags(), x) by {
                assert(has_member_rank(out@, x) <==> has_live_entry(s, self.removed_tags(), x));
                if orset_live(self.tags(), self.removed_tags(), x) {
                    let k = choose|k: int| 0 <= k < s.len() && #[trigger] s[k].0.rank() == x;
                    lemma_rank_map_index(s, k);
                    let t = choose|t: Seq<int>| #[trigger] self.tags()[x].contains(t)
                        && !self.removed_tags().contains(t);
                    assert(s[k].1.map().dom().contains(t));
                }
                if exists|k: int|
                    0 <= k < s.len() && #[trigger] s[k].0.rank() == x && has_live_tag(
                        s[k].1.map().dom(),
                        self.removed_tags(),
                    ) {
                    let k = choose|k: int|
                        0 <= k < s.len() && #[trigger] s[k].0.rank() == x && has_live_tag(
                            s[k].1.map().dom(),
                            self.removed_tags(),
                        );
                    lemma_rank_map_index(s, k);
                    let t = choose|t: Seq<int>| #[trigger] s[k].1.map().dom().contains(t)
                        && !self.removed_tags().contains(t);
                    assert(self.tags()[x].contains(t));
                }
            }
        }
        out
    }

    /// Joins `other` into this replica: tags and retired tags are united.
    pub fn merge(&mut self, other: &OrSet<T>)
        requires
            old(self).wf(),
            other.wf(),
        ensures
            final(self).wf(),
            final(self).tags() == tags_union(old(self).tags(), other.tags()),
            final(self).removed_tags() == old(self).removed_tags().union(other.removed_tags()),
    {
        let n = other.adds.len();
        let mut j: usize = 0;
        proof {
            lemma_rank_map_empty(other.adds@.take(0));
            assert(tag_view(rank_map(other.adds@.take(0))) =~= Map::<Seq<int>, Set<Seq<int>>>::empty());
            assert forall|k: Seq<int>| #[trigger] tags_union(self.tags(), Map::empty()).contains_key(k) implies tags_union(self.tags(), Map::empty())[k] == self.tags()[k] by {
                assert(tags_union(self.tags(), Map::empty())[k] =~= self.tags()[k]);
            }
            assert(tags_union(self.tags(), Map::empty()) =~= self.tags());
        }
        while j < n
            invariant
                self.wf(),
                other.wf(),
                n == other.adds@.len(),
                j <= n,
                self.removed_tags() == old(self).removed_tags(),
                self.tags() == tags_union(
                    old(self).tags(),
                    tag_view(rank_map(other.adds@.take(j as int))),
                ),
            decreases n - j,
        {
            let v = other.adds.key_at(j);
            let otags = other.adds.value_at(j);
            let ghost r = v.rank();
            let ghost pre = tag_view(rank_map(other.adds@.take(j as int)));
            proof {
                assert(otags.wf());
                lemma_rank_map_prefix(other.adds@, j as int);
                crate::collections::lemma_fits_absent(other.adds@.take(j as int), j as int, r);
                assert(tag_view(rank_map(other.adds@.take(j + 1))) =~= pre.insert(r, otags.map().dom()));
                lemma_tags_union_step(old(self).tags(), pre, r, otags.map().dom());
            }
            match self.adds.find(v) {
                Ok(i) => {
                    proof {
                        lemma_rank_map_index(self.adds@, i as int);
                    }
                    let ghost before = *self;
                    let mut tags = self.adds.replace_value_at(i, SortedMap::new());
                    union_into(&mut tags, otags);
                    self.adds.set_value_at(i, tags);
                    proof {
                        assert(inner_wf(self.adds@)) by {
                            assert forall|k: int| 0 <= k < self.adds@.len() implies (
                            #[trigger] self.adds@[k]).1.wf() by {
                                if k != i {
                                    assert(self.adds@[k] == before.adds@[k]);
                                }
                            }
                        }
                        assert(self.tags() =~= before.tags().insert(
                            r,
                            tags_of(before.tags(), r).union(otags.map().dom()),
                        ));
                    }
                },
                Err(i) => {
                    proof {
                        crate::collections::lemma_fits_absent(self.adds@, i as int, r);
                    }
                    let ghost before = *self;
                    let mut tags = SortedMap::new();
                    union_into(&mut tags, otags);
                    self.adds.insert_at(i, v.copy_key(), tags);
                    proof {
                        assert(inner_wf(self.adds@)) by {
                            assert forall|k: int| 0 <= k < self.adds@.len() implies (
                            #[trigger] self.adds@[k]).1.wf() by {
                                if k < i {
                                    assert(self.adds@[k] == before.adds@[k]);
                                } else if k > i {
                                    assert(self.adds@[k] == before.adds@[k - 1]);
                                }
                            }
                        }
                        assert(tags.map().dom() =~= Set::<Seq<int>>::empty().union(otags.map().dom()));
                        assert(tags_of(before.tags(), r) == Set::<Seq<int>>::empty());
                        assert(self.tags() =~= before.tags().insert(
                            r,
                            tags_of(before.tags(), r).union(otags.map().dom()),
                        ));
                    }
                },
            }
            j = j + 1;
        }
        assert(other.adds@.take(n as int) =~= other.adds@);
        union_into(&mut self.removed, &other.removed);
    }
}


/// The rank of a node id.
pub open spec fn node_rank(node: u64) -> Seq<int> {
    seq![node as int]
}

/// The count a per-node map holds for `node` (zero where it has none).
pub open spec fn count_of(m: Map<Seq<int>, u64>, node: u64) -> int {
    if m.contains_key(node_rank(node)) {
        m[node_rank(node)] as int
    } else {
        0
    }
}

/// Node-wise maximum of two per-node maps.
pub open spec fn max_join(a: Map<Seq<int>, u64>, b: Map<Seq<int>, u64>) -> Map<Seq<int>, u64> {
    Map::new(
        |r: Seq<int>| a.contains_key(r) || b.contains_key(r),
        |r: Seq<int>|
            if !b.contains_key(r) {
                a[r]
            } else if !a.contains_key(r) {
                b[r]
            } else if a[r] >= b[r] {
                a[r]
            } else {
                b[r]
            },
    )
}

/// The sum of the counts of a sequence of (node, count) entries.
pub open spec fn total(s: Seq<(u64, u64)>) -> int
    decreases s.len(),
{
    if s.len() == 0 {
        0
    } else {
        total(s.drop_last()) + s.last().1
    }
}

proof fn lemma_total_prefix(s: Seq<(u64, u64)>, j: int)
    requires
        0 <= j <= s.len(),
    ensures
        0 <= total(s.take(j)) <= total(s),
    decreases s.len() - j,
{
    if j < s.len() {
        lemma_total_prefix(s, j + 1);
        assert(s.take(j + 1).drop_last() =~= s.take(j));
    } else {
        assert(s.take(j) =~= s);
    }
    lemma_total_nonneg(s.take(j));
}

proof fn lemma_total_nonneg(s: Seq<(u64, u64)>)
    ensures
        total(s) >= 0,
    decreases s.len(),
{
    if s.len() > 0 {
        lemma_total_nonneg(s.drop_last());
    }
}

/// Sequences with the same counts in the same order have the same total.
proof fn lemma_total_same_counts(s: Seq<(u64, u64)>, t: Seq<(u64, u64)>)
    requires
        s.len() == t.len(),
        forall|i: int| 0 <= i < s.len() ==> #[trigger] s[i].1 == t[i].1,
    ensures
        total(s) == total(t),
    decreases s.len(),
{
    if s.len() > 0 {
        lemma_total_same_counts(s.drop_last(), t.drop_last());
    }
}

/// Adds one node's count to a running sum.
pub open spec fn count_adder() -> spec_fn(int, (Seq<int>, u64)) -> int {
    |acc: int, kv: (Seq<int>, u64)| acc + kv.1
}

/// The sum of the counts of a per-node map.
pub open spec fn count_sum(m: Map<Seq<int>, u64>) -> int {
    m.kv_pairs().fold(0int, count_adder())
}

proof fn lemma_count_adder_commutative()
    ensures
        vstd::set::fold::is_fun_commutative(count_adder()),
{
    let f = count_adder();
    assert forall|a1: (Seq<int>, u64), a2: (Seq<int>, u64), b: int| #[trigger] f(f(b, a2), a1) == f(f(b, a1), a2) by {}
}

proof fn lemma_kv_pairs_finite(m: Map<Seq<int>, u64>)
    requires
        m.dom().finite(),
    ensures
        m.kv_pairs().finite(),
{
    let f = |k: Seq<int>| (k, m[k]);
    m.dom().lemma_map_finite(f);
    assert(m.kv_pairs() =~= m.dom().map(f)) by {
        assert forall|kv: (Seq<int>, u64)| #[trigger] m.kv_pairs().contains(kv) implies m.dom().map(f).contains(kv) by {
            assert(f(kv.0) == kv);
        }
    }
}

/// The empty map sums to zero.
pub proof fn lemma_count_sum_empty()
    ensures
        count_sum(Map::<Seq<int>, u64>::empty()) == 0,
{
    assert(Map::<Seq<int>, u64>::empty().kv_pairs() =~= Set::empty());
    vstd::set::fold::lemma_fold_empty(0int, count_adder());
}

/// Setting one node's count changes the sum by the difference.
pub proof fn lemma_count_sum_insert(m: Map<Seq<int>, u64>, k: Seq<int>, v: u64)
    requires
        m.dom().finite(),
    ensures
        count_sum(m.insert(k, v)) == count_sum(m) - (if m.contains_key(k) { m[k] as int } else { 0 }) + v,
{
    let f = count_adder();
    lemma_count_adder_commutative();
    lemma_kv_pairs_finite(m);
    let kv = m.kv_pairs();
    if m.contains_key(k) {
        let p = (k, m[k]);
        let rest = kv.remove(p);
        assert(kv =~= rest.insert(p));
        vstd::set::fold::lemma_fold_insert(rest, 0int, f, p);
        assert(m.insert(k, v).kv_pairs() =~= rest.insert((k, v)));
        vstd::set::fold::lemma_fold_insert(rest, 0int, f, (k, v));
    } else {
        assert(m.insert(k, v).kv_pairs() =~= kv.insert((k, v)));
        vstd::set::fold::lemma_fold_insert(kv, 0int, f, (k, v));
    }
}

/// The total of a sorted prefix is the sum of its map.
proof fn lemma_total_is_count_sum(s: Seq<(u64, u64)>, j: int)
    requires
        strictly_sorted(s),
        0 <= j <= s.len(),
    ensures
        rank_map(s.take(j)).dom().finite(),
        total(s.take(j)) == count_sum(rank_map(s.take(j))),
    decreases j,
{
    lemma_rank_map_len(s, j);
    if j == 0 {
        lemma_rank_map_empty(s.take(0));
        lemma_count_sum_empty();
    } else {
        lemma_total_is_count_sum(s, j - 1);
        lemma_rank_map_prefix(s, j - 1);
        lemma_fits_absent(s.take(j - 1), j - 1, s[j - 1].0.rank());
        lemma_count_sum_insert(rank_map(s.take(j - 1)), s[j - 1].0.rank(), s[j - 1].1);
        assert(s.take(j).drop_last() =~= s.take(j - 1));
        assert(s.take(j).last() == s[j - 1]);
    }
}

/// Growing the second map by a new node takes the maximum at that node.
proof fn lemma_max_join_step(a: Map<Seq<int>, u64>, m: Map<Seq<int>, u64>, k: Seq<int>, v: u64)
    requires
        !m.contains_key(k),
    ensures
        max_join(a, m.insert(k, v)) == max_join(a, m).insert(
            k,
            if a.contains_key(k) && a[k] >= v {
                a[k]
            } else {
                v
            },
        ),
{
    assert(max_join(a, m.insert(k, v)) =~= max_join(a, m).insert(
        k,
        if a.contains_key(k) && a[k] >= v {
            a[k]
        } else {
            v
        },
    ));
}

/// The node-wise maximum does not depend on argument order.
pub proof fn lemma_max_join_commutative(a: Map<Seq<int>, u64>, b: Map<Seq<int>, u64>)
    ensures
        max_join(a, b) == max_join(b, a),
{
    assert(max_join(a, b) =~= max_join(b, a));
}

/// The node-wise maximum does not depend on grouping.
pub proof fn lemma_max_join_associative(
    a: Map<Seq<int>, u64>,
    b: Map<Seq<int>, u64>,
    c: Map<Seq<int>, u64>,
)
    ensures
        max_join(max_join(a, b), c) == max_join(a, max_join(b, c)),
{
    assert(max_join(max_join(a, b), c) =~= max_join(a, max_join(b, c)));
}

/// The node-wise maximum of a map with itself is the map.
pub proof fn lemma_max_join_idempotent(a: Map<Seq<int>, u64>)
    ensures
        max_join(a, a) == a,
{
    assert(max_join(a, a) =~= a);
}

/// Merging never lowers a node's count.
pub proof fn lemma_max_join_monotone(a: Map<Seq<int>, u64>, b: Map<Seq<int>, u64>, node: u64)
    ensures
        count_of(max_join(a, b), node) >= count_of(a, node),
        count_of(max_join(a, b), node) >= count_of(b, node),
{
}

/// Adds `by` to the count of `node` in a per-node map.
fn bump(m: &mut SortedMap<u64, u64>, node: u64, by: u64)
    requires
        old(m).wf(),
        count_of(old(m).map(), node) + by <= u64::MAX,
    ensures
        final(m).wf(),
        final(m).map() == old(m).map().insert(node_rank(node), (count_of(old(m).map(), node) + by) as u64),
{
    match m.find(&node) {
        Ok(i) => {
            proof {
                lemma_rank_map_index(m@, i as int);
            }
            let v = *m.value_at(i);
            m.set_value_at(i, v + by);
        },
        Err(i) => {
            proof {
                crate::collections::lemma_fits_absent(m@, i as int, node.rank());
            }
            m.insert_at(i, node, by);
        },
    }
}

/// Raises each node's count in `dst` to at least its count in `src`.
fn max_into(dst: &mut SortedMap<u64, u64>, src: &SortedMap<u64, u64>)
    requires
        old(dst).wf(),
        src.wf(),
    ensures
        final(dst).wf(),
        final(dst).map() == max_join(old(dst).map(), src.map()),
{
    let n = src.len();
    let mut j: usize = 0;
    proof {
        lemma_rank_map_empty(src@.take(0));
        assert(max_join(dst.map(), Map::empty()) =~= dst.map());
    }
    while j < n
        invariant
            dst.wf(),
            src.wf(),
            n == src@.len(),
            j <= n,
            dst.map() == max_join(old(dst).map(), rank_map(src@.take(j as int))),
        decreases n - j,
    {
        let k = *src.key_at(j);
        let v = *src.value_at(j);
        proof {
            lemma_rank_map_prefix(src@, j as int);
            crate::collections::lemma_fits_absent(src@.take(j as int), j as int, k.rank());
            lemma_max_join_step(old(dst).map(), rank_map(src@.take(j as int)), k.rank(), v);
        }
        match dst.find(&k) {
            Ok(i) => {
                proof {
                    lemma_rank_map_index(dst@, i as int);
                }
                let cur = *dst.value_at(i);
                if cur < v {
                    dst.set_value_at(i, v);
                } else {
                    proof {
                        assert(dst.map() =~= dst.map().insert(k.rank(), cur));
                    }
                }
            },
            Err(i) => {
                proof {
                    crate::collections::lemma_fits_absent(dst@, i as int, k.rank());
                }
                dst.insert_at(i, k, v);
            },
        }
        j = j + 1;
    }
    assert(src@.take(n as int) =~= src@);
}

/// Positive-negative counter: per-node increments and decrements, each only
/// growing, so the node-wise maximum is a join. Its value is the sum of the
/// increments minus the sum of the decrements.
#[derive(Debug, PartialEq, Eq)]
pub struct PnCounter {
    p: SortedMap<u64, u64>,
    n: SortedMap<u64, u64>,
}

impl Clone for PnCounter {
    /// A copy with the same per-node counts, stored alike.
    fn clone(&self) -> (r: Self)
        ensures
            r.wf() == self.wf(),
            r.increments() == self.increments(),
            r.decrements() == self.decrements(),
            r.added() == self.added(),
            r.subtracted() == self.subtracted(),
            r.signed_added() == self.signed_added(),
            r.signed_subtracted() == self.signed_subtracted(),
            r.value_fits() == self.value_fits(),
    {
        PnCounter { p: copy_sorted(&self.p), n: copy_sorted(&self.n) }
    }
}

impl PnCounter {
    pub closed spec fn wf(&self) -> bool {
        self.p.wf() && self.n.wf()
    }

    /// Node to the total it has added.
    pub closed spec fn increments(&self) -> Map<Seq<int>, u64> {
        self.p.map()
    }

    /// Node to the total it has subtracted.
    pub closed spec fn decrements(&self) -> Map<Seq<int>, u64> {
        self.n.map()
    }

    /// The sum of all increments.
    pub closed spec fn added(&self) -> int {
        total(self.p@)
    }

    /// The sum of all decrements.
    pub closed spec fn subtracted(&self) -> int {
        total(self.n@)
    }

    /// The sum of the increments, each read as an `i64`.
    pub closed spec fn signed_added(&self) -> int {
        signed_total(self.p@)
    }

    /// The sum of the decrements, each read as an `i64`.
    pub closed spec fn signed_subtracted(&self) -> int {
        signed_total(self.n@)
    }

    /// Summing the counts as `i64`s, in node order, stays within `i64`, and
    /// so does the difference of the two sums.
    pub closed spec fn value_fits(&self) -> bool {
        &&& sums_in_range(self.p@)
        &&& sums_in_range(self.n@)
        &&& i64::MIN <= signed_total(self.p@) - signed_total(self.n@) <= i64::MAX
    }

    pub fn new() -> (c: Self)
        ensures
            c.wf(),
            c.increments() == Map::<Seq<int>, u64>::empty(),
            c.decrements() == Map::<Seq<int>, u64>::empty(),
            c.added() == 0,
            c.subtracted() == 0,
    {
        PnCounter { p: SortedMap::new(), n: SortedMap::new() }
    }

    pub fn increment(&mut self, node: u64, by: u64)
        requires
            old(self).wf(),
            count_of(old(self).increments(), node) + by <= u64::MAX,
        ensures
            final(self).wf(),
            final(self).increments() == old(self).increments().insert(
                node_rank(node),
                (count_of(old(self).increments(), node) + by) as u64,
            ),
            final(self).decrements() == old(self).decrements(),
            final(self).added() == old(self).added() + by,
            final(self).subtracted() == old(self).subtracted(),
    {
        proof {
            self.lemma_sums();
        }
        bump(&mut self.p, node, by);
        proof {
            self.lemma_sums();
            lemma_count_sum_insert(old(self).increments(), node_rank(node), (count_of(old(self).increments(), node) + by) as u64);
        }
    }

    pub fn decrement(&mut self, node: u64, by: u64)
        requires
            old(self).wf(),
            count_of(old(self).decrements(), node) + by <= u64::MAX,
        ensures
            final(self).wf(),
            final(self).decrements() == old(self).decrements().insert(
                node_rank(node),
                (count_of(old(self).decrements(), node) + by) as u64,
            ),
            final(self).increments() == old(self).increments(),
            final(self).subtracted() == old(self).subtracted() + by,
            final(self).added() == old(self).added(),
    {
        proof {
            self.lemma_sums();
        }
        bump(&mut self.n, node, by);
        proof {
            self.lemma_sums();
            lemma_count_sum_insert(old(self).decrements(), node_rank(node), (count_of(old(self).decrements(), node) + by) as u64);
        }
    }

    /// Sum of the increments minus sum of the decrements, each count read
    /// as an `i64`.
    pub fn value(&self) -> (v: i64)
        requires
            self.wf(),
            self.value_fits(),
        ensures
            v == self.signed_added() - self.signed_subtracted(),
            self.added() <= i64::MAX && self.subtracted() <= i64::MAX ==> v == self.added() - self.subtracted(),
    {
        let a = sum_counts(&self.p);
        let b = sum_counts(&self.n);
        proof {
            if self.added() <= i64::MAX && self.subtracted() <= i64::MAX {
                lemma_small_totals(self.p@);
                lemma_small_totals(self.n@);
            }
        }
        a - b
    }

    /// The sums are the sums of the per-node maps, which are finite.
    pub proof fn lemma_sums(&self)
        requires
            self.wf(),
        ensures
            self.increments().dom().finite(),
            self.decrements().dom().finite(),
            self.added() == count_sum(self.increments()),
            self.subtracted() == count_sum(self.decrements()),
    {
        lemma_total_is_count_sum(self.p@, self.p@.len() as int);
        lemma_total_is_count_sum(self.n@, self.n@.len() as int);
        assert(self.p@.take(self.p@.len() as int) =~= self.p@);
        assert(self.n@.take(self.n@.len() as int) =~= self.n@);
    }

    /// Sums below `i64::MAX` leave every count as it is and fit.
    pub proof fn lemma_value_fits(&self)
        requires
            self.added() <= i64::MAX,
            self.subtracted() <= i64::MAX,
        ensures
            self.value_fits(),
            self.signed_added() == self.added(),
            self.signed_subtracted() == self.subtracted(),
    {
        lemma_small_totals(self.p@);
        lemma_small_totals(self.n@);
        lemma_total_nonneg(self.p@);
        lemma_total_nonneg(self.n@);
    }

    /// Joins `other` into this replica: node-wise maximum of both sides.
    pub fn merge(&mut self, other: &PnCounter)
        requires
            old(self).wf(),
            other.wf(),
        ensures
            final(self).wf(),
            final(self).increments() == max_join(old(self).increments(), other.increments()),
            final(self).decrements() == max_join(old(self).decrements(), other.decrements()),
    {
        max_into(&mut self.p, &other.p);
        max_into(&mut self.n, &other.n);
    }
}

/// A count read as an `i64` (two's complement).
pub open spec fn signed_count(v: u64) -> int {
    if v <= i64::MAX {
        v as int
    } else {
        v - 0x1_0000_0000_0000_0000
    }
}

/// The sum of the counts, each read as an `i64`.
pub open spec fn signed_total(s: Seq<(u64, u64)>) -> int
    decreases s.len(),
{
    if s.len() == 0 {
        0
    } else {
        signed_total(s.drop_last()) + signed_count(s.last().1)
    }
}

/// Every running sum of the counts read as `i64`s stays within `i64`.
pub open spec fn sums_in_range(s: Seq<(u64, u64)>) -> bool {
    forall|j: int| 0 <= j <= s.len() ==> i64::MIN <= #[trigger] signed_total(s.take(j)) <= i64::MAX
}

/// Totals up to `i64::MAX` read every count as itself, and so do their
/// prefixes.
proof fn lemma_small_totals(s: Seq<(u64, u64)>)
    requires
        total(s) <= i64::MAX,
    ensures
        signed_total(s) == total(s),
        sums_in_range(s),
    decreases s.len(),
{
    lemma_total_nonneg(s);
    if s.len() > 0 {
        lemma_total_nonneg(s.drop_last());
        lemma_small_totals(s.drop_last());
    }
    assert forall|j: int| 0 <= j <= s.len() implies i64::MIN <= #[trigger] signed_total(s.take(j)) <= i64::MAX by {
        lemma_total_prefix(s, j);
        if j < s.len() {
            lemma_small_totals(s.take(j));
        } else {
            assert(s.take(j) =~= s);
        }
    }
}

/// A count as an `i64`, the way `as` reads it.
fn count_as_i64(v: u64) -> (r: i64)
    ensures
        r == signed_count(v),
{
    if v <= 0x7fff_ffff_ffff_ffffu64 {
        v as i64
    } else {
        -((u64::MAX - v) as i64) - 1
    }
}

/// The sum of the counts of a per-node map, each read as an `i64`.
fn sum_counts(m: &SortedMap<u64, u64>) -> (r: i64)
    requires
        sums_in_range(m@),
    ensures
        r == signed_total(m@),
{
    let n = m.len();
    let mut acc: i64 = 0;
    let mut j: usize = 0;
    assert(m@.take(0) =~= Seq::<(u64, u64)>::empty());
    while j < n
        invariant
            n == m@.len(),
            j <= n,
            sums_in_range(m@),
            acc == signed_total(m@.take(j as int)),
        decreases n - j,
    {
        proof {
            assert(m@.take(j + 1).drop_last() =~= m@.take(j as int));
            assert(m@.take(j + 1).last() == m@[j as int]);
            assert(i64::MIN <= signed_total(m@.take(j + 1)) <= i64::MAX);
        }
        let v = *m.value_at(j);
        acc = acc + count_as_i64(v);
        j = j + 1;
    }
    assert(m@.take(n as int) =~= m@);
    acc
}

/// A counter's value depends only on its contents: counters with the same
/// per-node counts have the same sums.
pub proof fn lemma_pn_counter_sums(a: PnCounter, b: PnCounter)
    requires
        a.wf(),
        b.wf(),
        a.increments() == b.increments(),
        a.decrements() == b.decrements(),
    ensures
        a.added() == b.added(),
        a.subtracted() == b.subtracted(),
{
    lemma_sorted_canonical(a.p@, b.p@);
    lemma_sorted_canonical(a.n@, b.n@);
    assert forall|i: int| 0 <= i < a.p@.len() implies #[trigger] a.p@[i].1 == b.p@[i].1 by {
        assert(a.p@[i].0.rank() == b.p@[i].0.rank());
    }
    assert forall|i: int| 0 <= i < a.n@.len() implies #[trigger] a.n@[i].1 == b.n@[i].1 by {
        assert(a.n@[i].0.rank() == b.n@[i].0.rank());
    }
    lemma_total_same_counts(a.p@, b.p@);
    lemma_total_same_counts(a.n@, b.n@);
}


impl Default for LwwMap {
    fn default() -> (m: Self)
        ensures
            m.wf(),
            m@ == Map::<Seq<int>, Slot>::empty(),
    {
        LwwMap::new()
    }
}

impl<T: SortKey> Default for OrSet<T> {
    fn default() -> (s: Self)
        ensures
            s.wf(),
            s.tags() == Map::<Seq<int>, Set<Seq<int>>>::empty(),
            s.removed_tags() == Set::<Seq<int>>::empty(),
    {
        OrSet::new()
    }
}

impl Default for PnCounter {
    fn default() -> (c: Self)
        ensures
            c.wf(),
            c.increments() == Map::<Seq<int>, u64>::empty(),
            c.decrements() == Map::<Seq<int>, u64>::empty(),
    {
        PnCounter::new()
    }
}

} // verus!
