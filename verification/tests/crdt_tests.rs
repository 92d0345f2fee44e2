use backend::domain::crdt::{CrdtEntry, LwwMap, LwwRegister, OrSet, PnCounter};

// ---- LwwRegister ----

#[test]
fn lww_register_higher_dot_wins() {
    let mut a = LwwRegister::new("a", 10, 1);
    a.merge(&LwwRegister::new("b", 20, 1));
    assert_eq!(a.value, "b");
    a.merge(&LwwRegister::new("c", 15, 1));
    assert_eq!(a.value, "b");
}

#[test]
fn lww_register_tiebreak_by_node() {
    let mut a = LwwRegister::new("a", 10, 1);
    a.merge(&LwwRegister::new("b", 10, 2));
    assert_eq!(a.value, "b");
}

#[test]
fn lww_register_equal_dot_keeps_current() {
    let mut a = LwwRegister::new("a", 10, 2);
    a.merge(&LwwRegister::new("b", 10, 2));
    assert_eq!(a.value, "a");
    let m = LwwRegister::new("x", 5, 1).merged(&LwwRegister::new("y", 6, 0));
    assert_eq!(m.value, "y");
    assert_eq!(m.dot, (6, 0));
}

// ---- LwwMap ----

fn sample_map(node: u64) -> LwwMap {
    let mut m = LwwMap::new();
    m.set("k1", format!("v{node}"), 100 + node, node);
    m
}

#[test]
fn lwwmap_merge_is_idempotent_commutative_associative() {
    let a = sample_map(1);
    let b = sample_map(2);
    let mut c = LwwMap::new();
    c.set("k2", "z".into(), 50, 3);

    assert_eq!(a.clone().merged(&a), a);
    assert_eq!(a.clone().merged(&b), b.clone().merged(&a));
    let left = a.clone().merged(&b).merged(&c);
    let right = a.clone().merged(&b.clone().merged(&c));
    assert_eq!(left, right);
}

#[test]
fn lwwmap_offline_two_devices_converge() {
    let mut d1 = LwwMap::new();
    d1.set("draft", "phone".into(), 200, 1);
    let mut d2 = LwwMap::new();
    d2.set("draft", "laptop".into(), 210, 2);
    let s1 = d1.clone().merged(&d2);
    let s2 = d2.clone().merged(&d1);
    assert_eq!(s1, s2);
    assert_eq!(s1.get("draft"), Some("laptop"));
}

#[test]
fn lwwmap_tombstone_delete_and_resurrect() {
    let mut m = LwwMap::new();
    m.set("k", "v".into(), 10, 1);
    m.remove("k", 20, 1);
    assert_eq!(m.get("k"), None);
    m.set("k", "again".into(), 30, 1);
    assert_eq!(m.get("k"), Some("again"));
    let snapshot = m.clone();
    assert_eq!(m.clone().merged(&snapshot), m);
}

#[test]
fn lwwmap_older_write_is_ignored() {
    let mut m = LwwMap::new();
    m.set("k", "new".into(), 50, 1);
    m.set("k", "old".into(), 40, 9);
    assert_eq!(m.get("k"), Some("new"));
    m.remove("k", 30, 1);
    assert_eq!(m.get("k"), Some("new"));
    assert_eq!(m.get("missing"), None);
}

#[test]
fn lwwmap_live_skips_tombstones_in_key_order() {
    let mut m = LwwMap::new();
    m.set("b", "2".into(), 1, 1);
    m.set("a", "1".into(), 1, 1);
    m.set("c", "3".into(), 1, 1);
    m.remove("b", 2, 1);
    assert_eq!(m.live(), vec![("a", "1"), ("c", "3")]);
    let raw = m.raw_entries();
    assert_eq!(raw.len(), 3);
    assert_eq!(raw[1], ("b".to_string(), None, 2, 1));
}

#[test]
fn lwwmap_entries_round_trip() {
    let mut m = LwwMap::new();
    m.set("x", "1".into(), 5, 2);
    m.remove("y", 6, 3);
    let entries = m.to_entries();
    assert_eq!(entries.len(), 2);
    assert_eq!(entries[0], CrdtEntry { key: "x".into(), value: Some("1".into()), ts_ms: 5, node: 2 });
    let back = LwwMap::from_entries(entries);
    assert_eq!(back, m);
}

// ---- OrSet ----

#[test]
fn orset_add_wins_over_concurrent_remove() {
    let mut r1 = OrSet::new();
    r1.add("x", 10, 1);
    r1.remove(&"x");
    let mut r2 = OrSet::new();
    r2.add("x", 11, 2);
    r1.merge(&r2);
    assert!(r1.contains(&"x"), "concurrent add wins over remove");
    assert_eq!(r1.elements(), vec!["x"]);
}

#[test]
fn orset_merge_commutative() {
    let mut a = OrSet::new();
    a.add("a", 1, 1);
    let mut b = OrSet::new();
    b.add("b", 1, 2);
    b.remove(&"b");
    let ab = {
        let mut x = a.clone();
        x.merge(&b);
        x.elements()
    };
    let ba = {
        let mut x = b.clone();
        x.merge(&a);
        x.elements()
    };
    assert_eq!(ab, ba);
    assert_eq!(ab, vec!["a"]);
}

#[test]
fn orset_remove_then_add_again_shows() {
    let mut s: OrSet<u64> = OrSet::new();
    s.add(7, 1, 1);
    s.remove(&7);
    assert!(!s.contains(&7));
    s.add(7, 2, 1);
    assert!(s.contains(&7));
    assert!(!s.contains(&8));
    assert_eq!(s.elements(), vec![7]);
}

// ---- PnCounter ----

#[test]
fn pncounter_converges_with_max_join() {
    let mut a = PnCounter::new();
    a.increment(1, 5);
    a.decrement(1, 2);
    let mut b = PnCounter::new();
    b.increment(2, 3);
    a.merge(&b);
    b.merge(&a);
    assert_eq!(a.value(), b.value());
    assert_eq!(a.value(), 5 - 2 + 3);
    let snap = a.clone();
    a.merge(&snap);
    assert_eq!(a.value(), 6);
}

#[test]
fn pncounter_merge_takes_node_maximum() {
    let mut a = PnCounter::new();
    a.increment(1, 4);
    let mut b = PnCounter::new();
    b.increment(1, 9);
    b.decrement(3, 1);
    a.merge(&b);
    assert_eq!(a.value(), 8);
    assert_eq!(PnCounter::new().value(), 0);
}

#[test]
fn pncounter_reads_counts_as_i64() {
    let mut c = PnCounter::new();
    c.increment(1, u64::MAX);
    assert_eq!(c.value(), -1);
    c.decrement(2, 5);
    assert_eq!(c.value(), -6);
}

#[test]
fn lww_register_merge_is_a_join() {
    let a = LwwRegister::new("a", 10, 1);
    let b = LwwRegister::new("b", 20, 1);
    let c = LwwRegister::new("c", 15, 2);
    assert_eq!(a.clone().merged(&a), a);
    assert_eq!(a.clone().merged(&b), b.clone().merged(&a));
    let left = a.clone().merged(&b).merged(&c);
    let right = a.clone().merged(&b.clone().merged(&c));
    assert_eq!(left, right);
    assert_eq!(left.value, "b");
    assert_eq!(left.dot, (20, 1));
}

#[test]
fn lww_map_clone_keeps_every_slot() {
    let mut m = LwwMap::new();
    m.set("k1", "v1".to_string(), 101, 1);
    m.remove("k2", 50, 3);
    let c = m.clone();
    assert_eq!(c, m);
    assert_eq!(c.to_entries(), m.to_entries());
}

#[test]
fn lww_map_entries_round_trip_with_tombstones() {
    let mut m = LwwMap::new();
    m.set("b", "2".to_string(), 7, 1);
    m.set("a", "1".to_string(), 5, 2);
    m.remove("c", 9, 1);
    let back = LwwMap::from_entries(m.to_entries());
    assert_eq!(back, m);
    assert_eq!(back.to_entries().len(), 3);
}

#[test]
fn orset_and_counter_clones_match() {
    let mut s = OrSet::new();
    s.add("x", 3, 1);
    s.add("y", 4, 1);
    s.remove(&"y");
    let c = s.clone();
    assert_eq!(c, s);
    assert_eq!(c.elements(), vec!["x"]);
    let mut p = PnCounter::new();
    p.increment(2, 7);
    p.decrement(5, 3);
    let q = p.clone();
    assert_eq!(q, p);
    assert_eq!(q.value(), 4);
}
