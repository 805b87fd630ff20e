use crdt::traits::CvRDT;
use crdt::vector_clock::VectorClock;
use std::cmp::Ordering;

#[test]
fn empty_clocks_are_equal() {
    let a = VectorClock::new();
    let b = VectorClock::new();
    assert_eq!(a, b);
    assert_eq!(a.partial_cmp(&b), Some(Ordering::Equal));
}

#[test]
fn increment_advances_own_counter() {
    let mut a = VectorClock::new();
    assert_eq!(a.increment(1), 1);
    assert_eq!(a.increment(1), 2);
    assert_eq!(a.get(1), 2);
    assert_eq!(a.get(2), 0);
}

#[test]
fn happens_before_detected() {
    let mut a = VectorClock::new();
    a.increment(1);
    let mut b = a.clone();
    b.increment(1);
    assert!(a.happens_before(&b));
    assert!(!b.happens_before(&a));
    assert_eq!(a.partial_cmp(&b), Some(Ordering::Less));
}

#[test]
fn concurrent_events_detected() {
    let mut a = VectorClock::new();
    a.increment(1);
    let mut b = VectorClock::new();
    b.increment(2);
    assert!(a.concurrent_with(&b));
    assert!(b.concurrent_with(&a));
    assert_eq!(a.partial_cmp(&b), None);
}

#[test]
fn equal_clocks_are_not_concurrent() {
    let mut a = VectorClock::new();
    a.increment(1);
    let b = a.clone();
    assert!(!a.concurrent_with(&b));
    assert!(!a.happens_before(&b));
}

#[test]
fn merge_takes_elementwise_max() {
    let mut a = VectorClock::new();
    a.increment(1);
    a.increment(1);
    let mut b = VectorClock::new();
    b.increment(1);
    b.increment(2);
    a.merge(&b);
    assert_eq!(a.get(1), 2);
    assert_eq!(a.get(2), 1);
}

#[test]
fn observe_advances_when_higher() {
    let mut a = VectorClock::new();
    a.observe(1, 5);
    assert_eq!(a.get(1), 5);
    a.observe(1, 3);
    assert_eq!(a.get(1), 5);
    a.observe(1, 7);
    assert_eq!(a.get(1), 7);
}

#[test]
fn clock_observe_zero_changes_nothing() {
    let mut a = VectorClock::new();
    a.observe(3, 0);
    assert!(a.is_empty());
    assert_eq!(a, VectorClock::new());
}

#[test]
fn clock_greater_and_mirror() {
    let mut a = VectorClock::new();
    a.increment(1);
    let mut b = a.clone();
    b.increment(2);
    assert_eq!(b.partial_cmp(&a), Some(Ordering::Greater));
    assert!(a < b);
    assert!(b > a);
}

#[test]
fn clock_increment_makes_clock_greater() {
    let mut before = VectorClock::new();
    before.increment(3);
    before.increment(1);
    let mut after = before.clone();
    after.increment(1);
    assert!(before.happens_before(&after));
    assert!(!after.happens_before(&before));
}

#[test]
fn clock_merged_dominates_both() {
    let mut a = VectorClock::new();
    a.increment(1);
    a.increment(1);
    let mut b = VectorClock::new();
    b.increment(2);
    let mut merged = a.clone();
    merged.merge(&b);
    assert!(matches!(a.partial_cmp(&merged), Some(Ordering::Less) | Some(Ordering::Equal)));
    assert!(matches!(b.partial_cmp(&merged), Some(Ordering::Less) | Some(Ordering::Equal)));
}

#[test]
fn clock_merge_is_commutative_and_idempotent() {
    let mut a = VectorClock::new();
    a.increment(1);
    a.increment(4);
    let mut b = VectorClock::new();
    b.increment(4);
    b.increment(4);
    let mut ab = a.clone();
    ab.merge(&b);
    let mut ba = b.clone();
    ba.merge(&a);
    assert_eq!(ab, ba);
    let snapshot = ab.clone();
    ab.merge(&snapshot);
    assert_eq!(ab, snapshot);
}

#[test]
fn clock_default_is_empty() {
    let c = VectorClock::default();
    assert!(c.is_empty());
}

#[test]
fn clock_entries_round_trip() {
    let mut a = VectorClock::new();
    a.increment(1);
    a.increment(5);
    a.increment(5);
    let mut e = a.entries();
    e.sort();
    assert_eq!(e, vec![(1, 1), (5, 2)]);
    let b = VectorClock::from_entries(&vec![(5, 2), (1, 1)]);
    assert_eq!(a, b);
}

#[test]
fn clock_from_entries_later_pair_wins() {
    let b = VectorClock::from_entries(&vec![(5, 2), (1, 1), (5, 1)]);
    assert_eq!(b.get(5), 1);
    assert_eq!(b.get(1), 1);
    let mut e = b.entries();
    e.sort();
    assert_eq!(e, vec![(1, 1), (5, 1)]);
}

#[test]
fn clock_from_entries_keeps_zero_counts() {
    let b = VectorClock::from_entries(&vec![(7, 0)]);
    assert_eq!(b.get(7), 0);
    assert!(!b.is_empty());
    assert_eq!(b.entries(), vec![(7, 0)]);
    let mut c = VectorClock::new();
    c.merge(&b);
    assert!(c.is_empty());
}
