use crdt::pn_counter::PNCounter;
use crdt::traits::CvRDT;

#[test]
fn pn_counter_empty_counter_is_zero() {
    assert_eq!(PNCounter::new().value(), 0);
}

#[test]
fn increments_and_decrements_combine() {
    let mut c = PNCounter::new();
    c.increment(1, 10);
    c.decrement(1, 3);
    assert_eq!(c.value(), 7);
}

#[test]
fn value_can_be_negative() {
    let mut c = PNCounter::new();
    c.decrement(1, 5);
    assert_eq!(c.value(), -5);
}

#[test]
fn pn_counter_merge_combines_replicas() {
    let mut a = PNCounter::new();
    a.increment(1, 5);
    a.decrement(1, 1);
    let mut b = PNCounter::new();
    b.increment(2, 3);
    b.decrement(2, 2);
    a.merge(&b);
    assert_eq!(a.value(), 5);
}

#[test]
fn pn_counter_merge_is_idempotent() {
    let mut a = PNCounter::new();
    a.increment(1, 5);
    a.decrement(1, 2);
    let snapshot = a.clone();
    a.merge(&snapshot);
    assert_eq!(a, snapshot);
}

#[test]
fn pn_counter_merge_is_commutative() {
    let mut a = PNCounter::new();
    a.increment(1, 4);
    let mut b = PNCounter::new();
    b.decrement(2, 9);
    let mut ab = a.clone();
    ab.merge(&b);
    let mut ba = b.clone();
    ba.merge(&a);
    assert_eq!(ab, ba);
    assert_eq!(ab.value(), -5);
}

#[test]
fn pn_counter_extreme_values() {
    let mut c = PNCounter::new();
    c.decrement(1, u64::MAX);
    assert_eq!(c.value(), -(u64::MAX as i128));
    c.increment(2, u64::MAX);
    assert_eq!(c.value(), 0);
}
