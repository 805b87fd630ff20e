use crdt::counter::GCounter;
use crdt::traits::CvRDT;

#[test]
fn counter_empty_counter_is_zero() {
    assert_eq!(GCounter::new().value(), 0);
}

#[test]
fn single_replica_increments_accumulate() {
    let mut c = GCounter::new();
    c.increment(1, 5);
    c.increment(1, 7);
    assert_eq!(c.value(), 12);
}

#[test]
fn counter_merge_combines_replicas() {
    let mut a = GCounter::new();
    a.increment(1, 5);
    let mut b = GCounter::new();
    b.increment(2, 3);
    a.merge(&b);
    assert_eq!(a.value(), 8);
}

#[test]
fn counter_merge_is_idempotent() {
    let mut a = GCounter::new();
    a.increment(1, 5);
    let snapshot = a.clone();
    a.merge(&snapshot);
    assert_eq!(a, snapshot);
}

#[test]
fn merge_is_commutative() {
    let mut a = GCounter::new();
    a.increment(1, 3);
    let mut b = GCounter::new();
    b.increment(2, 4);

    let mut ab = a.clone();
    ab.merge(&b);
    let mut ba = b.clone();
    ba.merge(&a);
    assert_eq!(ab, ba);
}

#[test]
fn counter_doc_example_converges_to_seven() {
    let mut a = GCounter::new();
    let mut b = GCounter::new();
    a.increment(1, 3);
    b.increment(2, 4);
    a.merge(&b);
    assert_eq!(a.value(), 7);
}

#[test]
fn counter_merge_takes_maximum_per_replica() {
    let mut a = GCounter::new();
    a.increment(1, 5);
    let mut b = GCounter::new();
    b.increment(1, 2);
    b.increment(2, 1);
    a.merge(&b);
    assert_eq!(a.value(), 6);
    assert_eq!(a.replica_count(), 2);
}

#[test]
fn counter_merge_is_associative_on_values() {
    let mut a = GCounter::new();
    a.increment(1, 3);
    let mut b = GCounter::new();
    b.increment(2, 4);
    b.increment(1, 1);
    let mut c = GCounter::new();
    c.increment(3, 9);

    let mut ab_c = a.clone();
    ab_c.merge(&b);
    ab_c.merge(&c);
    let mut bc = b.clone();
    bc.merge(&c);
    let mut a_bc = a.clone();
    a_bc.merge(&bc);
    assert_eq!(ab_c, a_bc);
    assert_eq!(ab_c.value(), 16);
}

#[test]
fn counter_zero_increment_registers_replica() {
    let mut c = GCounter::new();
    c.increment(4, 0);
    assert_eq!(c.replica_count(), 1);
    assert_eq!(c.value(), 0);
}

#[test]
fn counter_default_is_empty() {
    let c = GCounter::default();
    assert_eq!(c.replica_count(), 0);
    assert_eq!(c, GCounter::new());
}

#[test]
fn counter_increment_raises_value_by_n() {
    let mut c = GCounter::new();
    c.increment(1, 4);
    c.increment(2, 6);
    let before = c.value();
    c.increment(2, 5);
    assert_eq!(c.value(), before + 5);
}
