use crdt::g_set::GSet;
use crdt::traits::CvRDT;

#[test]
fn empty_set_is_empty() {
    let s: GSet<u32> = GSet::new();
    assert!(s.is_empty());
    assert_eq!(s.len(), 0);
}

#[test]
fn insert_adds_element() {
    let mut s = GSet::new();
    assert!(s.insert(1));
    assert!(s.contains(&1));
    assert_eq!(s.len(), 1);
}

#[test]
fn reinsert_returns_false_and_does_not_grow() {
    let mut s = GSet::new();
    assert!(s.insert(1));
    assert!(!s.insert(1));
    assert_eq!(s.len(), 1);
}

#[test]
fn merge_combines_elements() {
    let mut a = GSet::new();
    a.insert(1);
    a.insert(2);
    let mut b = GSet::new();
    b.insert(2);
    b.insert(3);
    a.merge(&b);
    assert_eq!(a.len(), 3);
    assert!(a.contains(&1));
    assert!(a.contains(&2));
    assert!(a.contains(&3));
}

#[test]
fn merge_with_self_is_noop() {
    let mut a = GSet::new();
    a.insert(1);
    a.insert(2);
    let snapshot = a.clone();
    a.merge(&snapshot);
    assert_eq!(a, snapshot);
}

#[test]
fn supports_string_elements() {
    let mut a: GSet<String> = GSet::new();
    a.insert("hello".to_string());
    let mut b: GSet<String> = GSet::new();
    b.insert("world".to_string());
    a.merge(&b);
    assert_eq!(a.len(), 2);
}

#[test]
fn set_merge_is_commutative_as_sets() {
    let mut a: GSet<u32> = GSet::new();
    a.insert(1);
    a.insert(2);
    let mut b: GSet<u32> = GSet::new();
    b.insert(3);
    b.insert(2);
    let mut ab = a.clone();
    ab.merge(&b);
    let mut ba = b.clone();
    ba.merge(&a);
    assert_eq!(ab, ba);
    assert_eq!(ab.len(), 3);
}

#[test]
fn set_equality_ignores_insertion_order() {
    let mut a: GSet<u64> = GSet::new();
    a.insert(5);
    a.insert(7);
    let mut b: GSet<u64> = GSet::new();
    b.insert(7);
    b.insert(5);
    assert_eq!(a, b);
    b.insert(9);
    assert_ne!(a, b);
}

#[test]
fn set_iter_lists_each_element_once() {
    let mut a: GSet<u32> = GSet::new();
    a.insert(4);
    a.insert(8);
    a.insert(4);
    let mut seen: Vec<u32> = a.iter().copied().collect();
    seen.sort();
    assert_eq!(seen, vec![4, 8]);
}

#[test]
fn set_merge_is_associative_on_strings() {
    let mut a: GSet<String> = GSet::new();
    a.insert("x".to_string());
    let mut b: GSet<String> = GSet::new();
    b.insert("y".to_string());
    let mut c: GSet<String> = GSet::new();
    c.insert("x".to_string());
    c.insert("z".to_string());
    let mut ab_c = a.clone();
    ab_c.merge(&b);
    ab_c.merge(&c);
    let mut bc = b.clone();
    bc.merge(&c);
    let mut a_bc = a.clone();
    a_bc.merge(&bc);
    assert_eq!(ab_c, a_bc);
    assert_eq!(ab_c.len(), 3);
}

#[test]
fn set_insert_grows_only_for_new_elements() {
    let mut s: GSet<u64> = GSet::new();
    assert!(s.insert(4));
    assert!(s.insert(9));
    assert!(!s.insert(4));
    assert_eq!(s.len(), 2);
}
