use crdt::clock::Dot;
use crdt::text::{peer_name, str_less, todo_id, trimmed_text};

#[test]
fn text_trimming() {
    assert_eq!(trimmed_text("  hi there \n"), Some("hi there".to_string()));
    assert_eq!(trimmed_text(" \t\n "), None);
    assert_eq!(trimmed_text(""), None);
    assert_eq!(trimmed_text("\u{3000}x\u{a0}"), Some("x".to_string()));
    assert_eq!(trimmed_text("a b"), Some("a b".to_string()));
    assert_eq!(trimmed_text("\u{200b}x"), Some("\u{200b}x".to_string()));
}

#[test]
fn text_ids_and_names() {
    assert_eq!(todo_id(&"peer-1".to_string(), 42), "peer-1-42");
    assert_eq!(todo_id(&"p".to_string(), 0), "p-0");
    assert_eq!(todo_id(&"p".to_string(), 10), "p-10");
    assert_eq!(todo_id(&"p".to_string(), u64::MAX), "p-18446744073709551615");
    assert_eq!(peer_name(&"peer-2".to_string()), "Peer peer-2");
}

#[test]
fn text_byte_order() {
    let a = "p-10".to_string();
    let b = "p-2".to_string();
    assert!(str_less(&a, &b));
    assert!(!str_less(&b, &a));
    assert!(!str_less(&a, &a));
    assert!(str_less(&"ab".to_string(), &"abc".to_string()));
    assert!(str_less(&"Z".to_string(), &"a".to_string()));
    assert!(str_less(&"z".to_string(), &"\u{e9}".to_string()));
}

#[test]
fn dot_new_sets_fields() {
    let d = Dot::new(3, 9);
    assert_eq!(d.replica, 3);
    assert_eq!(d.counter, 9);
    assert!(Dot::new(1, 1) < Dot::new(1, 2));
}
