use crdt::protocol::{ClientMessage, PeerSnapshot, ServerMessage};
use crdt::state::TodoState;
use crdt::traits::CvRDT;

fn peers(state: &TodoState) -> Vec<PeerSnapshot> {
    let ServerMessage::Snapshot { peers, .. } = state.snapshot();
    peers
}

#[test]
fn add_creates_todo() {
    let mut s = TodoState::new("peer-1".into(), 1);
    s.add("Buy milk");
    let p = peers(&s);
    assert_eq!(p[0].todos.len(), 1);
    assert_eq!(p[0].todos[0].text, "Buy milk");
    assert!(!p[0].todos[0].completed);
}

#[test]
fn empty_add_is_ignored() {
    let mut s = TodoState::new("peer-1".into(), 1);
    s.add("   ");
    assert_eq!(peers(&s)[0].todos.len(), 0);
}

#[test]
fn toggle_flips_completion() {
    let mut s = TodoState::new("peer-1".into(), 1);
    s.add("Walk dog");
    let id = peers(&s)[0].todos[0].id.clone();

    s.toggle(&id);
    assert!(peers(&s)[0].todos[0].completed);

    s.toggle(&id);
    assert!(!peers(&s)[0].todos[0].completed);
}

#[test]
fn delete_removes_todo_from_snapshot() {
    let mut s = TodoState::new("peer-1".into(), 1);
    s.add("Temporary");
    let id = peers(&s)[0].todos[0].id.clone();
    s.delete(&id);
    assert_eq!(peers(&s)[0].todos.len(), 0);
}

#[test]
fn merge_combines_additions_from_two_replicas() {
    let mut a = TodoState::new("peer-a".into(), 1);
    let mut b = TodoState::new("peer-b".into(), 2);
    a.add("From A");
    b.add("From B");
    a.merge(&b);
    b.merge(&a);
    assert_eq!(peers(&a)[0].todos.len(), 2);
    assert_eq!(peers(&b)[0].todos.len(), 2);
}

#[test]
fn merge_propagates_deletion() {
    let mut a = TodoState::new("peer-a".into(), 1);
    let mut b = TodoState::new("peer-b".into(), 2);
    a.add("Doomed");
    let id = peers(&a)[0].todos[0].id.clone();
    b.merge(&a);
    assert_eq!(peers(&b)[0].todos.len(), 1);
    a.delete(&id);
    b.merge(&a);
    assert_eq!(peers(&b)[0].todos.len(), 0);
}

#[test]
fn todo_snapshot_shape() {
    let mut s = TodoState::new("peer-7".into(), 7);
    s.add("  Second  ");
    s.add("Third");
    let ServerMessage::Snapshot { local_peer_id, peers } = s.snapshot();
    assert_eq!(local_peer_id, "peer-7");
    assert_eq!(peers.len(), 1);
    assert_eq!(peers[0].id, "peer-7");
    assert_eq!(peers[0].name, "Peer peer-7");
    assert!(peers[0].online);
    assert_eq!(peers[0].clock, vec![("peer-7".to_string(), 2u64)]);
    assert_eq!(peers[0].todos.len(), 2);
    assert_eq!(peers[0].todos[0].id, "peer-7-1");
    assert_eq!(peers[0].todos[0].text, "Second");
    assert_eq!(peers[0].todos[0].created_by, "peer-7");
    assert_eq!(peers[0].todos[1].id, "peer-7-2");
    assert_eq!(peers[0].todos[1].text, "Third");
}

#[test]
fn todo_snapshot_sorts_ids_by_bytes() {
    let mut s = TodoState::new("p".into(), 1);
    for i in 0..10 {
        s.add(&format!("item {}", i));
    }
    let p = peers(&s);
    let ids: Vec<String> = p[0].todos.iter().map(|t| t.id.clone()).collect();
    let mut sorted = ids.clone();
    sorted.sort();
    assert_eq!(ids, sorted);
    assert_eq!(ids[0], "p-1");
    assert_eq!(ids[1], "p-10");
    assert_eq!(ids[2], "p-2");
}

#[test]
fn todo_toggle_and_delete_of_unknown_id_change_nothing() {
    let mut s = TodoState::new("peer-1".into(), 1);
    s.add("Keep");
    s.toggle("peer-9-9");
    s.delete("peer-9-9");
    let p = peers(&s);
    assert_eq!(p[0].clock[0].1, 1);
    assert_eq!(p[0].todos.len(), 1);
    assert!(!p[0].todos[0].completed);
}

#[test]
fn todo_toggle_of_deleted_changes_nothing() {
    let mut s = TodoState::new("peer-1".into(), 1);
    s.add("Gone");
    let id = peers(&s)[0].todos[0].id.clone();
    s.delete(&id);
    s.toggle(&id);
    assert_eq!(peers(&s)[0].clock[0].1, 2);
}

#[test]
fn todo_apply_dispatches() {
    let mut s = TodoState::new("peer-1".into(), 1);
    s.apply(&ClientMessage::Add { text: "Via message".to_string() });
    let id = peers(&s)[0].todos[0].id.clone();
    s.apply(&ClientMessage::Toggle { id: id.clone() });
    assert!(peers(&s)[0].todos[0].completed);
    s.apply(&ClientMessage::Resync);
    assert_eq!(peers(&s)[0].todos.len(), 1);
    s.apply(&ClientMessage::Delete { id });
    assert_eq!(peers(&s)[0].todos.len(), 0);
}

#[test]
fn todo_completion_merges_as_or() {
    let mut a = TodoState::new("peer-a".into(), 1);
    a.add("Shared");
    let id = peers(&a)[0].todos[0].id.clone();
    let mut b = TodoState::new("peer-b".into(), 2);
    b.merge(&a);
    b.toggle(&id);
    a.merge(&b);
    assert!(peers(&a)[0].todos[0].completed);
    a.toggle(&id);
    assert!(!peers(&a)[0].todos[0].completed);
    a.merge(&b);
    assert!(peers(&a)[0].todos[0].completed);
}

#[test]
fn todo_merge_is_idempotent_on_snapshot() {
    let mut a = TodoState::new("peer-a".into(), 1);
    a.add("One");
    a.add("Two");
    let before = peers(&a);
    let copy = a.clone();
    a.merge(&copy);
    let after = peers(&a);
    assert_eq!(before[0].todos.len(), after[0].todos.len());
    assert_eq!(before[0].clock, after[0].clock);
}

#[test]
fn todo_default_is_fresh() {
    let s = TodoState::default();
    let p = peers(&s);
    assert_eq!(p[0].id, "");
    assert_eq!(p[0].todos.len(), 0);
}

#[test]
fn todo_replicas_converge_to_same_listing() {
    let mut a = TodoState::new("peer-a".into(), 1);
    let mut b = TodoState::new("peer-b".into(), 2);
    a.add("A1");
    b.add("B1");
    b.add("B2");
    let a_id = peers(&a)[0].todos[0].id.clone();
    b.merge(&a);
    b.toggle(&a_id);
    a.merge(&b);
    b.merge(&a);
    let pa = peers(&a);
    let pb = peers(&b);
    let la: Vec<(String, String, bool, String)> = pa[0]
        .todos
        .iter()
        .map(|t| (t.id.clone(), t.text.clone(), t.completed, t.created_by.clone()))
        .collect();
    let lb: Vec<(String, String, bool, String)> = pb[0]
        .todos
        .iter()
        .map(|t| (t.id.clone(), t.text.clone(), t.completed, t.created_by.clone()))
        .collect();
    assert_eq!(la, lb);
    assert_eq!(la.len(), 3);
    assert!(la[0].2);
    assert_eq!(la[0].3, "peer-a");
}

#[test]
fn todo_replicated_round_trip() {
    let mut a = TodoState::new("peer-a".into(), 3);
    a.add("One");
    a.add("Two");
    let id = peers(&a)[0].todos[0].id.clone();
    a.toggle(&id);
    let id2 = peers(&a)[0].todos[1].id.clone();
    a.delete(&id2);
    let parts = a.replicated();
    assert_eq!(parts.added.len(), 2);
    assert_eq!(parts.removed, vec![id2.clone()]);
    assert_eq!(parts.clock, vec![(3u64, 4u64)]);
    let rebuilt = TodoState::from_replicated(&parts);
    let mut b = TodoState::new("peer-b".into(), 4);
    b.merge(&rebuilt);
    let pb = peers(&b);
    assert_eq!(pb[0].todos.len(), 1);
    assert_eq!(pb[0].todos[0].id, id);
    assert!(pb[0].todos[0].completed);
    assert_eq!(pb[0].todos[0].created_by, "peer-a");
}

#[test]
fn todo_can_apply_at_fresh_state() {
    let s = TodoState::new("peer-1".into(), 1);
    assert!(s.can_apply(&ClientMessage::Add { text: "x".to_string() }));
    assert!(s.can_apply(&ClientMessage::Toggle { id: "nope".to_string() }));
    assert!(s.can_apply(&ClientMessage::Resync));
}

#[test]
fn todo_add_after_merge_gets_new_id() {
    let mut a = TodoState::new("peer-a".into(), 1);
    let mut b = TodoState::new("peer-b".into(), 2);
    a.add("From a");
    b.add("From b");
    b.merge(&a);
    b.add("Second from b");
    let p = peers(&b);
    assert_eq!(p[0].todos.len(), 3);
    let ids: Vec<String> = p[0].todos.iter().map(|t| t.id.clone()).collect();
    assert_eq!(ids, vec!["peer-a-1".to_string(), "peer-b-1".to_string(), "peer-b-2".to_string()]);
    assert_eq!(p[0].todos[2].text, "Second from b");
    assert!(!p[0].todos[2].completed);
    assert_eq!(p[0].todos[2].created_by, "peer-b");
}

#[test]
fn todo_received_clock_takes_later_entry() {
    let a = TodoState::new("peer-a".into(), 3);
    let mut parts = a.replicated();
    parts.clock = vec![(3u64, 5u64), (3u64, 2u64)];
    let rebuilt = TodoState::from_replicated(&parts);
    assert_eq!(rebuilt.replicated().clock, vec![(3u64, 2u64)]);
    let mut b = TodoState::new("peer-b".into(), 3);
    b.merge(&rebuilt);
    assert_eq!(peers(&b)[0].clock[0].1, 2);
}
