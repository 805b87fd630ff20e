use crdt::config::{peer_entries, replica_id_from_peer_id, sync_port_for};

#[test]
fn replica_id_reads_digits_of_peer_id() {
    assert_eq!(replica_id_from_peer_id("peer-1"), 1);
    assert_eq!(replica_id_from_peer_id("peer-12"), 12);
    assert_eq!(replica_id_from_peer_id("p3er-4"), 34);
    assert_eq!(replica_id_from_peer_id("n0de"), 0);
}

#[test]
fn replica_id_defaults_to_one() {
    assert_eq!(replica_id_from_peer_id("peer"), 1);
    assert_eq!(replica_id_from_peer_id(""), 1);
    assert_eq!(replica_id_from_peer_id("peer-99999999999999999999"), 1);
}

#[test]
fn replica_id_at_u64_limit() {
    assert_eq!(replica_id_from_peer_id("x18446744073709551615"), u64::MAX);
    assert_eq!(replica_id_from_peer_id("x18446744073709551616"), 1);
}

#[test]
fn sync_port_defaults_to_http_port_plus_1000() {
    assert_eq!(sync_port_for(8080, None), 9080);
    assert_eq!(sync_port_for(8080, Some(7000)), 7000);
    assert_eq!(sync_port_for(65000, Some(9000)), 9000);
}

#[test]
fn peer_entries_split_trim_and_drop_blanks() {
    assert_eq!(
        peer_entries(" 127.0.0.1:9081, ,127.0.0.1:9082 "),
        vec!["127.0.0.1:9081".to_string(), "127.0.0.1:9082".to_string()]
    );
    assert_eq!(peer_entries(""), Vec::<String>::new());
    assert_eq!(peer_entries(",,"), Vec::<String>::new());
    assert_eq!(peer_entries("a"), vec!["a".to_string()]);
}
