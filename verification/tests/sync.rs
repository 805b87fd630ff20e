use crdt::counter::GCounter;
use crdt::sync::{
    next_link_action, next_listener_action, next_outgoing_action, receive, AcceptOutcome,
    LinkAction, LinkEvent, ListenerAction, OutgoingAction, OutgoingEvent, SyncMessage,
    ACCEPT_RETRY_DELAY_MS, ANTI_ENTROPY_INTERVAL_MS, RECONNECT_DELAY_MS,
};

#[test]
fn sync_hello_changes_nothing() {
    let mut local = GCounter::new();
    local.increment(1, 2);
    let before = local.clone();
    let merged = receive(&mut local, SyncMessage::Hello { peer_id: "peer-2".to_string() });
    assert!(!merged);
    assert_eq!(local, before);
}

#[test]
fn sync_state_is_merged() {
    let mut local = GCounter::new();
    local.increment(1, 2);
    let mut remote = GCounter::new();
    remote.increment(2, 5);
    let merged = receive(&mut local, SyncMessage::State(remote));
    assert!(merged);
    assert_eq!(local.value(), 7);
}

#[test]
fn sync_outgoing_actions() {
    assert_eq!(next_outgoing_action(OutgoingEvent::LocalChange), OutgoingAction::PushState);
    assert_eq!(next_outgoing_action(OutgoingEvent::AntiEntropyTick), OutgoingAction::PushState);
    assert_eq!(next_outgoing_action(OutgoingEvent::ChangeFeedClosed), OutgoingAction::Stop);
}

#[test]
fn link_drives_an_open_connection() {
    assert_eq!(next_link_action(LinkEvent::Connected), LinkAction::Drive);
}

#[test]
fn link_waits_then_reconnects_after_failure() {
    assert_eq!(next_link_action(LinkEvent::ConnectFailed), LinkAction::WaitMs(2000));
    assert_eq!(next_link_action(LinkEvent::ConnectionEnded), LinkAction::WaitMs(RECONNECT_DELAY_MS));
    assert_eq!(next_link_action(LinkEvent::DelayElapsed), LinkAction::Connect);
}

#[test]
fn link_run_keeps_reconnecting() {
    // A failed attempt, then a connection that opens and later ends.
    let events = [
        LinkEvent::ConnectFailed,
        LinkEvent::DelayElapsed,
        LinkEvent::Connected,
        LinkEvent::ConnectionEnded,
        LinkEvent::DelayElapsed,
    ];
    let actions: Vec<LinkAction> = events.iter().map(|e| next_link_action(*e)).collect();
    assert_eq!(
        actions,
        vec![
            LinkAction::WaitMs(2000),
            LinkAction::Connect,
            LinkAction::Drive,
            LinkAction::WaitMs(2000),
            LinkAction::Connect,
        ]
    );
}

#[test]
fn sync_periods() {
    assert_eq!(ANTI_ENTROPY_INTERVAL_MS, 5000);
    assert_eq!(RECONNECT_DELAY_MS, 2000);
    assert_eq!(ACCEPT_RETRY_DELAY_MS, 250);
}

#[test]
fn listener_serves_or_waits() {
    assert_eq!(next_listener_action(AcceptOutcome::Accepted), ListenerAction::Serve);
    assert_eq!(next_listener_action(AcceptOutcome::Failed), ListenerAction::WaitMs(250));
}
