use crdt::protocol::ClientMessage;
use crdt::session::{next_socket_action, SocketAction, SocketEvent};

#[test]
fn session_applies_a_request() {
    let ev = SocketEvent::Text(Some(ClientMessage::Add { text: "Milk".to_string() }));
    match next_socket_action(ev) {
        SocketAction::Apply(ClientMessage::Add { text }) => assert_eq!(text, "Milk"),
        other => panic!("unexpected action {:?}", other),
    }
}

#[test]
fn session_ignores_malformed_text_and_other_frames() {
    assert!(matches!(next_socket_action(SocketEvent::Text(None)), SocketAction::Ignore));
    assert!(matches!(next_socket_action(SocketEvent::Other), SocketAction::Ignore));
}

#[test]
fn session_stops_on_close_or_failed_send() {
    assert!(matches!(next_socket_action(SocketEvent::Close), SocketAction::Stop));
    assert!(matches!(next_socket_action(SocketEvent::SendFailed), SocketAction::Stop));
}
