//! # A client's WebSocket session
//!
//! The decisions a session makes on what happens on its socket: a text
//! frame that holds a request is applied; text that is not a request, and
//! frames of other kinds, are ignored; the session ends when the client
//! closes the socket or a send to it fails.

use vstd::prelude::*;
use crate::protocol::ClientMessage;

verus! {

/// What happens on a client's socket.
#[derive(Debug, Clone)]
pub enum SocketEvent {
    /// A text frame arrived: the request it holds, or `None` when it holds
    /// none.
    Text(Option<ClientMessage>),
    /// The client closed the socket, or its stream ended.
    Close,
    /// A frame of another kind arrived.
    Other,
    /// Sending to the client failed.
    SendFailed,
}

/// What the session does next.
#[derive(Debug, Clone)]
pub enum SocketAction {
    /// Apply the request to the local state and broadcast the new snapshot.
    Apply(ClientMessage),
    /// Do nothing and wait for the next frame.
    Ignore,
    /// End the session.
    Stop,
}

/// The session's response to `ev`.
pub fn next_socket_action(ev: SocketEvent) -> (a: SocketAction)
    ensures
        a == match ev {
            SocketEvent::Text(Some(m)) => SocketAction::Apply(m),
            SocketEvent::Text(None) => SocketAction::Ignore,
            SocketEvent::Other => SocketAction::Ignore,
            SocketEvent::Close => SocketAction::Stop,
            SocketEvent::SendFailed => SocketAction::Stop,
        },
{
    match ev {
        SocketEvent::Text(Some(m)) => SocketAction::Apply(m),
        SocketEvent::Text(None) => SocketAction::Ignore,
        SocketEvent::Other => SocketAction::Ignore,
        SocketEvent::Close => SocketAction::Stop,
        SocketEvent::SendFailed => SocketAction::Stop,
    }
}

} // verus!
