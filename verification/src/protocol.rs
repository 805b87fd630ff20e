//! # Wire protocol
//!
//! Messages exchanged between the frontend and the server.

use vstd::prelude::*;

verus! {

/// A message from the server to a client.
#[derive(Debug, Clone)]
pub enum ServerMessage {
    /// The full state as this replica sees it.
    Snapshot { local_peer_id: String, peers: Vec<PeerSnapshot> },
}

/// What one peer holds.
#[derive(Debug, Clone)]
pub struct PeerSnapshot {
    pub id: String,
    pub name: String,
    pub online: bool,
    /// The peer's clock: pairs of peer id and counter.
    pub clock: Vec<(String, u64)>,
    pub todos: Vec<TodoItem>,
}

/// One todo as a client sees it.
#[derive(Debug, Clone)]
pub struct TodoItem {
    pub id: String,
    pub text: String,
    pub completed: bool,
    pub created_by: String,
}

/// A request from a client.
#[derive(Debug, Clone)]
pub enum ClientMessage {
    /// Add a todo with this text.
    Add { text: String },
    /// Flip the completion of the todo with this id.
    Toggle { id: String },
    /// Delete the todo with this id.
    Delete { id: String },
    /// Ask for a fresh snapshot; changes nothing.
    Resync,
}

} // verus!
