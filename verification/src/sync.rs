//! # Peer-to-peer synchronization decisions
//!
//! Peers exchange whole states of a convergent replicated data type. A
//! connection opens with a greeting; every state that arrives is merged into
//! the local one. An outgoing connection pushes the local state whenever it
//! changes and on every anti-entropy tick, so replicas that missed a push
//! still converge. A connector whose connection fails or ends waits a short
//! delay and connects again, for as long as the node runs; a listener whose
//! accept fails waits briefly and accepts again.

use vstd::prelude::*;
use crate::traits::CvRDT;

verus! {

/// Messages exchanged between peers over a sync connection.
#[derive(Debug, Clone)]
pub enum SyncMessage<S> {
    /// Identifies the sending peer when a connection opens.
    Hello { peer_id: String },
    /// A full state snapshot to be merged on receipt.
    State(S),
}

/// Handle a message that arrived on a sync connection: a greeting changes
/// nothing; a state is merged into `local`. Returns whether a merge
/// happened, which is when listeners of remote updates are told.
pub fn receive<S: CvRDT>(local: &mut S, msg: SyncMessage<S>) -> (merged: bool)
    ensures
        match msg {
            SyncMessage::Hello { .. } => !merged && final(local)@ == old(local)@,
            SyncMessage::State(remote) => merged && final(local)@ == S::join(
                old(local)@,
                remote@,
            ),
        },
{
    match msg {
        SyncMessage::Hello { .. } => false,
        SyncMessage::State(remote) => {
            local.merge(&remote);
            true
        },
    }
}

/// How long an outgoing connection waits between anti-entropy pushes, in
/// milliseconds.
pub const ANTI_ENTROPY_INTERVAL_MS: u64 = 5000;

/// How long a connector waits after a failed or ended connection before it
/// connects again, in milliseconds.
pub const RECONNECT_DELAY_MS: u64 = 2000;

/// How long the listener waits after a failed accept, in milliseconds.
pub const ACCEPT_RETRY_DELAY_MS: u64 = 250;

/// What wakes an outgoing sync connection.
#[derive(Debug, Clone, Copy, PartialEq, Eq, Structural)]
pub enum OutgoingEvent {
    /// The local state changed.
    LocalChange,
    /// The feed of local changes closed or fell behind.
    ChangeFeedClosed,
    /// `ANTI_ENTROPY_INTERVAL_MS` elapsed since the last tick.
    AntiEntropyTick,
}

/// What an outgoing sync connection does next.
#[derive(Debug, Clone, Copy, PartialEq, Eq, Structural)]
pub enum OutgoingAction {
    /// Send the current local state to the peer.
    PushState,
    /// End the connection.
    Stop,
}

/// The outgoing connection's response to `event`: push the state on a
/// change or a tick; stop when the change feed is gone.
pub fn next_outgoing_action(event: OutgoingEvent) -> (a: OutgoingAction)
    ensures
        a == match event {
            OutgoingEvent::ChangeFeedClosed => OutgoingAction::Stop,
            _ => OutgoingAction::PushState,
        },
{
    match event {
        OutgoingEvent::ChangeFeedClosed => OutgoingAction::Stop,
        OutgoingEvent::LocalChange => OutgoingAction::PushState,
        OutgoingEvent::AntiEntropyTick => OutgoingAction::PushState,
    }
}

/// What happens to a connector that keeps a link to one peer.
#[derive(Debug, Clone, Copy, PartialEq, Eq, Structural)]
pub enum LinkEvent {
    /// A connection attempt succeeded.
    Connected,
    /// A connection attempt failed.
    ConnectFailed,
    /// A connection that was driven ended, in error or not.
    ConnectionEnded,
    /// A wait that the connector began is over.
    DelayElapsed,
}

/// What a connector does next.
#[derive(Debug, Clone, Copy, PartialEq, Eq, Structural)]
pub enum LinkAction {
    /// Drive the open connection: greet, push the state, then push on
    /// changes and ticks.
    Drive,
    /// Wait this many milliseconds.
    WaitMs(u64),
    /// Try to connect to the peer.
    Connect,
}

/// The connector's response to `e`: drive a connection that opened, wait
/// the reconnect delay after one that failed or ended, and connect again
/// once the wait is over.
pub open spec fn link_response(e: LinkEvent) -> LinkAction {
    match e {
        LinkEvent::Connected => LinkAction::Drive,
        LinkEvent::ConnectFailed => LinkAction::WaitMs(RECONNECT_DELAY_MS),
        LinkEvent::ConnectionEnded => LinkAction::WaitMs(RECONNECT_DELAY_MS),
        LinkEvent::DelayElapsed => LinkAction::Connect,
    }
}

/// The connector's next step after `e`.
pub fn next_link_action(e: LinkEvent) -> (a: LinkAction)
    ensures
        a == link_response(e),
{
    match e {
        LinkEvent::Connected => LinkAction::Drive,
        LinkEvent::ConnectFailed => LinkAction::WaitMs(RECONNECT_DELAY_MS),
        LinkEvent::ConnectionEnded => LinkAction::WaitMs(RECONNECT_DELAY_MS),
        LinkEvent::DelayElapsed => LinkAction::Connect,
    }
}

/// Event `e` is one that can come of doing `a`: a connection attempt
/// succeeds or fails, a driven connection ends, a wait elapses.
pub open spec fn may_follow(a: LinkAction, e: LinkEvent) -> bool {
    match a {
        LinkAction::Connect => e is Connected || e is ConnectFailed,
        LinkAction::Drive => e is ConnectionEnded,
        LinkAction::WaitMs(_) => e is DelayElapsed,
    }
}

/// `events` is what a connector can see when it starts by connecting and
/// then acts on each event with `next_link_action`.
pub open spec fn is_link_run(events: Seq<LinkEvent>) -> bool {
    &&& events.len() > 0 ==> may_follow(LinkAction::Connect, events[0])
    &&& forall|i: int|
        0 <= i < events.len() - 1 ==> may_follow(link_response(#[trigger] events[i]), events[i + 1])
}

/// A connector never gives up: in every run, a connection that failed or
/// ended is followed by a wait of the reconnect delay, the wait by a new
/// connection attempt, and that attempt by its outcome.
pub proof fn lemma_link_never_gives_up(events: Seq<LinkEvent>, i: int)
    requires
        is_link_run(events),
        0 <= i < events.len(),
        events[i] is ConnectFailed || events[i] is ConnectionEnded,
    ensures
        link_response(events[i]) == LinkAction::WaitMs(RECONNECT_DELAY_MS),
        i + 1 < events.len() ==> events[i + 1] is DelayElapsed && link_response(events[i + 1])
            == LinkAction::Connect,
        i + 2 < events.len() ==> events[i + 2] is Connected || events[i + 2] is ConnectFailed,
{
    if i + 1 < events.len() {
        assert(may_follow(link_response(events[i]), events[i + 1]));
    }
    if i + 2 < events.len() {
        assert(may_follow(link_response(events[i + 1]), events[i + 2]));
    }
}

/// How a listener's accept came out.
#[derive(Debug, Clone, Copy, PartialEq, Eq, Structural)]
pub enum AcceptOutcome {
    /// A peer connected.
    Accepted,
    /// Accepting failed.
    Failed,
}

/// What the listener does next.
#[derive(Debug, Clone, Copy, PartialEq, Eq, Structural)]
pub enum ListenerAction {
    /// Serve the accepted connection, then accept again.
    Serve,
    /// Wait this many milliseconds, then accept again.
    WaitMs(u64),
}

/// The listener's next step: serve an accepted connection; after a failed
/// accept, wait `ACCEPT_RETRY_DELAY_MS`. Either way it goes on accepting.
pub fn next_listener_action(o: AcceptOutcome) -> (a: ListenerAction)
    ensures
        a == match o {
            AcceptOutcome::Accepted => ListenerAction::Serve,
            AcceptOutcome::Failed => ListenerAction::WaitMs(ACCEPT_RETRY_DELAY_MS),
        },
{
    match o {
        AcceptOutcome::Accepted => ListenerAction::Serve,
        AcceptOutcome::Failed => ListenerAction::WaitMs(ACCEPT_RETRY_DELAY_MS),
    }
}

} // verus!
