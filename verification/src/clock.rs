//! Identifiers for replicas and the events they produce.

use vstd::prelude::*;

verus! {

/// Identifier for a replica in the distributed system.
pub type ReplicaId = u64;

/// A single event in a replica's history: the replica that produced it and
/// its replica-local sequence number.
#[derive(Debug, Clone, Copy, PartialEq, Eq, Structural, Hash, PartialOrd, Ord)]
pub struct Dot {
    /// Replica-local sequence number for the event.
    pub counter: u64,
    /// The replica that produced the event.
    pub replica: ReplicaId,
}

impl Dot {
    /// Create a new dot for `replica` at sequence number `counter`.
    pub fn new(replica: ReplicaId, counter: u64) -> (d: Self)
        ensures
            d.replica == replica,
            d.counter == counter,
    {
        Self { counter, replica }
    }
}

} // verus!
