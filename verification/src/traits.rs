//! # CRDT traits
//!
//! Shared abstractions over the different CRDT flavours of this crate.

use vstd::prelude::*;

verus! {

/// A convergent (state-based) replicated data type: replicas exchange whole
/// states and combine them with `merge`.
pub trait CvRDT: View + Sized {
    /// The state that merging a state viewed as `b` into one viewed as `a`
    /// produces, as a view.
    spec fn join(a: Self::V, b: Self::V) -> Self::V;

    /// Merge `other` into `self`, taking the least upper bound of the two
    /// states.
    fn merge(&mut self, other: &Self)
        ensures
            final(self)@ == Self::join(old(self)@, other@),
    ;
}

} // verus!
