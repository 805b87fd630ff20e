//! # PN-Counter (positive-negative counter)
//!
//! A counter that supports both increments and decrements, built from two
//! grow-only counters: one for the increments and one for the decrements.
//! Its value is the difference of the two.

use vstd::prelude::*;
use crate::counter::{
    GCounter, counter_join, total, lemma_counter_merge_associative,
    lemma_counter_merge_commutative, lemma_counter_merge_idempotent, lemma_increment_adds,
};
use crate::replica_map::count_at;
use crate::traits::CvRDT;

verus! {

/// Merging the counter pair `b` into the counter pair `a`, side by side.
pub open spec fn pn_join(
    a: (Map<u64, u64>, Map<u64, u64>),
    b: (Map<u64, u64>, Map<u64, u64>),
) -> (Map<u64, u64>, Map<u64, u64>) {
    (counter_join(a.0, b.0), counter_join(a.1, b.1))
}

/// The value of a counter pair: the increments minus the decrements.
pub open spec fn pn_value(a: (Map<u64, u64>, Map<u64, u64>)) -> int {
    total(a.0) - total(a.1)
}

/// A counter that can go up and down. Its view is the pair of per-replica
/// increment counts and per-replica decrement counts.
#[derive(Debug, PartialEq, Eq)]
pub struct PNCounter {
    increments: GCounter,
    decrements: GCounter,
}

impl View for PNCounter {
    type V = (Map<u64, u64>, Map<u64, u64>);

    closed spec fn view(&self) -> (Map<u64, u64>, Map<u64, u64>) {
        (self.increments@, self.decrements@)
    }
}

impl Clone for PNCounter {
    fn clone(&self) -> (c: Self)
        ensures
            c@ == self@,
    {
        PNCounter { increments: self.increments.clone(), decrements: self.decrements.clone() }
    }
}

impl Default for PNCounter {
    fn default() -> (c: Self)
        ensures
            c@ == (Map::<u64, u64>::empty(), Map::<u64, u64>::empty()),
    {
        PNCounter { increments: GCounter::new(), decrements: GCounter::new() }
    }
}

impl PNCounter {
    /// A new counter with value zero.
    pub fn new() -> (c: Self)
        ensures
            c@ == (Map::<u64, u64>::empty(), Map::<u64, u64>::empty()),
    {
        Self::default()
    }

    /// Every counter holds entries for finitely many replicas.
    pub proof fn lemma_finite(&self)
        ensures
            self@.0.dom().finite(),
            self@.1.dom().finite(),
    {
        self.increments.lemma_finite();
        self.decrements.lemma_finite();
    }

    /// Add `n` to `replica`'s increments; the value rises by exactly `n`.
    pub fn increment(&mut self, replica: u64, n: u64)
        requires
            count_at(old(self)@.0, replica) + n <= u64::MAX,
        ensures
            final(self)@ == (
                old(self)@.0.insert(replica, (count_at(old(self)@.0, replica) + n) as u64),
                old(self)@.1,
            ),
            pn_value(final(self)@) == pn_value(old(self)@) + n,
    {
        self.increments.increment(replica, n);
    }

    /// Add `n` to `replica`'s decrements; the value falls by exactly `n`.
    pub fn decrement(&mut self, replica: u64, n: u64)
        requires
            count_at(old(self)@.1, replica) + n <= u64::MAX,
        ensures
            final(self)@ == (
                old(self)@.0,
                old(self)@.1.insert(replica, (count_at(old(self)@.1, replica) + n) as u64),
            ),
            pn_value(final(self)@) == pn_value(old(self)@) - n,
    {
        self.decrements.increment(replica, n);
    }

    /// The current value: all increments minus all decrements.
    pub fn value(&self) -> (v: i128)
        requires
            total(self@.0) <= u64::MAX,
            total(self@.1) <= u64::MAX,
        ensures
            v == pn_value(self@),
    {
        self.increments.value() as i128 - self.decrements.value() as i128
    }
}

impl CvRDT for PNCounter {
    open spec fn join(
        a: (Map<u64, u64>, Map<u64, u64>),
        b: (Map<u64, u64>, Map<u64, u64>),
    ) -> (Map<u64, u64>, Map<u64, u64>) {
        pn_join(a, b)
    }

    /// Merge both underlying counters.
    fn merge(&mut self, other: &Self) {
        self.increments.merge(&other.increments);
        self.decrements.merge(&other.decrements);
    }
}

/// Merging a counter with itself leaves it as it is.
pub proof fn lemma_pn_merge_idempotent(a: (Map<u64, u64>, Map<u64, u64>))
    ensures
        pn_join(a, a) == a,
{
    lemma_counter_merge_idempotent(a.0);
    lemma_counter_merge_idempotent(a.1);
}

/// Merging counters is commutative.
pub proof fn lemma_pn_merge_commutative(
    a: (Map<u64, u64>, Map<u64, u64>),
    b: (Map<u64, u64>, Map<u64, u64>),
)
    ensures
        pn_join(a, b) == pn_join(b, a),
{
    lemma_counter_merge_commutative(a.0, b.0);
    lemma_counter_merge_commutative(a.1, b.1);
}

/// Merging counters is associative.
pub proof fn lemma_pn_merge_associative(
    a: (Map<u64, u64>, Map<u64, u64>),
    b: (Map<u64, u64>, Map<u64, u64>),
    c: (Map<u64, u64>, Map<u64, u64>),
)
    ensures
        pn_join(pn_join(a, b), c) == pn_join(a, pn_join(b, c)),
{
    lemma_counter_merge_associative(a.0, b.0, c.0);
    lemma_counter_merge_associative(a.1, b.1, c.1);
}

/// Incrementing by `n` raises the value by `n`; decrementing by `n` lowers
/// it by `n`.
pub proof fn lemma_pn_steps(a: (Map<u64, u64>, Map<u64, u64>), r: u64, n: u64)
    requires
        a.0.dom().finite(),
        a.1.dom().finite(),
    ensures
        count_at(a.0, r) + n <= u64::MAX ==> pn_value(
            (a.0.insert(r, (count_at(a.0, r) + n) as u64), a.1),
        ) == pn_value(a) + n,
        count_at(a.1, r) + n <= u64::MAX ==> pn_value(
            (a.0, a.1.insert(r, (count_at(a.1, r) + n) as u64)),
        ) == pn_value(a) - n,
{
    if count_at(a.0, r) + n <= u64::MAX {
        lemma_increment_adds(a.0, r, n);
    }
    if count_at(a.1, r) + n <= u64::MAX {
        lemma_increment_adds(a.1, r, n);
    }
}

} // verus!
