//! # G-Counter (grow-only counter)
//!
//! A grow-only counter is a state-based (CvRDT) counter that supports only
//! increments. Each replica keeps its own local count, and the global value
//! is the sum of all per-replica counts.
//!
//! Because each replica only writes to its own slot, and merging takes the
//! element-wise maximum, concurrent increments from different replicas
//! always converge without conflicts.

use vstd::prelude::*;
use std::collections::HashMap;
use crate::replica_map::{
    count_at, count_of, max_count, replicas_of,
};
use crate::seq_facts::{lemma_full_prefix, lemma_prefix_set_step};
use crate::traits::CvRDT;

verus! {

/// The sum of all counts in `m`.
pub open spec fn total(m: Map<u64, u64>) -> nat
    decreases m.dom().len(),
{
    if m.dom().finite() && m.dom().len() > 0 {
        let r = m.dom().choose();
        m[r] as nat + total(m.remove(r))
    } else {
        0
    }
}

/// Merging counter `b` into counter `a`: every replica of either gets the
/// larger of its two counts.
pub open spec fn counter_join(a: Map<u64, u64>, b: Map<u64, u64>) -> Map<u64, u64> {
    Map::new(
        |r: u64| a.contains_key(r) || b.contains_key(r),
        |r: u64|
            if a.contains_key(r) && b.contains_key(r) {
                max_count(a[r], b[r])
            } else if a.contains_key(r) {
                a[r]
            } else {
                b[r]
            },
    )
}

/// The total of a finite map is any one of its counts plus the total of
/// the rest.
pub proof fn lemma_total_remove(m: Map<u64, u64>, k: u64)
    requires
        m.dom().finite(),
        m.contains_key(k),
    ensures
        total(m) == m[k] + total(m.remove(k)),
    decreases m.dom().len(),
{
    let r = m.dom().choose();
    if r != k {
        lemma_total_remove(m.remove(r), k);
        lemma_total_remove(m.remove(k), r);
        assert(m.remove(r).remove(k) =~= m.remove(k).remove(r));
    }
}

/// Adding a count for a replica that had none adds that count to the total.
pub proof fn lemma_total_insert_new(m: Map<u64, u64>, k: u64, v: u64)
    requires
        m.dom().finite(),
        !m.contains_key(k),
    ensures
        total(m.insert(k, v)) == total(m) + v,
{
    lemma_total_remove(m.insert(k, v), k);
    assert(m.insert(k, v).remove(k) =~= m);
}

/// Replacing a replica's count changes the total by the difference.
pub proof fn lemma_total_insert(m: Map<u64, u64>, k: u64, v: u64)
    requires
        m.dom().finite(),
    ensures
        total(m.insert(k, v)) + count_at(m, k) == total(m) + v,
{
    if m.contains_key(k) {
        lemma_total_remove(m, k);
        lemma_total_remove(m.insert(k, v), k);
        assert(m.insert(k, v).remove(k) =~= m.remove(k));
    } else {
        lemma_total_insert_new(m, k, v);
    }
}

/// A map that is at or above `a` at every replica has at least `a`'s total.
pub proof fn lemma_total_monotone(a: Map<u64, u64>, c: Map<u64, u64>)
    requires
        a.dom().finite(),
        c.dom().finite(),
        forall|r: u64| #[trigger] count_at(a, r) <= #[trigger] count_at(c, r),
    ensures
        total(a) <= total(c),
    decreases a.dom().len(),
{
    if a.dom().len() > 0 {
        let r = a.dom().choose();
        lemma_total_remove(a, r);
        assert(count_at(a, r) <= count_at(c, r));
        let c2 = c.insert(r, 0);
        lemma_total_insert(c, r, 0);
        assert forall|k: u64| #[trigger] count_at(a.remove(r), k) <= #[trigger] count_at(c2.remove(r), k) by {
            assert(count_at(a, k) <= count_at(c, k));
        }
        lemma_total_remove(c2, r);
        lemma_total_monotone(a.remove(r), c2.remove(r));
    }
}

/// A grow-only counter CRDT: a count per replica, whose value is their sum.
#[derive(Debug, PartialEq, Eq)]
pub struct GCounter {
    counts: HashMap<u64, u64>,
}

impl View for GCounter {
    type V = Map<u64, u64>;

    closed spec fn view(&self) -> Map<u64, u64> {
        self.counts@
    }
}

impl Clone for GCounter {
    fn clone(&self) -> (c: Self)
        ensures
            c@ == self@,
    {
        GCounter { counts: self.counts.clone() }
    }
}

impl Default for GCounter {
    fn default() -> (c: Self)
        ensures
            c@ == Map::<u64, u64>::empty(),
    {
        GCounter { counts: HashMap::new() }
    }
}

impl GCounter {
    /// A new, empty counter with value zero.
    pub fn new() -> (c: Self)
        ensures
            c@ == Map::<u64, u64>::empty(),
    {
        GCounter { counts: HashMap::new() }
    }

    /// Every counter holds entries for finitely many replicas.
    pub proof fn lemma_finite(&self)
        ensures
            self@.dom().finite(),
    {
    }

    /// Add `n` to `replica`'s local count; the replica gets an entry even
    /// when `n` is zero. The counter's value rises by exactly `n`.
    pub fn increment(&mut self, replica: u64, n: u64)
        requires
            count_at(old(self)@, replica) + n <= u64::MAX,
        ensures
            final(self)@ == old(self)@.insert(replica, (count_at(old(self)@, replica) + n) as u64),
            final(self)@.dom().finite(),
            total(final(self)@) == total(old(self)@) + n,
    {
        proof {
            self.lemma_finite();
            lemma_increment_adds(self@, replica, n);
        }
        let cur = count_of(&self.counts, replica);
        self.counts.insert(replica, cur + n);
    }

    /// The current value of the counter: the sum of all per-replica counts.
    pub fn value(&self) -> (v: u64)
        requires
            total(self@) <= u64::MAX,
        ensures
            v == total(self@),
    {
        let ghost m = self@;
        let ks = replicas_of(&self.counts);
        let mut sum: u64 = 0;
        let mut i: usize = 0;
        proof {
            assert(ks@.subrange(0, 0).to_set() =~= Set::<u64>::empty());
            assert(m.remove_keys(Set::<u64>::empty()) =~= m);
        }
        while i < ks.len()
            invariant
                i <= ks@.len(),
                m == self@,
                m.dom().finite(),
                ks@.to_set() == m.dom(),
                ks@.no_duplicates(),
                total(m) <= u64::MAX,
                sum + total(m.remove_keys(ks@.subrange(0, i as int).to_set())) == total(m),
            decreases ks@.len() - i,
        {
            let r = ks[i];
            let c = count_of(&self.counts, r);
            proof {
                let before = m.remove_keys(ks@.subrange(0, i as int).to_set());
                assert(before.dom() =~= m.dom().difference(ks@.subrange(0, i as int).to_set()));
                lemma_prefix_set_step(ks@, i as int);
                assert(ks@.to_set().contains(r));
                assert forall|j: int| 0 <= j < i implies ks@.subrange(0, i as int)[j] != r by {
                    assert(ks@[j] != ks@[i as int]);
                }
                assert(!ks@.subrange(0, i as int).to_set().contains(r));
                assert(before.contains_key(r));
                lemma_total_remove(before, r);
                assert(before.remove(r) =~= m.remove_keys(ks@.subrange(0, i as int + 1).to_set()));
            }
            sum = sum + c;
            i = i + 1;
        }
        proof {
            lemma_full_prefix(ks@);
            assert(m.remove_keys(m.dom()) =~= Map::<u64, u64>::empty());
        }
        sum
    }

    /// The number of replicas this counter holds an entry for.
    pub fn replica_count(&self) -> (n: usize)
        ensures
            n == self@.dom().len(),
    {
        self.counts.len()
    }
}

impl CvRDT for GCounter {
    open spec fn join(a: Map<u64, u64>, b: Map<u64, u64>) -> Map<u64, u64> {
        counter_join(a, b)
    }

    /// Merge another counter into this one by taking the element-wise
    /// maximum of each replica's count; the value never falls below either
    /// side's.
    fn merge(&mut self, other: &Self)
        ensures
            final(self)@.dom().finite(),
            total(old(self)@) <= total(final(self)@),
            total(other@) <= total(final(self)@),
    {
        proof {
            self.lemma_finite();
            other.lemma_finite();
            lemma_counter_merge_keeps_value(self@, other@);
        }
        let ghost a = self@;
        let ghost b = other@;
        let theirs = replicas_of(&other.counts);
        let mut i: usize = 0;
        while i < theirs.len()
            invariant
                i <= theirs@.len(),
                theirs@.to_set() == b.dom(),
                b == other@,
                self@ == counter_join(a, b.restrict(theirs@.subrange(0, i as int).to_set())),
            decreases theirs@.len() - i,
        {
            let r = theirs[i];
            let c = count_of(&other.counts, r);
            let cur = count_of(&self.counts, r);
            let v = if cur < c {
                c
            } else {
                cur
            };
            self.counts.insert(r, v);
            proof {
                lemma_prefix_set_step(theirs@, i as int);
                assert(self@ =~= counter_join(
                    a,
                    b.restrict(theirs@.subrange(0, i as int + 1).to_set()),
                ));
            }
            i = i + 1;
        }
        proof {
            lemma_full_prefix(theirs@);
            assert(b.restrict(b.dom()) =~= b);
            self.lemma_finite();
        }
    }
}

} // verus!

verus! {

/// Merging a counter with itself leaves it as it is.
pub proof fn lemma_counter_merge_idempotent(a: Map<u64, u64>)
    ensures
        counter_join(a, a) == a,
{
    assert(counter_join(a, a) =~= a);
}

/// Merging counters is commutative: replicas that merge each other's
/// state in either order hold the same counter.
pub proof fn lemma_counter_merge_commutative(a: Map<u64, u64>, b: Map<u64, u64>)
    ensures
        counter_join(a, b) == counter_join(b, a),
{
    assert(counter_join(a, b) =~= counter_join(b, a));
}

/// Merging counters is associative.
pub proof fn lemma_counter_merge_associative(
    a: Map<u64, u64>,
    b: Map<u64, u64>,
    c: Map<u64, u64>,
)
    ensures
        counter_join(counter_join(a, b), c) == counter_join(a, counter_join(b, c)),
{
    assert(counter_join(counter_join(a, b), c) =~= counter_join(a, counter_join(b, c)));
}

/// Incrementing a replica's count by `n` raises the counter's value by `n`.
pub proof fn lemma_increment_adds(a: Map<u64, u64>, r: u64, n: u64)
    requires
        a.dom().finite(),
        count_at(a, r) + n <= u64::MAX,
    ensures
        total(a.insert(r, (count_at(a, r) + n) as u64)) == total(a) + n,
{
    lemma_total_insert(a, r, (count_at(a, r) + n) as u64);
}

/// Merging never loses increments: the merged value is at least the value
/// of either side.
pub proof fn lemma_counter_merge_keeps_value(a: Map<u64, u64>, b: Map<u64, u64>)
    requires
        a.dom().finite(),
        b.dom().finite(),
    ensures
        total(a) <= total(counter_join(a, b)),
        total(b) <= total(counter_join(a, b)),
{
    let j = counter_join(a, b);
    assert(j.dom() =~= a.dom().union(b.dom()));
    assert forall|r: u64| #[trigger] count_at(a, r) <= #[trigger] count_at(j, r) by {}
    assert forall|r: u64| #[trigger] count_at(b, r) <= #[trigger] count_at(j, r) by {}
    lemma_total_monotone(a, j);
    lemma_total_monotone(b, j);
}

} // verus!

verus! {

/// Counters whose increments come from different replicas add up when
/// merged.
pub proof fn lemma_counter_merge_disjoint_adds(a: Map<u64, u64>, b: Map<u64, u64>)
    requires
        a.dom().finite(),
        b.dom().finite(),
        a.dom().disjoint(b.dom()),
    ensures
        total(counter_join(a, b)) == total(a) + total(b),
    decreases a.dom().len(),
{
    let j = counter_join(a, b);
    assert(j.dom() =~= a.dom().union(b.dom()));
    if a.dom().len() == 0 {
        assert(a.dom() =~= Set::<u64>::empty());
        assert(j =~= b);
    } else {
        let r = a.dom().choose();
        assert(!b.contains_key(r));
        lemma_total_remove(a, r);
        lemma_total_remove(j, r);
        assert(j.remove(r) =~= counter_join(a.remove(r), b));
        lemma_counter_merge_disjoint_adds(a.remove(r), b);
    }
}

/// Counter `a` is at or below counter `c` at every replica.
pub open spec fn counts_below(a: Map<u64, u64>, c: Map<u64, u64>) -> bool {
    forall|r: u64| #[trigger] count_at(a, r) <= #[trigger] count_at(c, r)
}

/// The merged counter is the least upper bound of the two counters: at or
/// above both at every replica, and at or below every counter that is at or
/// above both.
pub proof fn lemma_counter_merge_least_upper_bound(a: Map<u64, u64>, b: Map<u64, u64>)
    ensures
        counts_below(a, counter_join(a, b)),
        counts_below(b, counter_join(a, b)),
        forall|c: Map<u64, u64>|
            counts_below(a, c) && counts_below(b, c) ==> #[trigger] counts_below(
                counter_join(a, b),
                c,
            ),
{
    let j = counter_join(a, b);
    assert forall|r: u64| #[trigger] count_at(a, r) <= #[trigger] count_at(j, r) by {}
    assert forall|r: u64| #[trigger] count_at(b, r) <= #[trigger] count_at(j, r) by {}
    assert forall|c: Map<u64, u64>| counts_below(a, c) && counts_below(b, c) implies #[trigger] counts_below(j, c) by {
        assert forall|r: u64| #[trigger] count_at(j, r) <= #[trigger] count_at(c, r) by {
            assert(count_at(a, r) <= count_at(c, r));
            assert(count_at(b, r) <= count_at(c, r));
        }
    }
}

} // verus!
