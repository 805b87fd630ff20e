//! # Vector clock
//!
//! A logical clock that tracks causality between events across replicas.
//! Each replica maintains a per-replica counter; comparing two clocks
//! reveals whether one event happened before another, whether they are
//! equal, or whether they are concurrent. The clock is itself a CvRDT:
//! merging takes the element-wise maximum of the two clocks.

use vstd::prelude::*;
use std::cmp::Ordering;
use std::collections::HashMap;
use crate::replica_map::{
    count_at, count_of, max_count, replicas_of, bumped, lemma_listed,
};
use crate::seq_facts::{lemma_full_prefix, lemma_prefix_set_step};
use crate::traits::CvRDT;

verus! {

/// Every replica that a clock lists has a count above zero.
pub open spec fn all_positive(m: Map<u64, u64>) -> bool {
    forall|r: u64| #[trigger] m.contains_key(r) ==> m[r] > 0
}

/// Clock `a` is at or below clock `b` at every replica.
pub open spec fn dominated_by(a: Map<u64, u64>, b: Map<u64, u64>) -> bool {
    forall|r: u64| #[trigger] count_at(a, r) <= #[trigger] count_at(b, r)
}

/// Clock `a` is above clock `b` at replica `r`.
pub open spec fn above_at(a: Map<u64, u64>, b: Map<u64, u64>, r: u64) -> bool {
    count_at(a, r) > count_at(b, r)
}

/// How clock `a` relates to clock `b` in the causal order: equal when they
/// agree everywhere, less when `a` is dominated by `b` and differs from it,
/// greater in the mirror case, and no order when each is above the other
/// somewhere.
pub open spec fn causal_order(a: Map<u64, u64>, b: Map<u64, u64>) -> Option<Ordering> {
    if dominated_by(a, b) && dominated_by(b, a) {
        Some(Ordering::Equal)
    } else if dominated_by(a, b) {
        Some(Ordering::Less)
    } else if dominated_by(b, a) {
        Some(Ordering::Greater)
    } else {
        None
    }
}

/// Merging clock `b` into clock `a`: every replica that `b` counts above
/// zero gets the larger of the two counts; all else stays as in `a`.
pub open spec fn clock_join(a: Map<u64, u64>, b: Map<u64, u64>) -> Map<u64, u64> {
    Map::new(
        |r: u64| a.contains_key(r) || (b.contains_key(r) && b[r] > 0),
        |r: u64|
            if b.contains_key(r) && b[r] > 0 {
                if a.contains_key(r) {
                    max_count(a[r], b[r])
                } else {
                    b[r]
                }
            } else {
                a[r]
            },
    )
}

/// The clock that a list of replica and counter pairs describes when the
/// pairs are inserted in order: a later pair for a replica replaces an
/// earlier one, and a zero counter is kept as an entry.
pub open spec fn listed_clock(pairs: Seq<(u64, u64)>) -> Map<u64, u64>
    decreases pairs.len(),
{
    if pairs.len() == 0 {
        Map::empty()
    } else {
        listed_clock(pairs.drop_last()).insert(pairs.last().0, pairs.last().1)
    }
}

/// A vector clock: a counter per replica, zero for replicas it has not heard of.
#[derive(Debug, PartialEq, Eq)]
pub struct VectorClock {
    entries: HashMap<u64, u64>,
}

impl View for VectorClock {
    type V = Map<u64, u64>;

    closed spec fn view(&self) -> Map<u64, u64> {
        self.entries@
    }
}

impl Clone for VectorClock {
    fn clone(&self) -> (c: Self)
        ensures
            c@ == self@,
    {
        VectorClock { entries: self.entries.clone() }
    }
}

impl Default for VectorClock {
    fn default() -> (c: Self)
        ensures
            c@ == Map::<u64, u64>::empty(),
    {
        VectorClock { entries: HashMap::new() }
    }
}

impl VectorClock {
    /// A clock that has heard of no replica.
    pub fn new() -> (c: Self)
        ensures
            c@ == Map::<u64, u64>::empty(),
    {
        VectorClock { entries: HashMap::new() }
    }

    /// Advance `replica`'s counter by one and return its new value.
    pub fn increment(&mut self, replica: u64) -> (v: u64)
        requires
            count_at(old(self)@, replica) < u64::MAX,
        ensures
            v == count_at(old(self)@, replica) + 1,
            final(self)@ == old(self)@.insert(replica, v),
            all_positive(old(self)@) ==> all_positive(final(self)@),
    {
        let cur = count_of(&self.entries, replica);
        let v = cur + 1;
        let mut entries = HashMap::new();
        std::mem::swap(&mut entries, &mut self.entries);
        entries.insert(replica, v);
        self.entries = entries;
        v
    }

    /// The counter of `replica`, zero when the clock has not heard of it.
    pub fn get(&self, replica: u64) -> (c: u64)
        ensures
            c == count_at(self@, replica),
    {
        count_of(&self.entries, replica)
    }

    /// Raise `replica`'s counter to `counter` when that is higher; a zero
    /// `counter` leaves the clock as it is.
    pub fn observe(&mut self, replica: u64, counter: u64)
        ensures
            counter == 0 ==> final(self)@ == old(self)@,
            counter > 0 ==> final(self)@ == old(self)@.insert(
                replica,
                max_count(count_at(old(self)@, replica) as u64, counter),
            ),
            all_positive(old(self)@) ==> all_positive(final(self)@),
    {
        if counter == 0 {
            return;
        }
        let cur = count_of(&self.entries, replica);
        let v = if cur < counter {
            counter
        } else {
            cur
        };
        let mut entries = HashMap::new();
        std::mem::swap(&mut entries, &mut self.entries);
        entries.insert(replica, v);
        self.entries = entries;
    }

    /// Whether the clock has heard of no replica.
    pub fn is_empty(&self) -> (b: bool)
        ensures
            b == (self@.dom() =~= Set::<u64>::empty()),
    {
        self.entries.is_empty()
    }
}

impl VectorClock {
    /// The causal order between this clock and `other`.
    fn compare(&self, other: &Self) -> (r: Option<Ordering>)
        ensures
            r == causal_order(self@, other@),
    {
        let ghost a = self@;
        let ghost b = other@;
        let mine = replicas_of(&self.entries);
        let theirs = replicas_of(&other.entries);
        let mut less = false;
        let mut greater = false;
        let mut i: usize = 0;
        while i < mine.len()
            invariant
                i <= mine@.len(),
                a == self@,
                b == other@,
                !(less && greater),
                less == exists|j: int| 0 <= j < i && above_at(b, a, #[trigger] mine@[j]),
                greater == exists|j: int| 0 <= j < i && above_at(a, b, #[trigger] mine@[j]),
            decreases mine@.len() - i,
        {
            let r = mine[i];
            let x = count_of(&self.entries, r);
            let y = count_of(&other.entries, r);
            proof {
                assert(above_at(b, a, r) == (x < y));
                assert(above_at(a, b, r) == (y < x));
            }
            if x < y {
                less = true;
            } else if y < x {
                greater = true;
            }
            if less && greater {
                return None;
            }
            i = i + 1;
        }
        let mut k: usize = 0;
        while k < theirs.len()
            invariant
                k <= theirs@.len(),
                a == self@,
                b == other@,
                !(less && greater),
                less == ((exists|j: int| 0 <= j < mine@.len() && above_at(b, a, #[trigger] mine@[j]))
                    || (exists|j: int| 0 <= j < k && above_at(b, a, #[trigger] theirs@[j]))),
                greater == ((exists|j: int| 0 <= j < mine@.len() && above_at(a, b, #[trigger] mine@[j]))
                    || (exists|j: int| 0 <= j < k && above_at(a, b, #[trigger] theirs@[j]))),
            decreases theirs@.len() - k,
        {
            let r = theirs[k];
            let x = count_of(&self.entries, r);
            let y = count_of(&other.entries, r);
            proof {
                assert(above_at(b, a, r) == (x < y));
                assert(above_at(a, b, r) == (y < x));
            }
            if x < y {
                less = true;
            } else if y < x {
                greater = true;
            }
            if less && greater {
                return None;
            }
            k = k + 1;
        }
        proof {
            if !greater {
                assert forall|r: u64| #[trigger] count_at(a, r) <= #[trigger] count_at(b, r) by {
                    if above_at(a, b, r) {
                        lemma_listed(a, mine@, r);
                        let j = choose|j: int| 0 <= j < mine@.len() && mine@[j] == r;
                        assert(above_at(a, b, mine@[j]));
                    }
                }
            }
            if !less {
                assert forall|r: u64| #[trigger] count_at(b, r) <= #[trigger] count_at(a, r) by {
                    if above_at(b, a, r) {
                        lemma_listed(b, theirs@, r);
                        let j = choose|j: int| 0 <= j < theirs@.len() && theirs@[j] == r;
                        assert(above_at(b, a, theirs@[j]));
                    }
                }
            }
        }
        if less {
            Some(Ordering::Less)
        } else if greater {
            Some(Ordering::Greater)
        } else {
            Some(Ordering::Equal)
        }
    }

    /// Whether this clock happened strictly before `other`.
    pub fn happens_before(&self, other: &Self) -> (b: bool)
        ensures
            b == (causal_order(self@, other@) == Some(Ordering::Less)),
    {
        matches!(self.compare(other), Some(Ordering::Less))
    }

    /// Whether neither clock happened before the other and they differ.
    pub fn concurrent_with(&self, other: &Self) -> (b: bool)
        ensures
            b == (causal_order(self@, other@) is None),
    {
        self.compare(other).is_none()
    }
}

impl PartialOrd for VectorClock {
    fn partial_cmp(&self, other: &Self) -> (r: Option<Ordering>) {
        self.compare(other)
    }
}

impl vstd::std_specs::cmp::PartialOrdSpecImpl for VectorClock {
    open spec fn obeys_partial_cmp_spec() -> bool {
        true
    }

    open spec fn partial_cmp_spec(&self, other: &Self) -> Option<Ordering> {
        causal_order(self@, other@)
    }
}

impl VectorClock {
    /// Each replica the clock has heard of with its counter, once each.
    pub fn entries(&self) -> (e: Vec<(u64, u64)>)
        ensures
            listed_clock(e@) == self@,
            forall|i: int, j: int| 0 <= i < e@.len() && 0 <= j < e@.len() && i != j ==> e@[i].0 != e@[j].0,
    {
        let ghost m = self@;
        let ks = replicas_of(&self.entries);
        let mut e: Vec<(u64, u64)> = Vec::new();
        let mut i: usize = 0;
        proof {
            assert(ks@.subrange(0, 0).to_set() =~= Set::<u64>::empty());
            assert(m.restrict(Set::<u64>::empty()) =~= Map::<u64, u64>::empty());
        }
        while i < ks.len()
            invariant
                i <= ks@.len(),
                m == self@,
                ks@.to_set() == m.dom(),
                ks@.no_duplicates(),
                e@.len() == i,
                forall|j: int| 0 <= j < i ==> #[trigger] e@[j].0 == ks@[j],
                listed_clock(e@) == m.restrict(ks@.subrange(0, i as int).to_set()),
            decreases ks@.len() - i,
        {
            let r = ks[i];
            let c = count_of(&self.entries, r);
            let ghost before = e@;
            proof {
                lemma_prefix_set_step(ks@, i as int);
                assert(ks@.to_set().contains(r));
                assert forall|j: int| 0 <= j < i implies ks@.subrange(0, i as int)[j] != r by {
                    assert(ks@[j] != ks@[i as int]);
                }
                assert(!ks@.subrange(0, i as int).to_set().contains(r));
            }
            e.push((r, c));
            proof {
                assert(e@.drop_last() =~= before);
                assert(listed_clock(e@) =~= m.restrict(ks@.subrange(0, i as int + 1).to_set()));
            }
            i = i + 1;
        }
        proof {
            lemma_full_prefix(ks@);
            assert(m.restrict(m.dom()) =~= m);
            assert forall|a: int, b: int| 0 <= a < e@.len() && 0 <= b < e@.len() && a != b implies e@[a].0 != e@[b].0 by {
                assert(ks@[a] != ks@[b]);
            }
        }
        e
    }

    /// The clock that `pairs` lists, inserted in order: a later pair for a
    /// replica replaces an earlier one, and zero counters are kept.
    pub fn from_entries(pairs: &Vec<(u64, u64)>) -> (c: Self)
        ensures
            c@ == listed_clock(pairs@),
    {
        let mut c = VectorClock::new();
        let mut i: usize = 0;
        proof {
            assert(pairs@.subrange(0, 0) =~= Seq::<(u64, u64)>::empty());
        }
        while i < pairs.len()
            invariant
                i <= pairs@.len(),
                c@ == listed_clock(pairs@.subrange(0, i as int)),
            decreases pairs@.len() - i,
        {
            let (r, n) = pairs[i];
            c.entries.insert(r, n);
            proof {
                assert(pairs@.subrange(0, i as int + 1).drop_last() =~= pairs@.subrange(0, i as int));
            }
            i = i + 1;
        }
        proof {
            assert(pairs@.subrange(0, pairs@.len() as int) =~= pairs@);
        }
        c
    }
}

impl CvRDT for VectorClock {
    open spec fn join(a: Map<u64, u64>, b: Map<u64, u64>) -> Map<u64, u64> {
        clock_join(a, b)
    }

    /// Merge `other` into this clock by taking the element-wise maximum.
    fn merge(&mut self, other: &Self)
        ensures
            all_positive(old(self)@) ==> all_positive(final(self)@),
    {
        let ghost a = self@;
        let ghost b = other@;
        let theirs = replicas_of(&other.entries);
        let mut entries = HashMap::new();
        std::mem::swap(&mut entries, &mut self.entries);
        let mut i: usize = 0;
        while i < theirs.len()
            invariant
                i <= theirs@.len(),
                theirs@.to_set() == b.dom(),
                theirs@.no_duplicates(),
                b == other@,
                entries@ == clock_join(a, b.restrict(theirs@.subrange(0, i as int).to_set())),
            decreases theirs@.len() - i,
        {
            let r = theirs[i];
            let c = count_of(&other.entries, r);
            let ghost before = theirs@.subrange(0, i as int).to_set();
            let ghost after = theirs@.subrange(0, i as int + 1).to_set();
            if c > 0 {
                let cur = count_of(&entries, r);
                let v = if cur < c {
                    c
                } else {
                    cur
                };
                entries.insert(r, v);
            }
            proof {
                lemma_prefix_set_step(theirs@, i as int);
                assert(entries@ =~= clock_join(a, b.restrict(after)));
            }
            i = i + 1;
        }
        proof {
            lemma_full_prefix(theirs@);
            assert(b.restrict(b.dom()) =~= b);
        }
        self.entries = entries;
    }
}

} // verus!

verus! {

/// Merging a clock with itself leaves it as it is.
pub proof fn lemma_clock_merge_idempotent(a: Map<u64, u64>)
    ensures
        clock_join(a, a) == a,
{
    assert(clock_join(a, a) =~= a);
}

/// Merging clocks is commutative: two replicas that merge each other's
/// clock hold the same clock.
pub proof fn lemma_clock_merge_commutative(a: Map<u64, u64>, b: Map<u64, u64>)
    requires
        all_positive(a),
        all_positive(b),
    ensures
        clock_join(a, b) == clock_join(b, a),
{
    assert(clock_join(a, b) =~= clock_join(b, a));
}

/// Merging clocks is associative.
pub proof fn lemma_clock_merge_associative(a: Map<u64, u64>, b: Map<u64, u64>, c: Map<u64, u64>)
    ensures
        clock_join(clock_join(a, b), c) == clock_join(a, clock_join(b, c)),
{
    assert(clock_join(clock_join(a, b), c) =~= clock_join(a, clock_join(b, c)));
}

/// The merged clock is the least upper bound of the two clocks: it is at or
/// above both, and at or below every clock that is at or above both.
pub proof fn lemma_clock_merge_least_upper_bound(a: Map<u64, u64>, b: Map<u64, u64>)
    ensures
        dominated_by(a, clock_join(a, b)),
        dominated_by(b, clock_join(a, b)),
        forall|c: Map<u64, u64>|
            dominated_by(a, c) && dominated_by(b, c) ==> #[trigger] dominated_by(clock_join(a, b), c),
{
    let j = clock_join(a, b);
    assert forall|r: u64| #[trigger] count_at(a, r) <= #[trigger] count_at(j, r) by {}
    assert forall|r: u64| #[trigger] count_at(b, r) <= #[trigger] count_at(j, r) by {}
    assert forall|c: Map<u64, u64>|
        dominated_by(a, c) && dominated_by(b, c) implies #[trigger] dominated_by(j, c) by {
        assert forall|r: u64| #[trigger] count_at(j, r) <= #[trigger] count_at(c, r) by {
            assert(count_at(a, r) <= count_at(c, r));
            assert(count_at(b, r) <= count_at(c, r));
        }
    }
}

/// After a replica advances its own counter, the old clock happened
/// before the new one.
pub proof fn lemma_clock_increment_happens_after(a: Map<u64, u64>, r: u64)
    requires
        count_at(a, r) < u64::MAX,
    ensures
        causal_order(a, bumped(a, r)) == Some(Ordering::Less),
        causal_order(bumped(a, r), a) == Some(Ordering::Greater),
{
    let n = bumped(a, r);
    assert forall|k: u64| #[trigger] count_at(a, k) <= #[trigger] count_at(n, k) by {}
    assert(count_at(n, r) > count_at(a, r));
}

/// The causal order seen from the other clock is the mirror image: one
/// clock happened before the other exactly when the other happened after
/// it, and concurrency is symmetric.
pub proof fn lemma_causal_order_mirror(a: Map<u64, u64>, b: Map<u64, u64>)
    ensures
        causal_order(a, b) == Some(Ordering::Less) <==> causal_order(b, a) == Some(
            Ordering::Greater,
        ),
        causal_order(a, b) == Some(Ordering::Equal) <==> causal_order(b, a) == Some(
            Ordering::Equal,
        ),
        causal_order(a, b) is None <==> causal_order(b, a) is None,
{
}

/// Two clocks that list only counts above zero are causally equal exactly
/// when they are the same clock.
pub proof fn lemma_causal_equal_is_equal(a: Map<u64, u64>, b: Map<u64, u64>)
    requires
        all_positive(a),
        all_positive(b),
    ensures
        causal_order(a, b) == Some(Ordering::Equal) <==> a == b,
{
    if causal_order(a, b) == Some(Ordering::Equal) {
        assert forall|r: u64| a.contains_key(r) <==> b.contains_key(r) by {
            assert(count_at(a, r) <= count_at(b, r));
            assert(count_at(b, r) <= count_at(a, r));
        }
        assert forall|r: u64| a.contains_key(r) implies a[r] == b[r] by {
            assert(count_at(a, r) <= count_at(b, r));
            assert(count_at(b, r) <= count_at(a, r));
        }
        assert(a =~= b);
    }
    if a == b {
        assert forall|r: u64| #[trigger] count_at(a, r) <= #[trigger] count_at(b, r) by {}
    }
}

} // verus!

verus! {

/// Happening before is transitive.
pub proof fn lemma_happens_before_transitive(a: Map<u64, u64>, b: Map<u64, u64>, c: Map<u64, u64>)
    requires
        causal_order(a, b) == Some(Ordering::Less),
        causal_order(b, c) == Some(Ordering::Less),
    ensures
        causal_order(a, c) == Some(Ordering::Less),
{
    assert forall|r: u64| #[trigger] count_at(a, r) <= #[trigger] count_at(c, r) by {
        assert(count_at(a, r) <= count_at(b, r));
        assert(count_at(b, r) <= count_at(c, r));
    }
    let w = choose|r: u64| !(count_at(c, r) <= count_at(b, r));
    assert(count_at(b, w) <= count_at(a, w) ==> count_at(c, w) > count_at(a, w));
    assert(count_at(a, w) <= count_at(b, w));
}

/// Clocks that list only counts above zero keep doing so when advanced or
/// merged with any clock.
pub proof fn lemma_clock_stays_positive(a: Map<u64, u64>, b: Map<u64, u64>, r: u64)
    requires
        all_positive(a),
    ensures
        all_positive(clock_join(a, b)),
        count_at(a, r) < u64::MAX ==> all_positive(bumped(a, r)),
{
}

} // verus!

verus! {

/// How two clocks compare, by their counts alone: equal when every count
/// agrees; less when no count is above the other clock's and some count is
/// below; greater in the mirror case; and no order (concurrent) exactly
/// when each clock is above the other at some replica.
pub proof fn lemma_causal_order_by_counts(a: Map<u64, u64>, b: Map<u64, u64>)
    ensures
        (forall|r: u64| #[trigger] count_at(a, r) == count_at(b, r)) ==> causal_order(a, b) == Some(
            Ordering::Equal,
        ),
        (forall|r: u64| #[trigger] count_at(a, r) <= count_at(b, r)) && (exists|r: u64|
            #[trigger] count_at(a, r) < count_at(b, r)) ==> causal_order(a, b) == Some(
            Ordering::Less,
        ),
        (forall|r: u64| #[trigger] count_at(b, r) <= count_at(a, r)) && (exists|r: u64|
            #[trigger] count_at(b, r) < count_at(a, r)) ==> causal_order(a, b) == Some(
            Ordering::Greater,
        ),
        ((exists|r: u64| #[trigger] count_at(a, r) > count_at(b, r)) && (exists|r: u64|
            #[trigger] count_at(b, r) > count_at(a, r))) <==> causal_order(a, b) is None,
{
    if (exists|r: u64| #[trigger] count_at(a, r) > count_at(b, r)) && (exists|r: u64|
        #[trigger] count_at(b, r) > count_at(a, r)) {
        let x = choose|r: u64| #[trigger] count_at(a, r) > count_at(b, r);
        let y = choose|r: u64| #[trigger] count_at(b, r) > count_at(a, r);
        assert(!dominated_by(a, b)) by {
            assert(!(count_at(a, x) <= count_at(b, x)));
        }
        assert(!dominated_by(b, a)) by {
            assert(!(count_at(b, y) <= count_at(a, y)));
        }
    }
    if (exists|r: u64| #[trigger] count_at(a, r) < count_at(b, r)) {
        let y = choose|r: u64| #[trigger] count_at(a, r) < count_at(b, r);
        assert(!(count_at(b, y) <= count_at(a, y)));
    }
    if (exists|r: u64| #[trigger] count_at(b, r) < count_at(a, r)) {
        let x = choose|r: u64| #[trigger] count_at(b, r) < count_at(a, r);
        assert(!(count_at(a, x) <= count_at(b, x)));
    }
    if causal_order(a, b) is None {
        let x = choose|r: u64| !(count_at(a, r) <= count_at(b, r));
        let y = choose|r: u64| !(count_at(b, r) <= count_at(a, r));
        assert(count_at(a, x) > count_at(b, x));
        assert(count_at(b, y) > count_at(a, y));
    }
}

} // verus!
