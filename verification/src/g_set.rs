//! # G-Set (grow-only set)
//!
//! A grow-only set CRDT: elements can be added but never removed.
//! Merge is set union, which is commutative, associative, and idempotent.

use vstd::prelude::*;
use vstd::std_specs::iter::IteratorSpec;
use crate::seq_facts::lemma_push_to_set;
use crate::traits::CvRDT;

verus! {

/// A type whose values can be held in a [`GSet`]: two values count as the
/// same element exactly when their views are equal.
pub trait Element: View + Sized {
    /// Whether `self` and `other` are the same element.
    fn same(&self, other: &Self) -> (b: bool)
        ensures
            b == (self@ == other@),
    ;

    /// A copy of this element.
    fn duplicate(&self) -> (c: Self)
        ensures
            c@ == self@,
    ;
}

impl Element for u32 {
    fn same(&self, other: &Self) -> (b: bool) {
        *self == *other
    }

    fn duplicate(&self) -> (c: Self) {
        *self
    }
}

impl Element for u64 {
    fn same(&self, other: &Self) -> (b: bool) {
        *self == *other
    }

    fn duplicate(&self) -> (c: Self) {
        *self
    }
}

impl Element for i32 {
    fn same(&self, other: &Self) -> (b: bool) {
        *self == *other
    }

    fn duplicate(&self) -> (c: Self) {
        *self
    }
}

impl Element for bool {
    fn same(&self, other: &Self) -> (b: bool) {
        *self == *other
    }

    fn duplicate(&self) -> (c: Self) {
        *self
    }
}

impl Element for String {
    fn same(&self, other: &Self) -> (b: bool) {
        *self == *other
    }

    fn duplicate(&self) -> (c: Self) {
        self.clone()
    }
}

/// The views of the items of `s`, in order.
pub open spec fn views_of<T: View>(s: Seq<T>) -> Seq<T::V> {
    s.map_values(|e: T| e@)
}

/// No two items of `s` have the same view.
pub open spec fn distinct_views<T: View>(s: Seq<T>) -> bool {
    forall|i: int, j: int| 0 <= i < s.len() && 0 <= j < s.len() && i != j ==> s[i]@ != s[j]@
}

/// A grow-only set. Its view is the set of the views of its elements.
#[derive(Debug)]
pub struct GSet<T: Element> {
    elements: Vec<T>,
}

impl<T: Element> View for GSet<T> {
    type V = Set<T::V>;

    closed spec fn view(&self) -> Set<T::V> {
        views_of(self.elements@).to_set()
    }
}

/// Items with distinct views have as many distinct views as items.
proof fn lemma_distinct_len<T: View>(s: Seq<T>)
    requires
        distinct_views(s),
    ensures
        views_of(s).to_set().len() == s.len(),
        views_of(s).to_set().finite(),
{
    let v = views_of(s);
    assert(v.no_duplicates());
    v.unique_seq_to_set();
    vstd::seq_lib::seq_to_set_is_finite(v);
}

impl<T: Element> GSet<T> {
    #[verifier::type_invariant]
    spec fn no_repeats(&self) -> bool {
        distinct_views(self.elements@)
    }

    /// An empty set.
    pub fn new() -> (s: Self)
        ensures
            s@ == Set::<T::V>::empty(),
    {
        let s = GSet { elements: Vec::new() };
        assert(views_of(s.elements@).to_set() =~= Set::<T::V>::empty());
        s
    }

    /// Every set holds finitely many elements.
    pub proof fn lemma_finite(&self)
        ensures
            self@.finite(),
    {
        vstd::seq_lib::seq_to_set_is_finite(views_of(self.elements@));
    }

    /// Add `value`; returns whether it was not already present. The set
    /// grows by one element exactly when it was not.
    pub fn insert(&mut self, value: T) -> (added: bool)
        ensures
            added == !old(self)@.contains(value@),
            final(self)@ == old(self)@.insert(value@),
            final(self)@.finite(),
            final(self)@.len() == old(self)@.len() + if added { 1int } else { 0int },
    {
        proof {
            use_type_invariant(&*self);
            self.lemma_finite();
        }
        if self.contains(&value) {
            return false;
        }
        let ghost before = self.elements@;
        let mut elements = Vec::new();
        std::mem::swap(&mut elements, &mut self.elements);
        elements.push(value);
        proof {
            assert(views_of(elements@) =~= views_of(before).push(value@));
            lemma_push_to_set(views_of(before), value@);
            assert forall|i: int, j: int|
                0 <= i < elements@.len() && 0 <= j < elements@.len() && i != j implies elements@[i]@
                != elements@[j]@ by {
                if i == before.len() {
                    assert(views_of(before)[j] == before[j]@);
                } else if j == before.len() {
                    assert(views_of(before)[i] == before[i]@);
                }
            }
        }
        self.elements = elements;
        proof {
            self.lemma_finite();
        }
        true
    }

    /// Whether `value` is in the set.
    pub fn contains(&self, value: &T) -> (b: bool)
        ensures
            b == self@.contains(value@),
    {
        let mut i: usize = 0;
        while i < self.elements.len()
            invariant
                i <= self.elements@.len(),
                forall|j: int| 0 <= j < i ==> self.elements@[j]@ != value@,
            decreases self.elements@.len() - i,
        {
            if self.elements[i].same(value) {
                proof {
                    assert(views_of(self.elements@)[i as int] == value@);
                }
                return true;
            }
            i = i + 1;
        }
        proof {
            if views_of(self.elements@).contains(value@) {
                let j = choose|j: int|
                    0 <= j < views_of(self.elements@).len() && views_of(self.elements@)[j]
                        == value@;
                assert(self.elements@[j]@ == value@);
            }
        }
        false
    }

    /// The number of elements.
    pub fn len(&self) -> (n: usize)
        ensures
            self@.finite(),
            n == self@.len(),
    {
        proof {
            use_type_invariant(self);
            lemma_distinct_len(self.elements@);
        }
        self.elements.len()
    }

    /// Whether the set has no elements.
    pub fn is_empty(&self) -> (b: bool)
        ensures
            b == (self@.len() == 0),
    {
        proof {
            use_type_invariant(self);
            lemma_distinct_len(self.elements@);
        }
        self.elements.len() == 0
    }

    /// The elements, each once, in no particular order.
    pub fn iter(&self) -> (it: std::slice::Iter<'_, T>)
        ensures
            views_of(it.remaining().unref()).to_set() == self@,
            distinct_views(it.remaining().unref()),
            IteratorSpec::decrease(&it) is Some,
            IteratorSpec::initial_value_relation(&it, &it),
    {
        proof {
            use_type_invariant(self);
        }
        let it = self.elements.as_slice().iter();
        proof {
            assert(it.remaining().unref() =~= self.elements@);
        }
        it
    }
}

impl<T: Element> GSet<T> {
    /// The views of the first `i` elements, pushed one more.
    proof fn lemma_prefix_views(s: Seq<T>, i: int)
        requires
            0 <= i < s.len(),
        ensures
            views_of(s.subrange(0, i + 1)).to_set() == views_of(s.subrange(0, i)).to_set().insert(
                s[i]@,
            ),
    {
        assert(views_of(s.subrange(0, i + 1)) =~= views_of(s.subrange(0, i)).push(s[i]@));
        lemma_push_to_set(views_of(s.subrange(0, i)), s[i]@);
    }
}

impl<T: Element> Default for GSet<T> {
    fn default() -> (s: Self)
        ensures
            s@ == Set::<T::V>::empty(),
    {
        Self::new()
    }
}

impl<T: Element> Clone for GSet<T> {
    fn clone(&self) -> (c: Self)
        ensures
            c@ == self@,
    {
        proof {
            use_type_invariant(self);
        }
        let mut out: Vec<T> = Vec::new();
        let mut i: usize = 0;
        while i < self.elements.len()
            invariant
                i <= self.elements@.len(),
                distinct_views(self.elements@),
                out@.len() == i,
                forall|j: int| 0 <= j < i ==> #[trigger] out@[j]@ == self.elements@[j]@,
            decreases self.elements@.len() - i,
        {
            let e = self.elements[i].duplicate();
            out.push(e);
            i = i + 1;
        }
        proof {
            assert(views_of(out@) =~= views_of(self.elements@));
        }
        GSet { elements: out }
    }
}

impl<T: Element> PartialEq for GSet<T> {
    fn eq(&self, other: &Self) -> (r: bool) {
        proof {
            use_type_invariant(self);
            use_type_invariant(other);
            lemma_distinct_len(self.elements@);
            lemma_distinct_len(other.elements@);
        }
        if self.elements.len() != other.elements.len() {
            return false;
        }
        let mut i: usize = 0;
        while i < self.elements.len()
            invariant
                i <= self.elements@.len(),
                forall|j: int| 0 <= j < i ==> other@.contains(#[trigger] self.elements@[j]@),
            decreases self.elements@.len() - i,
        {
            if !other.contains(&self.elements[i]) {
                proof {
                    assert(views_of(self.elements@)[i as int] == self.elements@[i as int]@);
                    assert(self@.contains(self.elements@[i as int]@));
                }
                return false;
            }
            i = i + 1;
        }
        proof {
            assert forall|x: T::V| self@.contains(x) implies other@.contains(x) by {
                let j = choose|j: int|
                    0 <= j < views_of(self.elements@).len() && views_of(self.elements@)[j] == x;
                assert(self.elements@[j]@ == x);
            }
            vstd::set_lib::lemma_subset_equality(self@, other@);
        }
        true
    }
}

impl<T: Element> Eq for GSet<T> {

}

impl<T: Element> vstd::std_specs::cmp::PartialEqSpecImpl for GSet<T> {
    open spec fn obeys_eq_spec() -> bool {
        true
    }

    open spec fn eq_spec(&self, other: &Self) -> bool {
        self@ == other@
    }
}

impl<T: Element> CvRDT for GSet<T> {
    open spec fn join(a: Set<T::V>, b: Set<T::V>) -> Set<T::V> {
        a.union(b)
    }

    /// Merge by set union: every element of `other` is added.
    fn merge(&mut self, other: &Self)
        ensures
            final(self)@.finite(),
    {
        let ghost start = self@;
        let mut i: usize = 0;
        proof {
            assert(views_of(other.elements@.subrange(0, 0)).to_set() =~= Set::<T::V>::empty());
            assert(start.union(Set::<T::V>::empty()) =~= start);
        }
        while i < other.elements.len()
            invariant
                i <= other.elements@.len(),
                self@ == start.union(views_of(other.elements@.subrange(0, i as int)).to_set()),
            decreases other.elements@.len() - i,
        {
            let e = other.elements[i].duplicate();
            self.insert(e);
            proof {
                Self::lemma_prefix_views(other.elements@, i as int);
                assert(self@ =~= start.union(
                    views_of(other.elements@.subrange(0, i as int + 1)).to_set(),
                ));
            }
            i = i + 1;
        }
        proof {
            assert(other.elements@.subrange(0, other.elements@.len() as int) =~= other.elements@);
            self.lemma_finite();
        }
    }
}

/// Merging a set with itself leaves it as it is.
pub proof fn lemma_set_merge_idempotent<A>(a: Set<A>)
    ensures
        a.union(a) == a,
{
    assert(a.union(a) =~= a);
}

/// Merging sets is commutative.
pub proof fn lemma_set_merge_commutative<A>(a: Set<A>, b: Set<A>)
    ensures
        a.union(b) == b.union(a),
{
    assert(a.union(b) =~= b.union(a));
}

/// Merging sets is associative.
pub proof fn lemma_set_merge_associative<A>(a: Set<A>, b: Set<A>, c: Set<A>)
    ensures
        a.union(b).union(c) == a.union(b.union(c)),
{
    assert(a.union(b).union(c) =~= a.union(b.union(c)));
}

} // verus!

verus! {

/// The merged set is the least upper bound of the two sets: it holds both,
/// and lies within every set that holds both.
pub proof fn lemma_set_merge_least_upper_bound<A>(a: Set<A>, b: Set<A>)
    ensures
        a.subset_of(a.union(b)),
        b.subset_of(a.union(b)),
        forall|c: Set<A>| a.subset_of(c) && b.subset_of(c) ==> #[trigger] a.union(b).subset_of(c),
{
}

} // verus!
