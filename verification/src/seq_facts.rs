//! Facts about the sets of items that sequences and their prefixes hold.

use vstd::prelude::*;

verus! {

/// The set of the first `i + 1` items of `s` is the set of its first `i`
/// items with item `i` added.
pub proof fn lemma_prefix_set_step<A>(s: Seq<A>, i: int)
    requires
        0 <= i < s.len(),
    ensures
        s.subrange(0, i + 1).to_set() == s.subrange(0, i).to_set().insert(s[i]),
{
    let p = s.subrange(0, i);
    let q = s.subrange(0, i + 1);
    assert forall|x: A| q.to_set().contains(x) <==> p.to_set().insert(s[i]).contains(x) by {
        if q.contains(x) {
            let j = choose|j: int| 0 <= j < q.len() && q[j] == x;
            if j < i {
                assert(p[j] == x);
            }
        }
        if p.contains(x) {
            let j = choose|j: int| 0 <= j < p.len() && p[j] == x;
            assert(q[j] == x);
        }
        if x == s[i] {
            assert(q[i] == x);
        }
    }
    assert(q.to_set() =~= p.to_set().insert(s[i]));
}

/// The set of all items of `s` is the set of its first `s.len()` items.
pub proof fn lemma_full_prefix<A>(s: Seq<A>)
    ensures
        s.subrange(0, s.len() as int).to_set() == s.to_set(),
{
    assert(s.subrange(0, s.len() as int) =~= s);
}

/// Pushing an item onto a sequence adds it to the sequence's set.
pub proof fn lemma_push_to_set<A>(s: Seq<A>, x: A)
    ensures
        s.push(x).to_set() == s.to_set().insert(x),
{
    lemma_prefix_set_step(s.push(x), s.len() as int);
    assert(s.push(x).subrange(0, s.len() as int) =~= s);
    lemma_full_prefix(s.push(x));
}

} // verus!
