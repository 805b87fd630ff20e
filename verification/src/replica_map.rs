//! Helpers over per-replica counter maps: the count a map holds for a
//! replica (zero when it holds none) and the list of its replicas.

use vstd::prelude::*;
use std::collections::HashMap;
use vstd::std_specs::iter::IteratorSpec;

verus! {

/// The count that `m` holds for replica `r`, or zero when it holds none.
pub open spec fn count_at(m: Map<u64, u64>, r: u64) -> nat {
    if m.contains_key(r) {
        m[r] as nat
    } else {
        0
    }
}

/// `m` with replica `r`'s count advanced by one.
pub open spec fn bumped(m: Map<u64, u64>, r: u64) -> Map<u64, u64> {
    m.insert(r, (count_at(m, r) + 1) as u64)
}

/// The larger of two counts.
pub open spec fn max_count(x: u64, y: u64) -> u64 {
    if x < y {
        y
    } else {
        x
    }
}

/// The replicas that have an entry in `m`, each listed once.
pub fn replicas_of(m: &HashMap<u64, u64>) -> (v: Vec<u64>)
    ensures
        v@.to_set() == m@.dom(),
        v@.no_duplicates(),
        v@.len() == m@.dom().len(),
{
    let ghost keys = m.keys().remaining();
    let mut v: Vec<u64> = Vec::new();
    for r in it: m.keys()
        invariant
            it.seq() == keys,
            v@.len() == it.index(),
            forall|i: int| 0 <= i < v@.len() ==> v@[i] == *keys[i],
    {
        v.push(*r);
    }
    proof {
        assert(v@ =~= keys.unref());
    }
    v
}

/// The count that `m` holds for replica `r`, or zero when it holds none.
pub fn count_of(m: &HashMap<u64, u64>, r: u64) -> (c: u64)
    ensures
        c == count_at(m@, r),
{
    match m.get(&r) {
        Some(c) => *c,
        None => 0,
    }
}

/// Every replica listed in `ks` whose count in `m` exceeds zero: where a
/// replica has a count above zero, it is listed.
pub proof fn lemma_listed(m: Map<u64, u64>, ks: Seq<u64>, r: u64)
    requires
        ks.to_set() == m.dom(),
        count_at(m, r) > 0,
    ensures
        exists|j: int| 0 <= j < ks.len() && ks[j] == r,
{
    assert(ks.to_set().contains(r));
    assert(ks.contains(r));
}

} // verus!
