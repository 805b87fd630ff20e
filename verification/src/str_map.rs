//! A small map keyed by strings, compared by their characters.

use vstd::prelude::*;
use crate::g_set::{Element, distinct_views, views_of};

verus! {

/// Keeping every entry of `a` and adding those of `b` whose key `a` lacks.
pub open spec fn keep_join<K, V>(a: Map<K, V>, b: Map<K, V>) -> Map<K, V> {
    Map::new(
        |k: K| a.contains_key(k) || b.contains_key(k),
        |k: K|
            if a.contains_key(k) {
                a[k]
            } else {
                b[k]
            },
    )
}

/// The flag that a map of flags holds for `k`, false when it holds none.
pub open spec fn flag_at<K>(m: Map<K, bool>, k: K) -> bool {
    m.contains_key(k) && m[k]
}

/// Every key of either map, with the flag set when either map sets it.
pub open spec fn or_join<K>(a: Map<K, bool>, b: Map<K, bool>) -> Map<K, bool> {
    Map::new(|k: K| a.contains_key(k) || b.contains_key(k), |k: K| flag_at(a, k) || flag_at(b, k))
}

/// The map that parallel lists of keys and values describe.
pub open spec fn map_of<V: View>(keys: Seq<String>, vals: Seq<V>) -> Map<Seq<char>, V::V> {
    Map::new(
        |k: Seq<char>| views_of(keys).contains(k),
        |k: Seq<char>| vals[choose|i: int| 0 <= i < keys.len() && keys[i]@ == k]@,
    )
}

/// The entry at position `i` of the lists is in their map.
proof fn lemma_map_of_entry<V: View>(keys: Seq<String>, vals: Seq<V>, i: int)
    requires
        distinct_views(keys),
        0 <= i < keys.len(),
    ensures
        map_of(keys, vals).contains_key(keys[i]@),
        map_of(keys, vals)[keys[i]@] == vals[i]@,
{
    assert(views_of(keys)[i] == keys[i]@);
    let j = choose|j: int| 0 <= j < keys.len() && keys[j]@ == keys[i]@;
    assert(j == i);
}

/// A key of the lists' map sits at some position.
proof fn lemma_map_of_key<V: View>(keys: Seq<String>, vals: Seq<V>, k: Seq<char>)
    requires
        map_of(keys, vals).contains_key(k),
    ensures
        exists|i: int| 0 <= i < keys.len() && keys[i]@ == k,
{
    let i = choose|i: int| 0 <= i < views_of(keys).len() && views_of(keys)[i] == k;
    assert(keys[i]@ == k);
}

/// Appending an entry whose key is new adds that entry to the lists' map.
proof fn lemma_map_of_push<V: View>(keys: Seq<String>, vals: Seq<V>, k: String, v: V)
    requires
        distinct_views(keys),
        keys.len() == vals.len(),
        !views_of(keys).contains(k@),
    ensures
        distinct_views(keys.push(k)),
        map_of(keys.push(k), vals.push(v)) == map_of(keys, vals).insert(k@, v@),
{
    let nk = keys.push(k);
    let nv = vals.push(v);
    assert(views_of(nk) =~= views_of(keys).push(k@));
    assert forall|a: int, b: int| 0 <= a < nk.len() && 0 <= b < nk.len() && a != b implies nk[a]@
        != nk[b]@ by {
        if a == keys.len() {
            assert(views_of(keys)[b] == keys[b]@);
        } else if b == keys.len() {
            assert(views_of(keys)[a] == keys[a]@);
        }
    }
    assert forall|x: Seq<char>| #[trigger] map_of(nk, nv).contains_key(x) implies map_of(nk, nv)[x]
        == map_of(keys, vals).insert(k@, v@)[x] by {
        lemma_map_of_key(nk, nv, x);
        let j = choose|j: int| 0 <= j < nk.len() && nk[j]@ == x;
        lemma_map_of_entry(nk, nv, j);
        if j < keys.len() {
            lemma_map_of_entry(keys, vals, j);
        }
    }
    assert forall|x: Seq<char>|
        map_of(nk, nv).contains_key(x) <==> #[trigger] map_of(keys, vals).insert(k@, v@).contains_key(
            x,
        ) by {
        if views_of(keys).contains(x) {
            let j = choose|j: int| 0 <= j < views_of(keys).len() && views_of(keys)[j] == x;
            assert(views_of(nk)[j] == x);
        }
        if views_of(nk).contains(x) {
            let j = choose|j: int| 0 <= j < views_of(nk).len() && views_of(nk)[j] == x;
            if j < keys.len() {
                assert(views_of(keys)[j] == x);
            }
        }
        if x == k@ {
            assert(views_of(nk)[keys.len() as int] == x);
        }
    }
    assert(map_of(nk, nv) =~= map_of(keys, vals).insert(k@, v@));
}

/// The first `i + 1` entries describe the map of the first `i` entries
/// with entry `i` added.
proof fn lemma_map_of_prefix<V: View>(keys: Seq<String>, vals: Seq<V>, i: int)
    requires
        distinct_views(keys),
        keys.len() == vals.len(),
        0 <= i < keys.len(),
    ensures
        distinct_views(keys.subrange(0, i)),
        map_of(keys.subrange(0, i + 1), vals.subrange(0, i + 1)) == map_of(
            keys.subrange(0, i),
            vals.subrange(0, i),
        ).insert(keys[i]@, vals[i]@),
        !map_of(keys.subrange(0, i), vals.subrange(0, i)).contains_key(keys[i]@),
{
    let pk = keys.subrange(0, i);
    let pv = vals.subrange(0, i);
    assert(keys.subrange(0, i + 1) =~= pk.push(keys[i]));
    assert(vals.subrange(0, i + 1) =~= pv.push(vals[i]));
    if views_of(pk).contains(keys[i]@) {
        let j = choose|j: int| 0 <= j < views_of(pk).len() && views_of(pk)[j] == keys[i]@;
        assert(keys[j]@ == keys[i]@);
    }
    lemma_map_of_push(pk, pv, keys[i], vals[i]);
}

/// All entries describe the whole map.
proof fn lemma_map_of_full<V: View>(keys: Seq<String>, vals: Seq<V>)
    requires
        keys.len() == vals.len(),
    ensures
        map_of(keys.subrange(0, keys.len() as int), vals.subrange(0, vals.len() as int)) == map_of(
            keys,
            vals,
        ),
{
    assert(keys.subrange(0, keys.len() as int) =~= keys);
    assert(vals.subrange(0, vals.len() as int) =~= vals);
}

/// A map from strings to values, held as two parallel lists with no key
/// listed twice.
pub struct StrMap<V: Element> {
    keys: Vec<String>,
    vals: Vec<V>,
}

impl<V: Element> View for StrMap<V> {
    type V = Map<Seq<char>, V::V>;

    closed spec fn view(&self) -> Map<Seq<char>, V::V> {
        map_of(self.keys@, self.vals@)
    }
}

impl<V: Element> StrMap<V> {
    #[verifier::type_invariant]
    spec fn well_formed(&self) -> bool {
        &&& self.keys@.len() == self.vals@.len()
        &&& distinct_views(self.keys@)
    }

    /// An empty map.
    pub fn new() -> (m: Self)
        ensures
            m@ == Map::<Seq<char>, V::V>::empty(),
    {
        let m = StrMap { keys: Vec::new(), vals: Vec::new() };
        assert(m@ =~= Map::<Seq<char>, V::V>::empty());
        m
    }

    /// The position of `key`, if the map has it.
    fn find(&self, key: &String) -> (r: Option<usize>)
        ensures
            match r {
                Some(i) => i < self.keys@.len() && self.keys@[i as int]@ == key@,
                None => !self@.contains_key(key@),
            },
    {
        let mut i: usize = 0;
        while i < self.keys.len()
            invariant
                i <= self.keys@.len(),
                forall|j: int| 0 <= j < i ==> self.keys@[j]@ != key@,
            decreases self.keys@.len() - i,
        {
            if self.keys[i].same(key) {
                return Some(i);
            }
            i = i + 1;
        }
        proof {
            if self@.contains_key(key@) {
                lemma_map_of_key(self.keys@, self.vals@, key@);
            }
        }
        None
    }

    /// The value held for `key`, if any.
    pub fn get(&self, key: &String) -> (r: Option<&V>)
        ensures
            match r {
                Some(v) => self@.contains_key(key@) && self@[key@] == v@,
                None => !self@.contains_key(key@),
            },
    {
        proof {
            use_type_invariant(self);
        }
        match self.find(key) {
            Some(i) => {
                proof {
                    lemma_map_of_entry(self.keys@, self.vals@, i as int);
                }
                Some(&self.vals[i])
            },
            None => None,
        }
    }

    /// Whether the map holds a value for `key`.
    pub fn contains_key(&self, key: &String) -> (b: bool)
        ensures
            b == self@.contains_key(key@),
    {
        proof {
            use_type_invariant(self);
        }
        match self.find(key) {
            Some(i) => {
                proof {
                    lemma_map_of_entry(self.keys@, self.vals@, i as int);
                }
                true
            },
            None => false,
        }
    }

    /// Set the value held for `key`.
    pub fn insert(&mut self, key: String, value: V)
        ensures
            final(self)@ == old(self)@.insert(key@, value@),
    {
        proof {
            use_type_invariant(&*self);
        }
        let ghost old_keys = self.keys@;
        let ghost old_vals = self.vals@;
        let ghost old_map = self@;
        let ghost kv = key@;
        let ghost vv = value@;
        let found = self.find(&key);
        let mut whole = StrMap::new();
        std::mem::swap(&mut whole, self);
        let StrMap { mut keys, mut vals } = whole;
        match found {
            Some(i) => {
                vals.set(i, value);
                proof {
                    assert(keys@ == old_keys);
                    lemma_map_of_entry(old_keys, old_vals, i as int);
                    assert(views_of(keys@) =~= views_of(old_keys));
                    assert forall|k: Seq<char>|
                        #[trigger] map_of(keys@, vals@).contains_key(k) implies map_of(keys@, vals@)[k]
                        == old_map.insert(kv, vv)[k] by {
                        lemma_map_of_key(keys@, vals@, k);
                        let j = choose|j: int| 0 <= j < keys@.len() && keys@[j]@ == k;
                        lemma_map_of_entry(keys@, vals@, j);
                        if j != i {
                            lemma_map_of_entry(old_keys, old_vals, j);
                        }
                    }
                    assert(map_of(keys@, vals@) =~= old_map.insert(kv, vv));
                }
            },
            None => {
                proof {
                    if views_of(keys@).contains(kv) {
                        let j = choose|j: int| 0 <= j < views_of(keys@).len() && views_of(keys@)[j] == kv;
                        lemma_map_of_entry(old_keys, old_vals, j);
                    }
                    lemma_map_of_push(keys@, vals@, key, value);
                }
                keys.push(key);
                vals.push(value);
            },
        }
        *self = StrMap { keys, vals };
    }
}

impl<V: Element> StrMap<V> {
    /// Add every entry of `other` whose key this map lacks; entries already
    /// here are kept.
    pub fn merge_keep(&mut self, other: &Self)
        ensures
            final(self)@ == keep_join(old(self)@, other@),
    {
        proof {
            use_type_invariant(other);
        }
        let ghost start = self@;
        let mut i: usize = 0;
        proof {
            assert(map_of(other.keys@.subrange(0, 0), other.vals@.subrange(0, 0)) =~= Map::<
                Seq<char>,
                V::V,
            >::empty());
            assert(keep_join(start, Map::<Seq<char>, V::V>::empty()) =~= start);
        }
        while i < other.keys.len()
            invariant
                i <= other.keys@.len(),
                other.keys@.len() == other.vals@.len(),
                distinct_views(other.keys@),
                self@ == keep_join(
                    start,
                    map_of(other.keys@.subrange(0, i as int), other.vals@.subrange(0, i as int)),
                ),
            decreases other.keys@.len() - i,
        {
            proof {
                lemma_map_of_prefix(other.keys@, other.vals@, i as int);
            }
            if !self.contains_key(&other.keys[i]) {
                let k = other.keys[i].clone();
                let v = other.vals[i].duplicate();
                self.insert(k, v);
            }
            proof {
                assert(self@ =~= keep_join(
                    start,
                    map_of(
                        other.keys@.subrange(0, i as int + 1),
                        other.vals@.subrange(0, i as int + 1),
                    ),
                ));
            }
            i = i + 1;
        }
        proof {
            lemma_map_of_full(other.keys@, other.vals@);
        }
    }
}

impl StrMap<bool> {
    /// Add every key of `other`, setting the flag where either map sets it.
    pub fn merge_or(&mut self, other: &Self)
        ensures
            final(self)@ == or_join(old(self)@, other@),
    {
        proof {
            use_type_invariant(other);
        }
        let ghost start = self@;
        let mut i: usize = 0;
        proof {
            assert(map_of(other.keys@.subrange(0, 0), other.vals@.subrange(0, 0)) =~= Map::<
                Seq<char>,
                bool,
            >::empty());
            assert(or_join(start, Map::<Seq<char>, bool>::empty()) =~= start);
        }
        while i < other.keys.len()
            invariant
                i <= other.keys@.len(),
                other.keys@.len() == other.vals@.len(),
                distinct_views(other.keys@),
                self@ == or_join(
                    start,
                    map_of(other.keys@.subrange(0, i as int), other.vals@.subrange(0, i as int)),
                ),
            decreases other.keys@.len() - i,
        {
            proof {
                lemma_map_of_prefix(other.keys@, other.vals@, i as int);
            }
            let current = match self.get(&other.keys[i]) {
                Some(b) => *b,
                None => false,
            };
            let k = other.keys[i].clone();
            let v = current || other.vals[i];
            self.insert(k, v);
            proof {
                assert(self@ =~= or_join(
                    start,
                    map_of(
                        other.keys@.subrange(0, i as int + 1),
                        other.vals@.subrange(0, i as int + 1),
                    ),
                ));
            }
            i = i + 1;
        }
        proof {
            lemma_map_of_full(other.keys@, other.vals@);
        }
    }
}

impl<V: Element> Clone for StrMap<V> {
    fn clone(&self) -> (c: Self)
        ensures
            c@ == self@,
    {
        proof {
            use_type_invariant(self);
        }
        let mut keys: Vec<String> = Vec::new();
        let mut vals: Vec<V> = Vec::new();
        let mut i: usize = 0;
        while i < self.keys.len()
            invariant
                i <= self.keys@.len(),
                self.keys@.len() == self.vals@.len(),
                keys@ == self.keys@.subrange(0, i as int),
                vals@.len() == i,
                forall|j: int| 0 <= j < i ==> #[trigger] vals@[j]@ == self.vals@[j]@,
            decreases self.keys@.len() - i,
        {
            keys.push(self.keys[i].clone());
            vals.push(self.vals[i].duplicate());
            proof {
                assert(keys@ =~= self.keys@.subrange(0, i as int + 1));
            }
            i = i + 1;
        }
        proof {
            assert(keys@ =~= self.keys@);
            assert(map_of(keys@, vals@) =~= map_of(self.keys@, self.vals@));
        }
        StrMap { keys, vals }
    }
}

/// The map that a list of key and value pairs describes when the pairs are
/// inserted in order, a later pair replacing an earlier one with the same
/// key.
pub open spec fn pairs_map<V: View>(pairs: Seq<(String, V)>) -> Map<Seq<char>, V::V>
    decreases pairs.len(),
{
    if pairs.len() == 0 {
        Map::empty()
    } else {
        pairs_map(pairs.drop_last()).insert(pairs.last().0@, pairs.last().1@)
    }
}

/// No two pairs share a key.
pub open spec fn distinct_keys<V>(pairs: Seq<(String, V)>) -> bool {
    forall|i: int, j: int|
        0 <= i < pairs.len() && 0 <= j < pairs.len() && i != j ==> pairs[i].0@ != pairs[j].0@
}

impl<V: Element> StrMap<V> {
    /// The entries, each key once.
    pub fn entries(&self) -> (e: Vec<(String, V)>)
        ensures
            pairs_map(e@) == self@,
            distinct_keys(e@),
    {
        proof {
            use_type_invariant(self);
        }
        let mut e: Vec<(String, V)> = Vec::new();
        let mut i: usize = 0;
        proof {
            assert(map_of(self.keys@.subrange(0, 0), self.vals@.subrange(0, 0)) =~= Map::<
                Seq<char>,
                V::V,
            >::empty());
        }
        while i < self.keys.len()
            invariant
                i <= self.keys@.len(),
                self.keys@.len() == self.vals@.len(),
                distinct_views(self.keys@),
                e@.len() == i,
                forall|j: int| 0 <= j < i ==> #[trigger] e@[j].0@ == self.keys@[j]@,
                pairs_map(e@) == map_of(
                    self.keys@.subrange(0, i as int),
                    self.vals@.subrange(0, i as int),
                ),
            decreases self.keys@.len() - i,
        {
            proof {
                lemma_map_of_prefix(self.keys@, self.vals@, i as int);
            }
            let k = self.keys[i].clone();
            let v = self.vals[i].duplicate();
            let ghost before = e@;
            e.push((k, v));
            proof {
                assert(e@.drop_last() =~= before);
            }
            i = i + 1;
        }
        proof {
            lemma_map_of_full(self.keys@, self.vals@);
        }
        e
    }

    /// The map of `pairs`, inserted in order.
    pub fn from_entries(pairs: &Vec<(String, V)>) -> (m: Self)
        ensures
            m@ == pairs_map(pairs@),
    {
        let mut m = StrMap::new();
        let mut i: usize = 0;
        proof {
            assert(pairs@.subrange(0, 0) =~= Seq::<(String, V)>::empty());
        }
        while i < pairs.len()
            invariant
                i <= pairs@.len(),
                m@ == pairs_map(pairs@.subrange(0, i as int)),
            decreases pairs@.len() - i,
        {
            let k = pairs[i].0.clone();
            let v = pairs[i].1.duplicate();
            m.insert(k, v);
            proof {
                assert(pairs@.subrange(0, i as int + 1).drop_last() =~= pairs@.subrange(0, i as int));
            }
            i = i + 1;
        }
        proof {
            assert(pairs@.subrange(0, pairs@.len() as int) =~= pairs@);
        }
        m
    }
}

} // verus!
