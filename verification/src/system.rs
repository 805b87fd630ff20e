//! # Replicas that share a todo list
//!
//! A model of several replicas with distinct peer ids that act on the todo
//! list and merge each other's states, together with the labels (text and
//! creator) each todo was created with. Every reachable configuration keeps
//! each replica's labels within those, so any two replicas that merge each
//! other's state converge.

use vstd::prelude::*;
use crate::protocol::{ClientMessage, ServerMessage};
use crate::state::{
    TodoModel, add_fits, after_add, shown_ids, after_apply, apply_fits, fresh, lemma_todo_merge_converges, lemma_wf_apply,
    lemma_wf_fresh, lemma_wf_join, labels_agree, is_snapshot_of, lemma_snapshots_agree, same_replicated, todo_id_of, todo_join, todo_wf,
};
use crate::str_map::keep_join;
use crate::text::{decimal, lemma_decimal_injective, lemma_decimal_no_dash, trimmed};

verus! {

/// Replicas keyed by their peer ids, and the text and creator that every
/// todo ever added was created with.
pub struct TodoSystem {
    pub replicas: Map<Seq<char>, TodoModel>,
    pub texts: Map<Seq<char>, Seq<char>>,
    pub creators: Map<Seq<char>, Seq<char>>,
}

/// Every todo id in `sys`'s record was handed out by one of its replicas,
/// as one of the ids that replica has handed out so far.
pub open spec fn ids_handed_out(sys: TodoSystem) -> bool {
    forall|id: Seq<char>|
        #[trigger] sys.texts.contains_key(id) ==> exists|p: Seq<char>, n: nat|
            sys.replicas.contains_key(p) && 1 <= n <= sys.replicas[p].next_local_id && id
                == todo_id_of(p, n)
}

/// The invariant of the replicas: each knows its own peer id, is well
/// formed, and holds only labels from the record; the record's texts and
/// creators cover the same ids, all handed out.
pub open spec fn system_inv(sys: TodoSystem) -> bool {
    &&& forall|p: Seq<char>| #[trigger] sys.replicas.contains_key(p) ==> {
        &&& sys.replicas[p].peer_id == p
        &&& todo_wf(sys.replicas[p])
        &&& sys.replicas[p].texts.submap_of(sys.texts)
        &&& sys.replicas[p].creators.submap_of(sys.creators)
    }
    &&& sys.texts.dom() == sys.creators.dom()
    &&& ids_handed_out(sys)
}

/// Replica `p` handles client request `msg`; an added todo's labels join
/// the record.
pub open spec fn system_apply(sys: TodoSystem, p: Seq<char>, msg: ClientMessage) -> TodoSystem {
    let s = after_apply(sys.replicas[p], msg);
    TodoSystem {
        replicas: sys.replicas.insert(p, s),
        texts: sys.texts.union_prefer_right(s.texts),
        creators: sys.creators.union_prefer_right(s.creators),
    }
}

/// Replica `p` merges in replica `q`'s state.
pub open spec fn system_sync(sys: TodoSystem, p: Seq<char>, q: Seq<char>) -> TodoSystem {
    TodoSystem {
        replicas: sys.replicas.insert(p, todo_join(sys.replicas[p], sys.replicas[q])),
        ..sys
    }
}

/// The id that a replica gives its `n`-th todo names the replica and `n`.
pub proof fn lemma_todo_id_injective(p1: Seq<char>, n1: nat, p2: Seq<char>, n2: nat)
    requires
        todo_id_of(p1, n1) == todo_id_of(p2, n2),
    ensures
        p1 == p2,
        n1 == n2,
{
    let x = todo_id_of(p1, n1);
    let d1 = decimal(n1);
    let d2 = decimal(n2);
    lemma_decimal_no_dash(n1);
    lemma_decimal_no_dash(n2);
    assert(x.len() == p1.len() + 1 + d1.len());
    assert(x.len() == p2.len() + 1 + d2.len());
    if d1.len() < d2.len() {
        let k = p1.len() as int;
        assert(x[k] == '-');
        assert(x[k] == d2[k - p2.len() - 1]);
    } else if d2.len() < d1.len() {
        let k = p2.len() as int;
        assert(x[k] == '-');
        assert(x[k] == d1[k - p1.len() - 1]);
    }
    assert(p1 =~= x.subrange(0, p1.len() as int));
    assert(p2 =~= x.subrange(0, p2.len() as int));
    assert(d1 =~= x.subrange(p1.len() as int + 1, x.len() as int));
    assert(d2 =~= x.subrange(p2.len() as int + 1, x.len() as int));
    lemma_decimal_injective(n1, n2);
}

/// Replicas that start fresh, each with its own peer id and an empty
/// record, satisfy the invariant.
pub proof fn lemma_system_init(sys: TodoSystem, clock_ids: Map<Seq<char>, u64>)
    requires
        sys.replicas.dom() == clock_ids.dom(),
        forall|p: Seq<char>| #[trigger] sys.replicas.contains_key(p) ==> sys.replicas[p] == fresh(
            p,
            clock_ids[p],
        ),
        sys.texts == Map::<Seq<char>, Seq<char>>::empty(),
        sys.creators == Map::<Seq<char>, Seq<char>>::empty(),
    ensures
        system_inv(sys),
{
    assert forall|p: Seq<char>| #[trigger] sys.replicas.contains_key(p) implies todo_wf(
        sys.replicas[p],
    ) by {
        lemma_wf_fresh(p, clock_ids[p]);
    }
    assert(sys.texts.dom() =~= sys.creators.dom());
}

/// A submap of a submap is a submap.
proof fn lemma_submap_trans<K, V>(a: Map<K, V>, b: Map<K, V>, c: Map<K, V>)
    requires
        a.submap_of(b),
        b.submap_of(c),
    ensures
        a.submap_of(c),
{
    assert forall|k: K| #[trigger] a.dom().contains(k) implies #[trigger] c.dom().contains(k) && a[k]
        == c[k] by {
        assert(a.dom().contains(k) && b.dom().contains(k));
        assert(b.dom().contains(k) && c.dom().contains(k));
    }
}

/// Keeping the entries of two submaps of `c` gives a submap of `c`.
proof fn lemma_keep_join_within<K, V>(a: Map<K, V>, b: Map<K, V>, c: Map<K, V>)
    requires
        a.submap_of(c),
        b.submap_of(c),
    ensures
        keep_join(a, b).submap_of(c),
{
    assert forall|k: K| #[trigger] keep_join(a, b).dom().contains(k) implies #[trigger] c.dom().contains(k)
        && keep_join(a, b)[k] == c[k] by {
        if a.dom().contains(k) {
            assert(a.dom().contains(k) && c.dom().contains(k));
        } else {
            assert(b.dom().contains(k) && c.dom().contains(k));
        }
    }
}

/// A map is a submap of any map unioned with it on the right.
proof fn lemma_union_right_within<K, V>(a: Map<K, V>, b: Map<K, V>)
    ensures
        b.submap_of(a.union_prefer_right(b)),
{
    assert forall|k: K| #[trigger] b.dom().contains(k) implies #[trigger] a.union_prefer_right(b).dom().contains(k)
        && b[k] == a.union_prefer_right(b)[k] by {}
}

/// A client request at one replica keeps the invariant.
pub proof fn lemma_system_apply(sys: TodoSystem, p: Seq<char>, msg: ClientMessage)
    requires
        system_inv(sys),
        sys.replicas.contains_key(p),
        apply_fits(sys.replicas[p], msg),
    ensures
        system_inv(system_apply(sys, p, msg)),
{
    let s = sys.replicas[p];
    let t = after_apply(s, msg);
    let n = system_apply(sys, p, msg);
    assert(s.peer_id == p);
    lemma_wf_apply(s, msg);
    let fresh_id = todo_id_of(p, (s.next_local_id + 1) as nat);
    // What the request adds to the labels: nothing, or the next id.
    let adds = match msg {
        ClientMessage::Add { text } => trimmed(text@).len() > 0,
        _ => false,
    };
    if adds {
        assert(t.texts.dom() =~= s.texts.dom().insert(fresh_id));
        assert(t.next_local_id == s.next_local_id + 1);
        if sys.texts.contains_key(fresh_id) {
            let (q, k) = choose|q: Seq<char>, k: nat|
                sys.replicas.contains_key(q) && 1 <= k <= sys.replicas[q].next_local_id
                    && fresh_id == todo_id_of(q, k);
            lemma_todo_id_injective(p, (s.next_local_id + 1) as nat, q, k);
        }
    } else {
        assert(t.texts == s.texts);
        assert(t.creators == s.creators);
        assert(t.next_local_id == s.next_local_id);
    }
    assert(sys.texts.submap_of(n.texts));
    assert(sys.creators.submap_of(n.creators));
    assert forall|q: Seq<char>| #[trigger] n.replicas.contains_key(q) implies {
        &&& n.replicas[q].peer_id == q
        &&& todo_wf(n.replicas[q])
        &&& n.replicas[q].texts.submap_of(n.texts)
        &&& n.replicas[q].creators.submap_of(n.creators)
    } by {
        if q != p {
            assert(sys.replicas.contains_key(q));
            lemma_submap_trans(sys.replicas[q].texts, sys.texts, n.texts);
            lemma_submap_trans(sys.replicas[q].creators, sys.creators, n.creators);
        } else {
            lemma_union_right_within(sys.texts, t.texts);
            lemma_union_right_within(sys.creators, t.creators);
        }
    }
    assert(n.texts.dom() =~= n.creators.dom());
    assert forall|id: Seq<char>| #[trigger] n.texts.contains_key(id) implies exists|q: Seq<char>, k: nat|
        n.replicas.contains_key(q) && 1 <= k <= n.replicas[q].next_local_id && id == todo_id_of(q, k) by {
        if sys.texts.contains_key(id) {
            let (q, k) = choose|q: Seq<char>, k: nat|
                sys.replicas.contains_key(q) && 1 <= k <= sys.replicas[q].next_local_id
                    && id == todo_id_of(q, k);
            assert(n.replicas.contains_key(q) && 1 <= k <= n.replicas[q].next_local_id && id == todo_id_of(q, k));
        } else {
            assert(t.texts.contains_key(id));
            if !adds {
                assert(s.texts.contains_key(id));
            }
            assert(id == fresh_id);
            assert(n.replicas.contains_key(p) && 1 <= s.next_local_id + 1 <= n.replicas[p].next_local_id);
        }
    }
}

/// In every reachable configuration the id that replica `p` hands out next
/// is new to it: neither added nor deleted there. So adding a todo whose
/// text is not only white space adds exactly that id, and the replica then
/// shows it, with the trimmed text, an open flag and `p` as creator, beside
/// the todos it showed before.
pub proof fn lemma_system_fresh_id(sys: TodoSystem, p: Seq<char>, text: Seq<char>)
    requires
        system_inv(sys),
        sys.replicas.contains_key(p),
        add_fits(sys.replicas[p], text),
        trimmed(text).len() > 0,
    ensures
        ({
            let s = sys.replicas[p];
            let id = todo_id_of(p, (s.next_local_id + 1) as nat);
            let t = after_add(s, text);
            &&& !s.added.contains(id)
            &&& !s.removed.contains(id)
            &&& t.added == s.added.insert(id)
            &&& shown_ids(t) == shown_ids(s).insert(id)
            &&& t.texts[id] == trimmed(text)
            &&& t.completed[id] == false
            &&& t.creators[id] == p
        }),
{
    let s = sys.replicas[p];
    let n = (s.next_local_id + 1) as nat;
    let id = todo_id_of(p, n);
    let t = after_add(s, text);
    assert(s.peer_id == p);
    if s.added.contains(id) {
        assert(s.texts.dom().contains(id));
        assert(s.texts.submap_of(sys.texts));
        assert(sys.texts.contains_key(id));
        let (q, k) = choose|q: Seq<char>, k: nat|
            sys.replicas.contains_key(q) && 1 <= k <= sys.replicas[q].next_local_id && id
                == todo_id_of(q, k);
        lemma_todo_id_injective(p, n, q, k);
    }
    assert(shown_ids(t) =~= shown_ids(s).insert(id));
}

/// One replica merging in another's state keeps the invariant.
pub proof fn lemma_system_sync(sys: TodoSystem, p: Seq<char>, q: Seq<char>)
    requires
        system_inv(sys),
        sys.replicas.contains_key(p),
        sys.replicas.contains_key(q),
    ensures
        system_inv(system_sync(sys, p, q)),
{
    let n = system_sync(sys, p, q);
    lemma_wf_join(sys.replicas[p], sys.replicas[q]);
    assert forall|r: Seq<char>| #[trigger] n.replicas.contains_key(r) implies {
        &&& n.replicas[r].peer_id == r
        &&& todo_wf(n.replicas[r])
        &&& n.replicas[r].texts.submap_of(n.texts)
        &&& n.replicas[r].creators.submap_of(n.creators)
    } by {
        assert(sys.replicas.contains_key(r));
        if r == p {
            let a = sys.replicas[p];
            let b = sys.replicas[q];
            lemma_keep_join_within(a.texts, b.texts, sys.texts);
            lemma_keep_join_within(a.creators, b.creators, sys.creators);
        }
    }
    assert forall|id: Seq<char>| #[trigger] n.texts.contains_key(id) implies exists|r: Seq<char>, k: nat|
        n.replicas.contains_key(r) && 1 <= k <= n.replicas[r].next_local_id && id == todo_id_of(r, k) by {
        let (r, k) = choose|r: Seq<char>, k: nat|
            sys.replicas.contains_key(r) && 1 <= k <= sys.replicas[r].next_local_id
                && id == todo_id_of(r, k);
        assert(n.replicas.contains_key(r) && 1 <= k <= n.replicas[r].next_local_id && id == todo_id_of(r, k));
    }
}

/// Any two replicas of such a system that merge each other's state hold
/// the same replicated data.
pub proof fn lemma_system_converges(sys: TodoSystem, p: Seq<char>, q: Seq<char>)
    requires
        system_inv(sys),
        sys.replicas.contains_key(p),
        sys.replicas.contains_key(q),
    ensures
        same_replicated(
            todo_join(sys.replicas[p], sys.replicas[q]),
            todo_join(sys.replicas[q], sys.replicas[p]),
        ),
{
    let a = sys.replicas[p];
    let b = sys.replicas[q];
    assert(a.texts.submap_of(sys.texts) && b.texts.submap_of(sys.texts));
    assert(a.creators.submap_of(sys.creators) && b.creators.submap_of(sys.creators));
    assert forall|id: Seq<char>| a.texts.contains_key(id) && b.texts.contains_key(id) implies #[trigger] a.texts[id]
        == #[trigger] b.texts[id] by {
        assert(a.texts.dom().contains(id) && sys.texts.dom().contains(id));
        assert(b.texts.dom().contains(id) && sys.texts.dom().contains(id));
        assert(a.texts[id] == sys.texts[id]);
        assert(b.texts[id] == sys.texts[id]);
    }
    assert forall|id: Seq<char>| a.creators.contains_key(id) && b.creators.contains_key(id) implies #[trigger] a.creators[id]
        == #[trigger] b.creators[id] by {
        assert(a.creators.dom().contains(id) && sys.creators.dom().contains(id));
        assert(b.creators.dom().contains(id) && sys.creators.dom().contains(id));
        assert(a.creators[id] == sys.creators[id]);
        assert(b.creators[id] == sys.creators[id]);
    }
    assert(labels_agree(a, b));
    lemma_todo_merge_converges(a, b);
}

/// After two replicas of such a system merge each other's state, their
/// snapshots show the same todos, in the same order, with the same texts,
/// flags and creators.
pub proof fn lemma_system_snapshots_agree(
    sys: TodoSystem,
    p: Seq<char>,
    q: Seq<char>,
    mp: ServerMessage,
    mq: ServerMessage,
)
    requires
        system_inv(sys),
        sys.replicas.contains_key(p),
        sys.replicas.contains_key(q),
        is_snapshot_of(mp, todo_join(sys.replicas[p], sys.replicas[q])),
        is_snapshot_of(mq, todo_join(sys.replicas[q], sys.replicas[p])),
    ensures
        match (mp, mq) {
            (ServerMessage::Snapshot { peers: pa, .. }, ServerMessage::Snapshot { peers: pb, .. }) => {
                &&& pa@[0].todos@.len() == pb@[0].todos@.len()
                &&& forall|i: int|
                    0 <= i < pa@[0].todos@.len() ==> {
                        &&& #[trigger] pa@[0].todos@[i].id@ == pb@[0].todos@[i].id@
                        &&& pa@[0].todos@[i].text@ == pb@[0].todos@[i].text@
                        &&& pa@[0].todos@[i].completed == pb@[0].todos@[i].completed
                        &&& pa@[0].todos@[i].created_by@ == pb@[0].todos@[i].created_by@
                    }
            },
        },
{
    let a = sys.replicas[p];
    let b = sys.replicas[q];
    lemma_wf_join(a, b);
    lemma_wf_join(b, a);
    lemma_system_converges(sys, p, q);
    lemma_snapshots_agree(mp, todo_join(a, b), mq, todo_join(b, a));
}

} // verus!
