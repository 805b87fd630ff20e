//! # Todo CRDT state
//!
//! The replica-local state of the todo list, built from the primitives of
//! this crate:
//! - two [`GSet`]s for the "added" and "removed" id sets (2P-Set semantics),
//! - a [`VectorClock`] for tracking causality across replicas,
//! - maps for the immutable text and creator labels, where the first value
//!   seen for an id is kept,
//! - a map of completion flags, merged as a monotonic OR: once a replica
//!   has seen an item completed, merging cannot un-complete it.
//!
//! Because every part is itself a CRDT or a monotonic structure, the state
//! as a whole implements [`CvRDT`].

use vstd::prelude::*;
use vstd::std_specs::iter::IteratorSpec;
use std::cmp::Ordering;
use crate::g_set::{GSet, views_of};
use crate::protocol::{ClientMessage, PeerSnapshot, ServerMessage, TodoItem};
use crate::replica_map::{bumped, count_at};
use crate::seq_facts::lemma_push_to_set;
use crate::str_map::{StrMap, flag_at, keep_join, or_join, pairs_map};
use crate::text::{decimal, peer_name, str_before, str_less, todo_id, trimmed, trimmed_text,
    lemma_str_before_total, lemma_str_before_irreflexive, lemma_str_before_transitive};
use crate::traits::CvRDT;
use crate::vector_clock::{VectorClock, all_positive, causal_order, clock_join, dominated_by, listed_clock};

verus! {

/// The abstract state of a replica's todo list.
pub struct TodoModel {
    /// This replica's peer id (local; not replicated).
    pub peer_id: Seq<char>,
    /// This replica's id in vector clocks (local; not replicated).
    pub replica_id: u64,
    /// How many todo ids this replica has handed out (local; not replicated).
    pub next_local_id: u64,
    /// Ids of every todo ever added.
    pub added: Set<Seq<char>>,
    /// Ids of every todo ever deleted.
    pub removed: Set<Seq<char>>,
    /// Text of each todo.
    pub texts: Map<Seq<char>, Seq<char>>,
    /// Completion flag of each todo.
    pub completed: Map<Seq<char>, bool>,
    /// Peer that created each todo.
    pub creators: Map<Seq<char>, Seq<char>>,
    /// The causal clock.
    pub clock: Map<u64, u64>,
}

/// The id that a replica with peer id `peer` gives its `n`-th todo.
pub open spec fn todo_id_of(peer: Seq<char>, n: nat) -> Seq<char> {
    peer + seq!['-'] + decimal(n)
}

/// The state after adding a todo with text `text`: nothing changes when the
/// text is only white space; otherwise the replica's clock advances, the
/// replica hands out its next id, and that id gets the trimmed text, an
/// open flag and this peer as creator.
pub open spec fn after_add(s: TodoModel, text: Seq<char>) -> TodoModel {
    let t = trimmed(text);
    if t.len() == 0 {
        s
    } else {
        let n = (s.next_local_id + 1) as u64;
        let id = todo_id_of(s.peer_id, n as nat);
        TodoModel {
            peer_id: s.peer_id,
            replica_id: s.replica_id,
            next_local_id: n,
            added: s.added.insert(id),
            removed: s.removed,
            texts: s.texts.insert(id, t),
            completed: s.completed.insert(id, false),
            creators: s.creators.insert(id, s.peer_id),
            clock: bumped(s.clock, s.replica_id),
        }
    }
}

/// Adding `text` does not overflow a counter.
pub open spec fn add_fits(s: TodoModel, text: Seq<char>) -> bool {
    trimmed(text).len() > 0 ==> count_at(s.clock, s.replica_id) < u64::MAX && s.next_local_id
        < u64::MAX
}

/// Whether the todo `id` was added and not deleted.
pub open spec fn is_live(s: TodoModel, id: Seq<char>) -> bool {
    s.added.contains(id) && !s.removed.contains(id)
}

/// The state after toggling `id`: a live todo's flag flips and the clock
/// advances; anything else changes nothing.
pub open spec fn after_toggle(s: TodoModel, id: Seq<char>) -> TodoModel {
    if is_live(s, id) {
        TodoModel {
            completed: s.completed.insert(id, !flag_at(s.completed, id)),
            clock: bumped(s.clock, s.replica_id),
            ..s
        }
    } else {
        s
    }
}

/// Toggling `id` does not overflow the clock.
pub open spec fn toggle_fits(s: TodoModel, id: Seq<char>) -> bool {
    is_live(s, id) ==> count_at(s.clock, s.replica_id) < u64::MAX
}

/// The state after deleting `id`: an added todo joins the removed set and
/// the clock advances; an id never added changes nothing.
pub open spec fn after_delete(s: TodoModel, id: Seq<char>) -> TodoModel {
    if s.added.contains(id) {
        TodoModel { removed: s.removed.insert(id), clock: bumped(s.clock, s.replica_id), ..s }
    } else {
        s
    }
}

/// Deleting `id` does not overflow the clock.
pub open spec fn delete_fits(s: TodoModel, id: Seq<char>) -> bool {
    s.added.contains(id) ==> count_at(s.clock, s.replica_id) < u64::MAX
}

/// The state after applying a client message.
pub open spec fn after_apply(s: TodoModel, msg: ClientMessage) -> TodoModel {
    match msg {
        ClientMessage::Add { text } => after_add(s, text@),
        ClientMessage::Toggle { id } => after_toggle(s, id@),
        ClientMessage::Delete { id } => after_delete(s, id@),
        ClientMessage::Resync => s,
    }
}

/// Applying a client message does not overflow a counter.
pub open spec fn apply_fits(s: TodoModel, msg: ClientMessage) -> bool {
    match msg {
        ClientMessage::Add { text } => add_fits(s, text@),
        ClientMessage::Toggle { id } => toggle_fits(s, id@),
        ClientMessage::Delete { id } => delete_fits(s, id@),
        ClientMessage::Resync => true,
    }
}

/// Merging replica state `b` into `a`: the id sets are unioned, texts and
/// creators already known are kept, completion flags are ORed, clocks take
/// the element-wise maximum, and `a`'s local identity stays.
pub open spec fn todo_join(a: TodoModel, b: TodoModel) -> TodoModel {
    TodoModel {
        peer_id: a.peer_id,
        replica_id: a.replica_id,
        next_local_id: a.next_local_id,
        added: a.added.union(b.added),
        removed: a.removed.union(b.removed),
        texts: keep_join(a.texts, b.texts),
        completed: or_join(a.completed, b.completed),
        creators: keep_join(a.creators, b.creators),
        clock: clock_join(a.clock, b.clock),
    }
}

/// Whether a snapshot of `s` shows an added id: it is not deleted and has
/// a text.
pub open spec fn shown_in(s: TodoModel) -> spec_fn(Seq<char>) -> bool {
    |id: Seq<char>| !s.removed.contains(id) && s.texts.contains_key(id)
}

/// The ids that a snapshot shows: added, not deleted, and with a text.
pub open spec fn shown_ids(s: TodoModel) -> Set<Seq<char>> {
    s.added.filter(shown_in(s))
}

/// `item` shows todo `item.id` of state `s`: its text, its flag (false when
/// it has none) and its creator (this peer when it has none).
pub open spec fn shows(item: TodoItem, s: TodoModel) -> bool {
    &&& item.text@ == s.texts[item.id@]
    &&& item.completed == flag_at(s.completed, item.id@)
    &&& item.created_by@ == if s.creators.contains_key(item.id@) {
        s.creators[item.id@]
    } else {
        s.peer_id
    }
}

/// `items` lists exactly the shown todos of `s`, in strictly increasing byte
/// order of their ids.
pub open spec fn lists_todos(items: Seq<TodoItem>, s: TodoModel) -> bool {
    &&& forall|i: int| 0 <= i < items.len() ==> shown_ids(s).contains(#[trigger] items[i].id@)
    &&& forall|id: Seq<char>|
        shown_ids(s).contains(id) ==> exists|i: int| 0 <= i < items.len() && #[trigger] items[i].id@ == id
    &&& forall|i: int, j: int|
        0 <= i < j < items.len() ==> str_before(#[trigger] items[i].id@, #[trigger] items[j].id@)
    &&& forall|i: int| 0 <= i < items.len() ==> shows(#[trigger] items[i], s)
}

/// `m` is the snapshot of state `s`: one peer, this one, online, with this
/// replica's clock counter and the listing of its shown todos.
pub open spec fn is_snapshot_of(m: ServerMessage, s: TodoModel) -> bool {
    match m {
        ServerMessage::Snapshot { local_peer_id, peers } => {
            &&& local_peer_id@ == s.peer_id
            &&& peers@.len() == 1
            &&& peers@[0].id@ == s.peer_id
            &&& peers@[0].name@ == seq!['P', 'e', 'e', 'r', ' '] + s.peer_id
            &&& peers@[0].online
            &&& peers@[0].clock@.len() == 1
            &&& peers@[0].clock@[0].0@ == s.peer_id
            &&& peers@[0].clock@[0].1 == count_at(s.clock, s.replica_id)
            &&& lists_todos(peers@[0].todos@, s)
        },
    }
}

/// Ids in strictly increasing byte order.
pub open spec fn sorted_ids(ids: Seq<String>) -> bool {
    forall|i: int, j: int| 0 <= i < j < ids.len() ==> str_before(#[trigger] ids[i]@, #[trigger] ids[j]@)
}

/// Add `x` to the sorted list `ids`, keeping it sorted; an id already
/// listed is not listed again.
fn insert_sorted(ids: &mut Vec<String>, x: String)
    requires
        sorted_ids(old(ids)@),
    ensures
        sorted_ids(final(ids)@),
        views_of(final(ids)@).to_set() == views_of(old(ids)@).to_set().insert(x@),
{
    let ghost old_ids = ids@;
    let mut p: usize = 0;
    while p < ids.len() && str_less(&ids[p], &x)
        invariant
            p <= ids@.len(),
            ids@ == old_ids,
            sorted_ids(ids@),
            forall|q: int| 0 <= q < p ==> str_before(#[trigger] ids@[q]@, x@),
        decreases ids@.len() - p,
    {
        p = p + 1;
    }
    if p < ids.len() && ids[p] == x {
        proof {
            assert(views_of(old_ids)[p as int] == x@);
            assert(views_of(old_ids).to_set().insert(x@) =~= views_of(old_ids).to_set());
        }
        return;
    }
    proof {
        if p < ids@.len() {
            lemma_str_before_total(ids@[p as int]@, x@);
            assert(str_before(x@, ids@[p as int]@));
        }
    }
    ids.insert(p, x);
    proof {
        let n = ids@;
        assert forall|i: int, j: int| 0 <= i < j < n.len() implies str_before(
            #[trigger] n[i]@,
            #[trigger] n[j]@,
        ) by {
            if j < p {
            } else if j == p {
                assert(n[i] == old_ids[i]);
            } else if i == p {
                assert(n[j] == old_ids[j - 1]);
                if j - 1 > p {
                    lemma_str_before_transitive(x@, old_ids[p as int]@, old_ids[j - 1]@);
                }
            } else if i < p {
                assert(n[i] == old_ids[i]);
                assert(n[j] == old_ids[j - 1]);
                if i < j - 1 {
                } else {
                    lemma_str_before_irreflexive(n[i]@);
                }
            } else {
                assert(n[i] == old_ids[i - 1]);
                assert(n[j] == old_ids[j - 1]);
            }
        }
        assert forall|v: Seq<char>|
            views_of(n).to_set().contains(v) <==> #[trigger] views_of(old_ids).to_set().insert(
                x@,
            ).contains(v) by {
            if views_of(n).contains(v) {
                let k = choose|k: int| 0 <= k < views_of(n).len() && views_of(n)[k] == v;
                if k < p {
                    assert(views_of(old_ids)[k] == v);
                } else if k > p {
                    assert(views_of(old_ids)[k - 1] == v);
                }
            }
            if views_of(old_ids).contains(v) {
                let k = choose|k: int| 0 <= k < views_of(old_ids).len() && views_of(old_ids)[k] == v;
                if k < p {
                    assert(views_of(n)[k] == v);
                } else {
                    assert(views_of(n)[k + 1] == v);
                }
            }
            if v == x@ {
                assert(views_of(n)[p as int] == v);
            }
        }
        assert(views_of(n).to_set() =~= views_of(old_ids).to_set().insert(x@));
    }
}

/// The replica-local state of the todo list.
pub struct TodoState {
    peer_id: String,
    replica_id: u64,
    next_local_id: u64,
    added: GSet<String>,
    removed: GSet<String>,
    texts: StrMap<String>,
    completed: StrMap<bool>,
    creators: StrMap<String>,
    clock: VectorClock,
}

impl View for TodoState {
    type V = TodoModel;

    closed spec fn view(&self) -> TodoModel {
        TodoModel {
            peer_id: self.peer_id@,
            replica_id: self.replica_id,
            next_local_id: self.next_local_id,
            added: self.added@,
            removed: self.removed@,
            texts: self.texts@,
            completed: self.completed@,
            creators: self.creators@,
            clock: self.clock@,
        }
    }
}

/// The state of a fresh replica with peer id `peer_id` and clock id
/// `replica_id`: no todos, an empty clock, no ids handed out.
pub open spec fn fresh(peer_id: Seq<char>, replica_id: u64) -> TodoModel {
    TodoModel {
        peer_id,
        replica_id,
        next_local_id: 0,
        added: Set::empty(),
        removed: Set::empty(),
        texts: Map::empty(),
        completed: Map::empty(),
        creators: Map::empty(),
        clock: Map::empty(),
    }
}

impl TodoState {
    /// A fresh replica.
    pub fn new(peer_id: String, replica_id: u64) -> (s: Self)
        ensures
            s@ == fresh(peer_id@, replica_id),
            todo_wf(s@),
    {
        proof {
            lemma_wf_fresh(peer_id@, replica_id);
        }
        TodoState {
            peer_id,
            replica_id,
            next_local_id: 0,
            added: GSet::new(),
            removed: GSet::new(),
            texts: StrMap::new(),
            completed: StrMap::new(),
            creators: StrMap::new(),
            clock: VectorClock::new(),
        }
    }

    /// Apply a client request.
    pub fn apply(&mut self, msg: &ClientMessage)
        requires
            apply_fits(old(self)@, *msg),
        ensures
            final(self)@ == after_apply(old(self)@, *msg),
            todo_wf(old(self)@) ==> todo_wf(final(self)@),
    {
        proof {
            if todo_wf(self@) {
                lemma_wf_apply(self@, *msg);
            }
        }
        match msg {
            ClientMessage::Add { text } => self.add(text.as_str()),
            ClientMessage::Toggle { id } => self.toggle(id.as_str()),
            ClientMessage::Delete { id } => self.delete(id.as_str()),
            ClientMessage::Resync => {},
        }
    }

    /// Whether applying `msg` now stays within the counters' range.
    pub fn can_apply(&self, msg: &ClientMessage) -> (b: bool)
        ensures
            b == apply_fits(self@, *msg),
    {
        let clock_has_room = self.clock.get(self.replica_id) < u64::MAX;
        match msg {
            ClientMessage::Add { text } => match trimmed_text(text.as_str()) {
                Some(_) => clock_has_room && self.next_local_id < u64::MAX,
                None => true,
            },
            ClientMessage::Toggle { id } => {
                let key = id.clone();
                !(self.added.contains(&key) && !self.removed.contains(&key)) || clock_has_room
            },
            ClientMessage::Delete { id } => {
                let key = id.clone();
                !self.added.contains(&key) || clock_has_room
            },
            ClientMessage::Resync => true,
        }
    }

    /// Add a todo with `text`, trimmed; text that is only white space is
    /// ignored.
    pub fn add(&mut self, text: &str)
        requires
            add_fits(old(self)@, text@),
        ensures
            final(self)@ == after_add(old(self)@, text@),
            todo_wf(old(self)@) ==> todo_wf(final(self)@),
    {
        proof {
            if todo_wf(self@) {
                lemma_wf_steps(self@, text@, Seq::empty());
            }
        }
        let trimmed = match trimmed_text(text) {
            Some(t) => t,
            None => {
                return;
            },
        };
        self.clock.increment(self.replica_id);
        let id = self.new_todo_id();
        self.added.insert(id.clone());
        self.texts.insert(id.clone(), trimmed);
        self.completed.insert(id.clone(), false);
        self.creators.insert(id, self.peer_id.clone());
    }

    /// Flip the completion of a live todo.
    pub fn toggle(&mut self, id: &str)
        requires
            toggle_fits(old(self)@, id@),
        ensures
            final(self)@ == after_toggle(old(self)@, id@),
            todo_wf(old(self)@) ==> todo_wf(final(self)@),
    {
        proof {
            if todo_wf(self@) {
                lemma_wf_steps(self@, Seq::empty(), id@);
            }
        }
        let key = id.to_string();
        if !self.added.contains(&key) || self.removed.contains(&key) {
            return;
        }
        self.clock.increment(self.replica_id);
        let current = match self.completed.get(&key) {
            Some(b) => *b,
            None => false,
        };
        self.completed.insert(key, !current);
    }

    /// Delete an added todo.
    pub fn delete(&mut self, id: &str)
        requires
            delete_fits(old(self)@, id@),
        ensures
            final(self)@ == after_delete(old(self)@, id@),
            todo_wf(old(self)@) ==> todo_wf(final(self)@),
    {
        proof {
            if todo_wf(self@) {
                lemma_wf_steps(self@, Seq::empty(), id@);
            }
        }
        let key = id.to_string();
        if !self.added.contains(&key) {
            return;
        }
        self.clock.increment(self.replica_id);
        self.removed.insert(key);
    }

    /// Hand out the next local todo id.
    fn new_todo_id(&mut self) -> (id: String)
        requires
            old(self).next_local_id < u64::MAX,
        ensures
            final(self)@ == (TodoModel { next_local_id: (old(self).next_local_id + 1) as u64, ..old(self)@ }),
            id@ == todo_id_of(old(self)@.peer_id, (old(self).next_local_id + 1) as nat),
    {
        self.next_local_id = self.next_local_id + 1;
        todo_id(&self.peer_id, self.next_local_id)
    }
}

impl TodoState {
    /// The snapshot that clients see: this peer, its clock counter, and
    /// its shown todos ordered by id.
    pub fn snapshot(&self) -> (m: ServerMessage)
        ensures
            is_snapshot_of(m, self@),
    {
        let ghost s = self@;
        let it0 = self.added.iter();
        let ghost elems = it0.remaining();
        let mut ids: Vec<String> = Vec::new();
        for id in it: it0
            invariant
                s == self@,
                it.seq() == elems,
                views_of(elems.unref()).to_set() == s.added,
                sorted_ids(ids@),
                views_of(ids@).to_set() == views_of(elems.unref().take(it.index())).to_set().filter(
                    shown_in(s),
                ),
        {
            let ghost before = ids@;
            if !self.removed.contains(id) && self.texts.contains_key(id) {
                insert_sorted(&mut ids, id.clone());
            }
            proof {
                let k = it.index();
                let pre = elems.unref().take(k);
                assert(elems.unref().take(k + 1) =~= pre.push(*id));
                assert(views_of(pre.push(*id)) =~= views_of(pre).push(id@));
                lemma_push_to_set(views_of(pre), id@);
                assert(views_of(ids@).to_set() =~= views_of(elems.unref().take(k + 1)).to_set().filter(
                    shown_in(s),
                ));
            }
        }
        proof {
            assert(elems.unref().take(elems.len() as int) =~= elems.unref());
            assert(views_of(ids@).to_set() =~= shown_ids(s));
        }
        let mut todos: Vec<TodoItem> = Vec::new();
        let mut i: usize = 0;
        while i < ids.len()
            invariant
                s == self@,
                i <= ids@.len(),
                sorted_ids(ids@),
                views_of(ids@).to_set() == shown_ids(s),
                todos@.len() == i,
                forall|j: int| 0 <= j < i ==> #[trigger] todos@[j].id@ == ids@[j]@,
                forall|j: int| 0 <= j < i ==> shows(#[trigger] todos@[j], s),
            decreases ids@.len() - i,
        {
            let id = &ids[i];
            proof {
                assert(views_of(ids@)[i as int] == id@);
                assert(views_of(ids@).to_set().contains(id@));
            }
            let text = match self.texts.get(id) {
                Some(t) => t.clone(),
                None => String::new(),
            };
            let completed = match self.completed.get(id) {
                Some(b) => *b,
                None => false,
            };
            let created_by = match self.creators.get(id) {
                Some(c) => c.clone(),
                None => self.peer_id.clone(),
            };
            todos.push(TodoItem { id: id.clone(), text, completed, created_by });
            i = i + 1;
        }
        proof {
            assert forall|id: Seq<char>| shown_ids(s).contains(id) implies exists|k: int|
                0 <= k < todos@.len() && #[trigger] todos@[k].id@ == id by {
                assert(views_of(ids@).to_set().contains(id));
                let k = choose|k: int| 0 <= k < views_of(ids@).len() && views_of(ids@)[k] == id;
                assert(todos@[k].id@ == id);
            }
            assert forall|k: int| 0 <= k < todos@.len() implies shown_ids(s).contains(
                #[trigger] todos@[k].id@,
            ) by {
                assert(views_of(ids@)[k] == ids@[k]@);
            }
        }
        let mut clock: Vec<(String, u64)> = Vec::new();
        clock.push((self.peer_id.clone(), self.clock.get(self.replica_id)));
        let mut peers: Vec<PeerSnapshot> = Vec::new();
        peers.push(
            PeerSnapshot {
                id: self.peer_id.clone(),
                name: peer_name(&self.peer_id),
                online: true,
                clock,
                todos,
            },
        );
        ServerMessage::Snapshot { local_peer_id: self.peer_id.clone(), peers }
    }
}

impl CvRDT for TodoState {
    open spec fn join(a: TodoModel, b: TodoModel) -> TodoModel {
        todo_join(a, b)
    }

    /// Merge another replica's state into this one, part by part.
    fn merge(&mut self, other: &Self)
        ensures
            todo_wf(old(self)@) && todo_wf(other@) ==> todo_wf(final(self)@),
    {
        proof {
            if todo_wf(self@) && todo_wf(other@) {
                lemma_wf_join(self@, other@);
            }
        }
        self.added.merge(&other.added);
        self.removed.merge(&other.removed);
        self.texts.merge_keep(&other.texts);
        self.creators.merge_keep(&other.creators);
        self.completed.merge_or(&other.completed);
        self.clock.merge(&other.clock);
    }
}

impl Clone for TodoState {
    fn clone(&self) -> (c: Self)
        ensures
            c@ == self@,
    {
        TodoState {
            peer_id: self.peer_id.clone(),
            replica_id: self.replica_id,
            next_local_id: self.next_local_id,
            added: self.added.clone(),
            removed: self.removed.clone(),
            texts: self.texts.clone(),
            completed: self.completed.clone(),
            creators: self.creators.clone(),
            clock: self.clock.clone(),
        }
    }
}

impl Default for TodoState {
    fn default() -> (s: Self)
        ensures
            s@ == fresh(Seq::<char>::empty(), 0),
    {
        TodoState::new(String::new(), 0)
    }
}

/// Two states hold the same replicated data: id sets, texts, flags,
/// creators and clock.
pub open spec fn same_replicated(a: TodoModel, b: TodoModel) -> bool {
    &&& a.added == b.added
    &&& a.removed == b.removed
    &&& a.texts == b.texts
    &&& a.completed == b.completed
    &&& a.creators == b.creators
    &&& a.clock == b.clock
}

/// Two states agree on the text and the creator of every todo both know.
pub open spec fn labels_agree(a: TodoModel, b: TodoModel) -> bool {
    &&& forall|id: Seq<char>|
        a.texts.contains_key(id) && b.texts.contains_key(id) ==> #[trigger] a.texts[id]
            == #[trigger] b.texts[id]
    &&& forall|id: Seq<char>|
        a.creators.contains_key(id) && b.creators.contains_key(id) ==> #[trigger] a.creators[id]
            == #[trigger] b.creators[id]
}

/// Merging a state with itself leaves it as it is.
pub proof fn lemma_todo_merge_idempotent(a: TodoModel)
    ensures
        todo_join(a, a) == a,
{
    crate::vector_clock::lemma_clock_merge_idempotent(a.clock);
    assert(a.added.union(a.added) =~= a.added);
    assert(a.removed.union(a.removed) =~= a.removed);
    assert(keep_join(a.texts, a.texts) =~= a.texts);
    assert(keep_join(a.creators, a.creators) =~= a.creators);
    assert(or_join(a.completed, a.completed) =~= a.completed);
}

/// Merging is associative.
pub proof fn lemma_todo_merge_associative(a: TodoModel, b: TodoModel, c: TodoModel)
    ensures
        todo_join(todo_join(a, b), c) == todo_join(a, todo_join(b, c)),
{
    crate::vector_clock::lemma_clock_merge_associative(a.clock, b.clock, c.clock);
    assert(a.added.union(b.added).union(c.added) =~= a.added.union(b.added.union(c.added)));
    assert(a.removed.union(b.removed).union(c.removed) =~= a.removed.union(
        b.removed.union(c.removed),
    ));
    assert(keep_join(keep_join(a.texts, b.texts), c.texts) =~= keep_join(
        a.texts,
        keep_join(b.texts, c.texts),
    ));
    assert(keep_join(keep_join(a.creators, b.creators), c.creators) =~= keep_join(
        a.creators,
        keep_join(b.creators, c.creators),
    ));
    assert(or_join(or_join(a.completed, b.completed), c.completed) =~= or_join(
        a.completed,
        or_join(b.completed, c.completed),
    ));
}

/// Receiving the same peer state again, as anti-entropy rounds do, changes
/// nothing more.
pub proof fn lemma_todo_merge_repeat(a: TodoModel, b: TodoModel)
    ensures
        todo_join(todo_join(a, b), b) == todo_join(a, b),
{
    lemma_todo_merge_associative(a, b, b);
    lemma_todo_merge_idempotent(b);
}

/// Two replicas that merge each other's state hold the same replicated
/// data, provided they agree on the labels of the todos both know and
/// their clocks list only counts above zero.
pub proof fn lemma_todo_merge_converges(a: TodoModel, b: TodoModel)
    requires
        labels_agree(a, b),
        all_positive(a.clock),
        all_positive(b.clock),
    ensures
        same_replicated(todo_join(a, b), todo_join(b, a)),
{
    crate::vector_clock::lemma_clock_merge_commutative(a.clock, b.clock);
    assert(a.added.union(b.added) =~= b.added.union(a.added));
    assert(a.removed.union(b.removed) =~= b.removed.union(a.removed));
    assert(keep_join(a.texts, b.texts) =~= keep_join(b.texts, a.texts));
    assert(keep_join(a.creators, b.creators) =~= keep_join(b.creators, a.creators));
    assert(or_join(a.completed, b.completed) =~= or_join(b.completed, a.completed));
}

/// A deletion survives every merge: a todo deleted on either side is not
/// shown after merging, and a completion seen on either side stays.
pub proof fn lemma_todo_merge_keeps_deletions_and_completions(
    a: TodoModel,
    b: TodoModel,
    id: Seq<char>,
)
    ensures
        a.removed.contains(id) || b.removed.contains(id) ==> !shown_ids(todo_join(a, b)).contains(
            id,
        ),
        flag_at(a.completed, id) || flag_at(b.completed, id) ==> flag_at(
            todo_join(a, b).completed,
            id,
        ),
{
}

/// Every change that a client request makes advances this replica's clock:
/// the old clock happened before the new one.
pub proof fn lemma_apply_advances_clock(s: TodoModel, msg: ClientMessage)
    requires
        apply_fits(s, msg),
        after_apply(s, msg) != s,
    ensures
        causal_order(s.clock, after_apply(s, msg).clock) == Some(Ordering::Less),
{
    crate::vector_clock::lemma_clock_increment_happens_after(s.clock, s.replica_id);
}

/// The replicated parts of a todo list state as plain lists: what peers
/// exchange.
#[derive(Debug, Clone)]
pub struct ReplicatedTodos {
    pub added: Vec<String>,
    pub removed: Vec<String>,
    pub texts: Vec<(String, String)>,
    pub completed: Vec<(String, bool)>,
    pub creators: Vec<(String, String)>,
    pub clock: Vec<(u64, u64)>,
}

/// The set of the views of `ids`.
pub open spec fn set_of(ids: Seq<String>) -> Set<Seq<char>> {
    views_of(ids).to_set()
}

/// `r` carries the replicated data of state `s`.
pub open spec fn carries(r: ReplicatedTodos, s: TodoModel) -> bool {
    &&& set_of(r.added@) == s.added
    &&& set_of(r.removed@) == s.removed
    &&& pairs_map(r.texts@) == s.texts
    &&& pairs_map(r.completed@) == s.completed
    &&& pairs_map(r.creators@) == s.creators
    &&& listed_clock(r.clock@) == s.clock
}

/// The state that a peer rebuilds from the lists `r`: their data, with an
/// empty peer id, clock id 0 and no ids handed out.
pub open spec fn received(r: ReplicatedTodos) -> TodoModel {
    TodoModel {
        peer_id: Seq::<char>::empty(),
        replica_id: 0,
        next_local_id: 0,
        added: set_of(r.added@),
        removed: set_of(r.removed@),
        texts: pairs_map(r.texts@),
        completed: pairs_map(r.completed@),
        creators: pairs_map(r.creators@),
        clock: listed_clock(r.clock@),
    }
}

/// A state rebuilt from the lists that carry another state holds the same
/// replicated data.
pub proof fn lemma_replicated_round_trip(r: ReplicatedTodos, s: TodoModel)
    requires
        carries(r, s),
    ensures
        same_replicated(received(r), s),
{
}

/// The elements of `s`, each once.
fn set_to_vec(s: &GSet<String>) -> (v: Vec<String>)
    ensures
        set_of(v@) == s@,
{
    let it0 = s.iter();
    let ghost elems = it0.remaining();
    let mut v: Vec<String> = Vec::new();
    for id in it: it0
        invariant
            it.seq() == elems,
            views_of(elems.unref()).to_set() == s@,
            v@ == elems.unref().take(it.index()),
    {
        let ghost k = it.index();
        v.push(id.clone());
        proof {
            assert(v@ =~= elems.unref().take(k + 1));
        }
    }
    proof {
        assert(elems.unref().take(elems.len() as int) =~= elems.unref());
    }
    v
}

/// The set of the views of `ids`.
fn set_from_vec(ids: &Vec<String>) -> (s: GSet<String>)
    ensures
        s@ == set_of(ids@),
{
    let mut s: GSet<String> = GSet::new();
    let mut i: usize = 0;
    proof {
        assert(views_of(ids@.subrange(0, 0)).to_set() =~= Set::<Seq<char>>::empty());
    }
    while i < ids.len()
        invariant
            i <= ids@.len(),
            s@ == set_of(ids@.subrange(0, i as int)),
        decreases ids@.len() - i,
    {
        s.insert(ids[i].clone());
        proof {
            assert(views_of(ids@.subrange(0, i as int + 1)) =~= views_of(
                ids@.subrange(0, i as int),
            ).push(ids@[i as int]@));
            lemma_push_to_set(views_of(ids@.subrange(0, i as int)), ids@[i as int]@);
        }
        i = i + 1;
    }
    proof {
        assert(ids@.subrange(0, ids@.len() as int) =~= ids@);
    }
    s
}

impl TodoState {
    /// The replicated parts of this state as plain lists, each id and key
    /// once.
    pub fn replicated(&self) -> (r: ReplicatedTodos)
        ensures
            carries(r, self@),
    {
        ReplicatedTodos {
            added: set_to_vec(&self.added),
            removed: set_to_vec(&self.removed),
            texts: self.texts.entries(),
            completed: self.completed.entries(),
            creators: self.creators.entries(),
            clock: self.clock.entries(),
        }
    }

    /// A state holding the replicated parts `r`, with an empty peer id,
    /// clock id 0 and no ids handed out: the form in which a peer's state
    /// arrives for merging.
    pub fn from_replicated(r: &ReplicatedTodos) -> (s: Self)
        ensures
            s@ == received(*r),
    {
        TodoState {
            peer_id: String::new(),
            replica_id: 0,
            next_local_id: 0,
            added: set_from_vec(&r.added),
            removed: set_from_vec(&r.removed),
            texts: StrMap::from_entries(&r.texts),
            completed: StrMap::from_entries(&r.completed),
            creators: StrMap::from_entries(&r.creators),
            clock: VectorClock::from_entries(&r.clock),
        }
    }
}

/// A well-formed state: its clock lists only counts above zero, its texts
/// and creators cover exactly the added ids, and every deleted id was
/// added.
pub open spec fn todo_wf(s: TodoModel) -> bool {
    &&& all_positive(s.clock)
    &&& s.texts.dom() == s.creators.dom()
    &&& s.texts.dom() == s.added
    &&& s.removed.subset_of(s.added)
}

/// A fresh replica is well formed.
pub proof fn lemma_wf_fresh(peer_id: Seq<char>, replica_id: u64)
    ensures
        todo_wf(fresh(peer_id, replica_id)),
{
    assert(Map::<Seq<char>, Seq<char>>::empty().dom() =~= Set::<Seq<char>>::empty());
}

/// Adding, toggling and deleting keep a state well formed.
pub proof fn lemma_wf_steps(s: TodoModel, text: Seq<char>, id: Seq<char>)
    requires
        todo_wf(s),
    ensures
        add_fits(s, text) ==> todo_wf(after_add(s, text)),
        toggle_fits(s, id) ==> todo_wf(after_toggle(s, id)),
        delete_fits(s, id) ==> todo_wf(after_delete(s, id)),
{
    crate::vector_clock::lemma_clock_stays_positive(s.clock, s.clock, s.replica_id);
    if trimmed(text).len() > 0 {
        assert(after_add(s, text).texts.dom() =~= after_add(s, text).creators.dom());
        assert(after_add(s, text).texts.dom() =~= after_add(s, text).added);
    }
    if s.added.contains(id) {
        assert(after_delete(s, id).removed.subset_of(after_delete(s, id).added));
    }
}

/// Client requests keep a state well formed.
pub proof fn lemma_wf_apply(s: TodoModel, msg: ClientMessage)
    requires
        todo_wf(s),
        apply_fits(s, msg),
    ensures
        todo_wf(after_apply(s, msg)),
{
    match msg {
        ClientMessage::Add { text } => lemma_wf_steps(s, text@, Seq::empty()),
        ClientMessage::Toggle { id } => lemma_wf_steps(s, Seq::empty(), id@),
        ClientMessage::Delete { id } => lemma_wf_steps(s, Seq::empty(), id@),
        ClientMessage::Resync => {},
    }
}

/// Merging two well-formed states gives a well-formed state.
pub proof fn lemma_wf_join(a: TodoModel, b: TodoModel)
    requires
        todo_wf(a),
        todo_wf(b),
    ensures
        todo_wf(todo_join(a, b)),
{
    crate::vector_clock::lemma_clock_stays_positive(a.clock, b.clock, a.replica_id);
    let j = todo_join(a, b);
    assert(j.texts.dom() =~= j.creators.dom());
    assert(j.texts.dom() =~= j.added);
}

/// In a well-formed state every shown todo has a creator, so a snapshot
/// shows the recorded creator of each item.
pub proof fn lemma_shown_have_creators(s: TodoModel, m: ServerMessage)
    requires
        todo_wf(s),
        is_snapshot_of(m, s),
    ensures
        forall|id: Seq<char>| shown_ids(s).contains(id) ==> s.creators.contains_key(id),
        match m {
            ServerMessage::Snapshot { peers, .. } => forall|i: int|
                0 <= i < peers@[0].todos@.len() ==> #[trigger] peers@[0].todos@[i].created_by@
                    == s.creators[peers@[0].todos@[i].id@],
        },
{
    assert forall|id: Seq<char>| shown_ids(s).contains(id) implies s.creators.contains_key(id) by {
        assert(s.texts.dom().contains(id));
    }
    match m {
        ServerMessage::Snapshot { peers, .. } => {
            assert forall|i: int| 0 <= i < peers@[0].todos@.len() implies #[trigger] peers@[0].todos@[i].created_by@
                == s.creators[peers@[0].todos@[i].id@] by {
                assert(shown_ids(s).contains(peers@[0].todos@[i].id@));
                assert(shows(peers@[0].todos@[i], s));
            }
        },
    }
}

/// One thing that happens to a replica: a client request, or merging in
/// another replica's state.
pub enum TodoStep {
    Apply(ClientMessage),
    MergeFrom(TodoModel),
}

/// The state after the steps `steps`, in order.
pub open spec fn run_steps(s: TodoModel, steps: Seq<TodoStep>) -> TodoModel
    decreases steps.len(),
{
    if steps.len() == 0 {
        s
    } else {
        let t = run_steps(s, steps.drop_last());
        match steps.last() {
            TodoStep::Apply(msg) => after_apply(t, msg),
            TodoStep::MergeFrom(o) => todo_join(t, o),
        }
    }
}

/// A deletion is permanent: once a replica has deleted an id, or merged in
/// a state that did, the id stays deleted and is never shown again,
/// whatever requests and merges follow.
pub proof fn lemma_deletion_is_permanent(s: TodoModel, steps: Seq<TodoStep>, id: Seq<char>)
    requires
        s.removed.contains(id),
    ensures
        run_steps(s, steps).removed.contains(id),
        !shown_ids(run_steps(s, steps)).contains(id),
    decreases steps.len(),
{
    if steps.len() > 0 {
        lemma_deletion_is_permanent(s, steps.drop_last(), id);
    }
}

/// Two listings of the same shown ids agree on their first `i` ids.
proof fn lemma_listing_prefix(x: Seq<TodoItem>, y: Seq<TodoItem>, s: TodoModel, t: TodoModel, i: int)
    requires
        lists_todos(x, s),
        lists_todos(y, t),
        shown_ids(s) == shown_ids(t),
        0 <= i <= x.len(),
        i <= y.len(),
    ensures
        forall|k: int| 0 <= k < i ==> #[trigger] x[k].id@ == y[k].id@,
    decreases i,
{
    if i > 0 {
        let m = i - 1;
        lemma_listing_prefix(x, y, s, t, m);
        let a = x[m].id@;
        let b = y[m].id@;
        assert(shown_ids(s).contains(a));
        assert(shown_ids(t).contains(b));
        let j = choose|j: int| 0 <= j < y.len() && #[trigger] y[j].id@ == a;
        let k = choose|k: int| 0 <= k < x.len() && #[trigger] x[k].id@ == b;
        if a != b {
            if j < m {
                assert(x[j].id@ == y[j].id@);
                assert(str_before(x[j].id@, x[m].id@));
                lemma_str_before_irreflexive(a);
            } else if k < m {
                assert(x[k].id@ == y[k].id@);
                assert(str_before(y[k].id@, y[m].id@));
                lemma_str_before_irreflexive(b);
            } else {
                assert(j != m && k != m);
                assert(str_before(y[m].id@, y[j].id@));
                assert(str_before(x[m].id@, x[k].id@));
                lemma_str_before_total(a, b);
            }
        }
    }
}

/// Two listings of the same shown ids list them in the same order.
pub proof fn lemma_listing_unique(x: Seq<TodoItem>, y: Seq<TodoItem>, s: TodoModel, t: TodoModel)
    requires
        lists_todos(x, s),
        lists_todos(y, t),
        shown_ids(s) == shown_ids(t),
    ensures
        x.len() == y.len(),
        forall|k: int| 0 <= k < x.len() ==> #[trigger] x[k].id@ == y[k].id@,
{
    if x.len() < y.len() {
        lemma_listing_prefix(x, y, s, t, x.len() as int);
        let b = y[x.len() as int].id@;
        assert(shown_ids(t).contains(b));
        let k = choose|k: int| 0 <= k < x.len() && #[trigger] x[k].id@ == b;
        assert(x[k].id@ == y[k].id@);
        assert(str_before(y[k].id@, y[x.len() as int].id@));
        lemma_str_before_irreflexive(b);
    } else if y.len() < x.len() {
        lemma_listing_prefix(x, y, s, t, y.len() as int);
        let a = x[y.len() as int].id@;
        assert(shown_ids(s).contains(a));
        let j = choose|j: int| 0 <= j < y.len() && #[trigger] y[j].id@ == a;
        assert(x[j].id@ == y[j].id@);
        assert(str_before(x[j].id@, x[y.len() as int].id@));
        lemma_str_before_irreflexive(a);
    }
    lemma_listing_prefix(x, y, s, t, x.len() as int);
}

/// Well-formed states that hold the same replicated data show the same
/// todos: same ids in the same order, with the same texts, flags and
/// creators.
pub proof fn lemma_snapshots_agree(ma: ServerMessage, a: TodoModel, mb: ServerMessage, b: TodoModel)
    requires
        todo_wf(a),
        todo_wf(b),
        same_replicated(a, b),
        is_snapshot_of(ma, a),
        is_snapshot_of(mb, b),
    ensures
        match (ma, mb) {
            (ServerMessage::Snapshot { peers: pa, .. }, ServerMessage::Snapshot { peers: pb, .. }) => {
                &&& pa@[0].todos@.len() == pb@[0].todos@.len()
                &&& forall|i: int|
                    0 <= i < pa@[0].todos@.len() ==> {
                        &&& #[trigger] pa@[0].todos@[i].id@ == pb@[0].todos@[i].id@
                        &&& pa@[0].todos@[i].text@ == pb@[0].todos@[i].text@
                        &&& pa@[0].todos@[i].completed == pb@[0].todos@[i].completed
                        &&& pa@[0].todos@[i].created_by@ == pb@[0].todos@[i].created_by@
                    }
            },
        },
{
    match (ma, mb) {
        (ServerMessage::Snapshot { peers: pa, .. }, ServerMessage::Snapshot { peers: pb, .. }) => {
            let x = pa@[0].todos@;
            let y = pb@[0].todos@;
            assert(shown_ids(a) =~= shown_ids(b));
            lemma_listing_unique(x, y, a, b);
            assert forall|i: int| 0 <= i < x.len() implies {
                &&& #[trigger] x[i].id@ == y[i].id@
                &&& x[i].text@ == y[i].text@
                &&& x[i].completed == y[i].completed
                &&& x[i].created_by@ == y[i].created_by@
            } by {
                assert(shows(x[i], a));
                assert(shows(y[i], b));
                assert(shown_ids(a).contains(x[i].id@));
                assert(a.texts.dom().contains(x[i].id@));
            }
        },
    }
}

/// State `a` holds no more than state `b`: every id, label, completion
/// and clock count of `a` is in `b`.
pub open spec fn todo_le(a: TodoModel, b: TodoModel) -> bool {
    &&& a.added.subset_of(b.added)
    &&& a.removed.subset_of(b.removed)
    &&& a.texts.submap_of(b.texts)
    &&& a.creators.submap_of(b.creators)
    &&& a.completed.dom().subset_of(b.completed.dom())
    &&& forall|id: Seq<char>| #[trigger] flag_at(a.completed, id) ==> flag_at(b.completed, id)
    &&& dominated_by(a.clock, b.clock)
}

/// Merging two states that agree on the labels of the todos both know
/// gives their least upper bound: it holds both, and every state that
/// holds both holds it.
pub proof fn lemma_todo_merge_least_upper_bound(a: TodoModel, b: TodoModel)
    requires
        labels_agree(a, b),
    ensures
        todo_le(a, todo_join(a, b)),
        todo_le(b, todo_join(a, b)),
        forall|c: TodoModel| todo_le(a, c) && todo_le(b, c) ==> #[trigger] todo_le(todo_join(a, b), c),
{
    let j = todo_join(a, b);
    crate::vector_clock::lemma_clock_merge_least_upper_bound(a.clock, b.clock);
    assert forall|k: Seq<char>| #[trigger] a.texts.dom().contains(k) implies #[trigger] j.texts.dom().contains(k)
        && a.texts[k] == j.texts[k] by {}
    assert forall|k: Seq<char>| #[trigger] b.texts.dom().contains(k) implies #[trigger] j.texts.dom().contains(k)
        && b.texts[k] == j.texts[k] by {}
    assert forall|k: Seq<char>| #[trigger] a.creators.dom().contains(k) implies #[trigger] j.creators.dom().contains(k)
        && a.creators[k] == j.creators[k] by {}
    assert forall|k: Seq<char>| #[trigger] b.creators.dom().contains(k) implies #[trigger] j.creators.dom().contains(k)
        && b.creators[k] == j.creators[k] by {}
    assert forall|c: TodoModel| todo_le(a, c) && todo_le(b, c) implies #[trigger] todo_le(j, c) by {
        assert forall|k: Seq<char>| #[trigger] j.texts.dom().contains(k) implies #[trigger] c.texts.dom().contains(k)
            && j.texts[k] == c.texts[k] by {
            if a.texts.dom().contains(k) {
                assert(a.texts.dom().contains(k) && c.texts.dom().contains(k));
            } else {
                assert(b.texts.dom().contains(k) && c.texts.dom().contains(k));
            }
        }
        assert forall|k: Seq<char>| #[trigger] j.creators.dom().contains(k) implies #[trigger] c.creators.dom().contains(k)
            && j.creators[k] == c.creators[k] by {
            if a.creators.dom().contains(k) {
                assert(a.creators.dom().contains(k) && c.creators.dom().contains(k));
            } else {
                assert(b.creators.dom().contains(k) && c.creators.dom().contains(k));
            }
        }
        assert forall|id: Seq<char>| #[trigger] flag_at(j.completed, id) implies flag_at(c.completed, id) by {
            if flag_at(a.completed, id) {
            } else {
                assert(flag_at(b.completed, id));
            }
        }
    }
}

} // verus!

verus! {

/// Adding a todo: text that is only white space changes nothing. Other text
/// gets the replica's next id, `<peer id>-<n>`, which joins the added ids
/// with the text trimmed, an open flag and this peer as creator; every other
/// todo keeps its text, flag and creator, nothing is deleted, and only this
/// replica's clock count rises, by one. A request to add does the same.
pub proof fn lemma_add_effect(s: TodoModel, text: String)
    ensures
        after_apply(s, (ClientMessage::Add { text })) == after_add(s, text@),
        trimmed(text@).len() == 0 ==> after_add(s, text@) == s,
        trimmed(text@).len() > 0 && s.next_local_id < u64::MAX ==> ({
            let t = after_add(s, text@);
            let n = s.next_local_id + 1;
            let id = s.peer_id + seq!['-'] + decimal(n as nat);
            &&& t.peer_id == s.peer_id
            &&& t.replica_id == s.replica_id
            &&& t.next_local_id == n
            &&& t.added == s.added.insert(id)
            &&& t.removed == s.removed
            &&& t.texts.contains_key(id) && t.texts[id] == trimmed(text@)
            &&& t.completed.contains_key(id) && t.completed[id] == false
            &&& t.creators.contains_key(id) && t.creators[id] == s.peer_id
            &&& t.texts.remove(id) == s.texts.remove(id)
            &&& t.completed.remove(id) == s.completed.remove(id)
            &&& t.creators.remove(id) == s.creators.remove(id)
            &&& forall|r: u64|
                r != s.replica_id ==> #[trigger] count_at(t.clock, r) == count_at(s.clock, r)
            &&& count_at(s.clock, s.replica_id) < u64::MAX ==> count_at(t.clock, s.replica_id)
                == count_at(s.clock, s.replica_id) + 1
        }),
{
    let t = after_add(s, text@);
    if trimmed(text@).len() > 0 && s.next_local_id < u64::MAX {
        let id = s.peer_id + seq!['-'] + decimal((s.next_local_id + 1) as nat);
        assert(t.texts.remove(id) =~= s.texts.remove(id));
        assert(t.completed.remove(id) =~= s.completed.remove(id));
        assert(t.creators.remove(id) =~= s.creators.remove(id));
    }
}

/// Toggling a live todo (added and not deleted), whoever created it, flips
/// its flag: an open todo becomes completed and a completed one open again.
/// No other flag, id, text or creator changes, and only this replica's
/// clock count rises, by one. Toggling any other id changes nothing, and
/// toggling twice gives the flag back. A request to toggle does the same.
pub proof fn lemma_toggle_effect(s: TodoModel, id: String)
    ensures
        after_apply(s, (ClientMessage::Toggle { id })) == after_toggle(s, id@),
        !(s.added.contains(id@) && !s.removed.contains(id@)) ==> after_toggle(s, id@) == s,
        s.added.contains(id@) && !s.removed.contains(id@) ==> ({
            let t = after_toggle(s, id@);
            let before = s.completed.contains_key(id@) && s.completed[id@];
            &&& t.completed.contains_key(id@)
            &&& t.completed[id@] == !before
            &&& t.completed.remove(id@) == s.completed.remove(id@)
            &&& t.peer_id == s.peer_id
            &&& t.replica_id == s.replica_id
            &&& t.next_local_id == s.next_local_id
            &&& t.added == s.added
            &&& t.removed == s.removed
            &&& t.texts == s.texts
            &&& t.creators == s.creators
            &&& forall|r: u64|
                r != s.replica_id ==> #[trigger] count_at(t.clock, r) == count_at(s.clock, r)
            &&& count_at(s.clock, s.replica_id) < u64::MAX ==> count_at(t.clock, s.replica_id)
                == count_at(s.clock, s.replica_id) + 1
        }),
        flag_at(after_toggle(after_toggle(s, id@), id@).completed, id@) == flag_at(s.completed, id@),
{
    let t = after_toggle(s, id@);
    if s.added.contains(id@) && !s.removed.contains(id@) {
        assert(t.completed.remove(id@) =~= s.completed.remove(id@));
    }
}

/// Deleting an added todo, whoever created it, removes it for good: the id
/// joins the deleted ids, so it is no longer live and no snapshot shows it;
/// no id, text, flag or creator changes otherwise, and only this replica's
/// clock count rises, by one. Deleting an id never added changes nothing.
/// A request to delete does the same.
pub proof fn lemma_delete_effect(s: TodoModel, id: String)
    ensures
        after_apply(s, (ClientMessage::Delete { id })) == after_delete(s, id@),
        !s.added.contains(id@) ==> after_delete(s, id@) == s,
        s.added.contains(id@) ==> ({
            let t = after_delete(s, id@);
            &&& t.removed == s.removed.insert(id@)
            &&& t.removed.contains(id@)
            &&& !s.added.filter(|k: Seq<char>| !t.removed.contains(k) && t.texts.contains_key(k)).contains(id@)
            &&& !shown_ids(t).contains(id@)
            &&& t.peer_id == s.peer_id
            &&& t.replica_id == s.replica_id
            &&& t.next_local_id == s.next_local_id
            &&& t.added == s.added
            &&& t.texts == s.texts
            &&& t.completed == s.completed
            &&& t.creators == s.creators
            &&& forall|r: u64|
                r != s.replica_id ==> #[trigger] count_at(t.clock, r) == count_at(s.clock, r)
            &&& count_at(s.clock, s.replica_id) < u64::MAX ==> count_at(t.clock, s.replica_id)
                == count_at(s.clock, s.replica_id) + 1
        }),
{
}

/// What a snapshot of `s` lists: exactly the todos that were added, not
/// deleted and have a text, each once, in strictly increasing byte order of
/// their ids; each with its stored text as it is, its completion flag
/// (open when it has none) and its creator (this peer when it has none);
/// and this replica's clock count.
pub proof fn lemma_snapshot_content(m: ServerMessage, s: TodoModel)
    requires
        is_snapshot_of(m, s),
    ensures
        match m {
            ServerMessage::Snapshot { local_peer_id, peers } => {
                &&& local_peer_id@ == s.peer_id
                &&& peers@.len() == 1
                &&& peers@[0].clock@.len() == 1
                &&& peers@[0].clock@[0].1 == count_at(s.clock, s.replica_id)
                &&& forall|i: int|
                    0 <= i < peers@[0].todos@.len() ==> {
                        let it = #[trigger] peers@[0].todos@[i];
                        &&& s.added.contains(it.id@)
                        &&& !s.removed.contains(it.id@)
                        &&& s.texts.contains_key(it.id@)
                        &&& it.text@ == s.texts[it.id@]
                        &&& it.completed == (s.completed.contains_key(it.id@) && s.completed[it.id@])
                        &&& it.created_by@ == if s.creators.contains_key(it.id@) {
                            s.creators[it.id@]
                        } else {
                            s.peer_id
                        }
                    }
                &&& forall|id: Seq<char>|
                    s.added.contains(id) && !s.removed.contains(id) && s.texts.contains_key(id)
                        ==> exists|i: int|
                        0 <= i < peers@[0].todos@.len() && #[trigger] peers@[0].todos@[i].id@ == id
                &&& forall|i: int, j: int|
                    0 <= i < j < peers@[0].todos@.len() ==> str_before(
                        #[trigger] peers@[0].todos@[i].id@,
                        #[trigger] peers@[0].todos@[j].id@,
                    )
            },
        },
{
    match m {
        ServerMessage::Snapshot { local_peer_id, peers } => {
            let todos = peers@[0].todos@;
            assert forall|i: int| 0 <= i < todos.len() implies {
                let it = #[trigger] todos[i];
                &&& s.added.contains(it.id@)
                &&& !s.removed.contains(it.id@)
                &&& s.texts.contains_key(it.id@)
                &&& it.text@ == s.texts[it.id@]
                &&& it.completed == (s.completed.contains_key(it.id@) && s.completed[it.id@])
                &&& it.created_by@ == if s.creators.contains_key(it.id@) {
                    s.creators[it.id@]
                } else {
                    s.peer_id
                }
            } by {
                assert(shown_ids(s).contains(todos[i].id@));
                assert(shows(todos[i], s));
            }
            assert forall|id: Seq<char>|
                s.added.contains(id) && !s.removed.contains(id) && s.texts.contains_key(id)
                implies exists|i: int| 0 <= i < todos.len() && #[trigger] todos[i].id@ == id by {
                assert(shown_ids(s).contains(id));
            }
        },
    }
}

/// Merging state `b` into `a`: an id is added, or deleted, when it is so in
/// either state; a todo's text and creator are `a`'s when `a` has them and
/// otherwise `b`'s; a todo is completed when it is completed in either
/// state; each clock count is the larger of the two; and `a`'s peer id,
/// clock id and id counter stay.
pub proof fn lemma_merge_effect(a: TodoModel, b: TodoModel)
    ensures
        ({
            let j = todo_join(a, b);
            &&& j.peer_id == a.peer_id
            &&& j.replica_id == a.replica_id
            &&& j.next_local_id == a.next_local_id
            &&& forall|id: Seq<char>|
                #[trigger] j.added.contains(id) == (a.added.contains(id) || b.added.contains(id))
            &&& forall|id: Seq<char>|
                #[trigger] j.removed.contains(id) == (a.removed.contains(id) || b.removed.contains(id))
            &&& forall|id: Seq<char>|
                #[trigger] j.texts.contains_key(id) == (a.texts.contains_key(id) || b.texts.contains_key(id))
            &&& forall|id: Seq<char>|
                #[trigger] j.texts.contains_key(id) ==> j.texts[id] == if a.texts.contains_key(id) {
                    a.texts[id]
                } else {
                    b.texts[id]
                }
            &&& forall|id: Seq<char>|
                #[trigger] j.creators.contains_key(id) == (a.creators.contains_key(id)
                    || b.creators.contains_key(id))
            &&& forall|id: Seq<char>|
                #[trigger] j.creators.contains_key(id) ==> j.creators[id] == if a.creators.contains_key(id) {
                    a.creators[id]
                } else {
                    b.creators[id]
                }
            &&& forall|id: Seq<char>|
                #[trigger] j.completed.contains_key(id) == (a.completed.contains_key(id)
                    || b.completed.contains_key(id))
            &&& forall|id: Seq<char>|
                #[trigger] j.completed.contains_key(id) ==> j.completed[id] == ((a.completed.contains_key(id)
                    && a.completed[id]) || (b.completed.contains_key(id) && b.completed[id]))
            &&& forall|r: u64|
                #[trigger] count_at(j.clock, r) == if count_at(a.clock, r) < count_at(b.clock, r) {
                    count_at(b.clock, r)
                } else {
                    count_at(a.clock, r)
                }
        }),
{
}

} // verus!
