# crdt

Convergent replicated data types (CRDTs) and a replicated todo list built
from them, verified with Verus.

## Layout

- `src/` — the verified library.
  - `clock.rs` — replica ids and dots.
  - `traits.rs` — the `CvRDT` trait: `merge` computes the join of two states.
  - `counter.rs` — `GCounter`, its sum and merge, and the merge laws.
  - `pn_counter.rs` — `PNCounter`, built from two grow-only counters.
  - `g_set.rs` — `GSet` and the `Element` trait for its elements.
  - `vector_clock.rs` — `VectorClock`, its causal order, merge and laws.
  - `state.rs` — `TodoState`: the todo list as a 2P-set of ids with labels,
    completion flags and a vector clock; its snapshot and merge laws.
  - `protocol.rs` — the messages exchanged with clients.
  - `sync.rs` — what a peer does with sync messages and events: merging
    received states, pushing on changes and anti-entropy ticks, reconnecting
    after a failed or ended link, retrying a failed accept; the periods.
  - `session.rs` — what a client's WebSocket session does with each frame.
  - `system.rs` — several replicas with distinct peer ids; the invariant
    that their operations and merges keep, and their convergence.
  - `config.rs` — values derived from a replica's configuration.
  - `text.rs` — trimming, decimal numerals and the byte order of strings.
  - `str_map.rs`, `replica_map.rs`, `seq_facts.rs` — internal helpers.
- `tests/` — tests of the library.
- `app/` — the web server and the TCP sync transport around the library:
  environment, sockets, JSON and bincode encodings.

## Representation choices

- vstd specifies `HashMap` and `HashSet` only for key types that obey its
  hash-table key model, which it grants to integers but not to `String`.
  `GSet` is generic and the todo list uses it with `String` ids, so a
  `HashSet` inside it would leave its contents unspecified. `GSet` keeps
  its elements in a `Vec` with no element twice (a type invariant), and the todo list's string-keyed maps are `StrMap`s: parallel
  `Vec`s of keys and values with no key twice. Counters and vector clocks,
  keyed by `u64`, keep std's `HashMap`.
- For the same reason `PeerSnapshot.clock` is a list of (peer id, counter)
  pairs; `app/` turns it into a JSON object.
- `app/wire.rs` encodes a replica's state for peers as lists in the order of
  its fields. bincode writes a map or a set as its length followed by its
  entries, and a list of pairs as its length followed by the pairs, so the
  bytes are those of the map form; this follows from bincode's encoding
  rules and is not exercised by a test. `TodoState::from_replicated` and
  `VectorClock::from_entries` insert the received pairs in order, so a key
  sent twice takes its later value and a zero clock entry is kept, as
  decoding the map form does.
