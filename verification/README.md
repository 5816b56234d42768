# raft

A node of the Raft consensus protocol, as a verified Verus library: elections with and
without a round of pre-votes, log replication, snapshots, leadership transfer, linearizable
reads, and membership changes through joint consensus.

The application drives a `RawNode`. It hands in messages and ticks, and takes out what is to
be saved, sent and applied. Nothing in the library does input or output.

## Layout

- `src/raft_model.rs` says what each operation makes of a node, as a function from state to
  state. Beside each such function a predicate with the suffix `_ok` says on which inputs the
  operation is defined.
- `src/raft.rs` and `src/raw_node.rs` hold the operations. Each is proved to do what the model
  says, and to keep the invariant of the node.
- `src/raft_facts.rs` and `src/laws.rs` hold what follows from the model: terms only grow, a
  node votes once in a term, what is committed stays, and so on.
- The other modules are the parts: the log, the progress of the peers, the waiting reads, the
  messages and their encoding.

What is believed without proof stands in `src/collections.rs` (hash maps and sets),
`src/codec.rs` (the primitives of the protobuf encoding) and `random_between` in `src/raft.rs`;
and, of the application, that its `Storage` answers the same question the same way while it is
not changed.

The randomized election timeout is the one part of a node that is left to chance. The model
does not hold it: the operations say that it stays in its range. `reset`, and with it
`become_follower`, `become_candidate` and `become_leader`, draws it anew each time; the messages
and ticks that a node handles leave it as it is, unless they change its term or its role.
