# raft_storage

A Raft node and the storage and network layers it runs on.

- `src/` is the verified library (Verus): the node's timer handling
  (`raft`), the command queue a process writes to and the `Process` trait
  (`storage::logic`), the wire framing, connection ids and network types
  (`storage::nio`), and the position bookkeeping of file transfers
  (`storage::dio`).
- `app/` is the program around it: the event loop, sockets, timers, files,
  and a small demo process.
- `tests/` runs the library on concrete values.
