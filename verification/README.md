# lightr-cri

The logic of a container runtime for Kubernetes nodes, written in Verus and proved against its
contracts. The library decides and computes; it never touches a file, a process, a socket or the
clock. Whoever drives it does that, and says what came of it.

- `src/fake/` is the file-backed backend: sandboxes, containers, images, commands and statistics.
  Operations that need the host in their middle (start, stop, remove, exec) are small machines: each
  step takes an event and gives the next action. `history.rs` states what holds after any calls.
- `src/shell/` turns requests of the runtime interface into backend calls, and reports into
  responses.
- `src/stream/` holds streaming sessions: tokens, SPDY frames, exec and attach, port forwarding.
- `src/net/` holds pod networking: when it is available, namespaces, the order of plugins.
- `src/vectors.rs`, `src/server.rs` and `src/acceptance.rs` hold conformance vectors, arguments and
  acceptance runs.
- `src/text.rs`, `src/words.rs`, `src/text_map.rs`, `src/seqs.rs`, `src/calendar.rs` and `src/log.rs`
  are what the rest is built on.

Contracts speak of views: a record, a configuration or a backend is seen as plain sequences and
maps. What holds across calls is stated in proof functions whose names begin with `law_`.

`app/` drives the library on a real host; `tests/` drives it on one that lives in memory.
