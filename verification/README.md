# hocuspocu_rs

A collaborative-editing server for Yjs documents that speaks the Hocuspocus
protocol over WebSockets.

- `src/` is the verified library: the lib0 wire encoding and the protocol's
  messages, fragmentation of large messages and their reassembly, and the
  decisions of the server — what a client socket's messages ask for, what a
  document connection does with a message, which documents are loaded,
  stored and unloaded, when debounced work runs, and in which order
  extensions run. Before a read-only client's update is handed to yrs for
  its state vector, `update_shape` checks its layout byte by byte; an update
  outside the bounds that module lists (among them those on which taking the
  state vector would panic) is counted as new, and is not acknowledged as
  saved. Each function states its behaviour in `requires`/`ensures`
  and Verus proves it; the laws that relate several functions (encoding
  round trips, fragmentation round trip, ordering of queued messages,
  bounded postponement of stores, ...) are proof functions.
- `app/` is the asynchronous server around it: sockets, tasks and timers,
  the Yjs documents themselves, and the extensions' hooks.
- `tests/` exercise the library on concrete values.
