# raio

Asynchronous I/O with callbacks on a thread of their own: accept connections, read from streams,
write to them and run timers. A callback returns `EventControl::KEEP` to run again and
`EventControl::DELETE` to be taken out of the loop.

- `src/` is the library, verified with Verus: callback tables, the decisions of the event loops over
  a kernel event queue and over `select`, the write queues, the messages of the executor, and
  `Future`, a flag to wait for. Functions whose names begin with `law_` state what holds across
  several calls.
- `app/` makes the system calls, runs the thread and the callbacks, and holds a small server.
- `tests/` runs the library.
