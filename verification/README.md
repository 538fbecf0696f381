# easyfibers

easyfibers is a coroutine library for asynchronous tasks: fibers are written as if their
sockets blocked, and are scheduled on sockets, timers and DNS lookups. What is scheduled
when is decided by a library that is verified with [Verus](https://github.com/verus-lang/verus).

- `src/` is the library: poller, runners, fibers, the timer wheel, and the resolver's
  messages. It decides and performs nothing; every function states what it decides.
- `src/laws/` states what holds across functions: no timer runs anything early and none is
  lost, a fiber cancels no timer but its own, a fiber that waits for the main stack or for a
  receiver is not run before, results of a child reach its parent and none is overwritten, a
  late lookup does not reach the next fiber in a slot, no two fibers share a stack or a slot.
- `app/` is the runtime around it: it polls sockets with mio, switches stacks with context,
  and does as the library says.
- `tests/` runs the library.

What the proofs rest on besides Verus are the contracts of a few calls into outside crates:
`slab` for the timers (`src/store.rs`), `byteorder` and `rand` for DNS messages
(`src/wire.rs`).

## Levels

- A poller takes in what a socket poll, the resolver and the timers have brought. It also
  knows which execution stacks are not in use. There is one for each thread.
- Runners get events from the poller and run fibers. There can be 20 on a thread, each with
  its own fibers of a particular type.
- Fibers run on a stack of their own, and step out when they would block. A fiber can have
  children, whose results it gets; it can stream results, call the main stack, and hibernate
  without a stack.
