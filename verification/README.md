# uchan

A small, unbounded channel from many senders to one receiver, with its behaviour proved in Verus.

- `src/` is the library: the queue of linked blocks, the two halves of a channel, the parker, and
  the proofs. `src/state.rs` says what the memory of a queue means and what each access does to
  it, `src/protocol.rs` and `src/counts.rs` what holds when many threads are at work, and
  `src/laws.rs` what the channel promises for every order of their accesses. `src/wait.rs` and
  `src/calls.rs` say what it promises of receives that wait, and of operations made one after the
  other.
- `app/` is the channel as programs use it: halves that share the queue behind a lock, errors that
  can be printed, events on `std::thread`, and a benchmark against other channels.
- `tests/` runs the library.
