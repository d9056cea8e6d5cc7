# noobkio

Small futures, hand-written executors and a green-thread scheduler, with the
decisions of each written as a state machine whose steps are verified with
Verus.

- `src/`: the verified library. Futures (`state_machine`, `simple`,
  `composition`, `pinning`, `type_erased`), executors (`basic_runtime`,
  `simple_runtime`, `waker_runtime`, `mio_runtime`, `full_runtime`), the
  scheduler of green threads (`fibers`) and the request policy of the tokio
  example (`dispatch`).
- `app/`: the example programs. They drive the executors in loops that last
  as long as the futures take, talk to sockets through mio, run tokio, and
  switch the registers of green threads on AArch64.
- `tests/`: tests of the library on concrete values.

Run an example with its name as the first argument, for instance
`pinning` or `mio-runtime`.
