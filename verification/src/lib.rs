//! Futures, executors and green-thread scheduling, written as explicit state
//! machines whose every step carries a contract.
//!
//! The futures: `state_machine` (the first hand-polled sleep), `simple`
//! (sleeps and random numbers that answer with text), `composition` and
//! `pinning` (futures made of other futures), `type_erased` (futures with a
//! typed output). The executors: `basic_runtime`, `simple_runtime` (with
//! result handles), `waker_runtime` (polls on wake-up), `mio_runtime`
//! (readiness events), `full_runtime` (futures of any type, as tasks), and
//! `fibers` (green-thread scheduling). `dispatch` holds the request policy of
//! the blocking example. `clock`, `random`, `text` and `slot` are the
//! shared pieces.

pub mod clock;
pub mod random;
pub mod slot;
pub mod text;

pub mod state_machine;
pub mod simple;
pub mod composition;
pub mod pinning;
pub mod type_erased;

pub mod basic_runtime;
pub mod simple_runtime;
pub mod waker_runtime;
pub mod mio_runtime;
pub mod full_runtime;
pub mod fibers;

pub mod dispatch;
