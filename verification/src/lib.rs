//! A fixed-size worker pool: a shared queue of pending tasks with a stop
//! flag, the decision logic a worker runs under the pool's lock, and proofs
//! that every accepted task is handed out exactly once, in last-in-first-out
//! order, and that a drained pool has executed everything it accepted.
//! Two side modules hold the computational parts of the surrounding
//! program: a prime search split across threads by striding, and a small
//! request/response formatter.

pub mod model;
pub mod pool;
pub mod primes;
pub mod http;
