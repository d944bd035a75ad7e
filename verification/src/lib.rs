//! Causality tracking for a fixed set of message-passing processes, and the
//! decision kernels of two classic fair mutual-exclusion protocols.
//!
//! `order` holds the logical-clock abstraction with three realizations — a
//! vector clock, a knowledge matrix that supports safe garbage collection of
//! causal history, and the marker clock driving a Chandy–Lamport distributed
//! snapshot. `sync` models the shared state of Peterson's and Lamport's
//! bakery mutexes and verifies their entry decisions.

pub mod order;
pub mod sync;
