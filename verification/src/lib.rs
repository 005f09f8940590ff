//! Verified building blocks for a small cooperative task runtime, together
//! with a handful of classic data structures.
//!
//! Everything here is single-owner and deterministic: the run queue, the task
//! slots and the timers are plain values whose every transition carries a
//! contract. Threads, clocks and sockets belong to the program that drives
//! these state machines.

pub mod asynchronous_programming_in_rust;
pub mod data_structures;
pub mod entirely_too_many_lists;
pub mod my_redis;
pub mod tokio_tutorial;
