//! A cooperative scheduler, the wake protocol that re-submits parked tasks,
//! and a timer that exercises that protocol.

pub mod executor;
pub mod run_state;
pub mod task;
pub mod timer_future;
