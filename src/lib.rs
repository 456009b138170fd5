//! A deterministic scheduler for driving concurrent code in tests.
//!
//! All scheduling decisions draw from one seeded generator, so a run can be
//! replayed from its seed. The shared state and every decision that the
//! scheduler makes are verified here; executing a unit of work is left to the
//! caller, which holds the state behind a lock and releases it while the unit
//! runs.

mod diagnostics;
pub mod model;
mod rng;
pub mod scheduler;
pub mod yield_point;

pub use scheduler::TestDispatcherState;
pub use yield_point::YieldNow;
