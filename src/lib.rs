//! The core of a single-threaded cooperative runtime: the scheduler's queue
//! of ready tasks and its step-by-step main loop, the reactor's registration
//! bookkeeping for readiness events, task identifiers, and `Select`.
use vstd::prelude::*;

pub mod helpers;
pub mod reactor;
pub mod scheduler;
pub mod task;

verus! {

} // verus!
