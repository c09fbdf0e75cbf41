//! A time-slot task scheduler: tasks are indexed by slot, promoted into an
//! execution queue once per tick, drained under a cost budget, and demoted to
//! a missed backlog when their tick ends before they ran.
use vstd::prelude::*;

pub mod laws;
pub mod migration;
pub mod scheduler;
pub mod weights;

verus! {

} // verus!
