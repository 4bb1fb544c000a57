//! Telemetry for a kernel-resident task scheduler: per-CPU callback-transition
//! matrices, counter-table reports, event-record decoding, and the run-loop
//! decisions that drive periodic and final reporting.

pub mod errors;
pub mod events;
pub mod names;
pub mod render;
pub mod runloop;
pub mod stats;

use vstd::prelude::*;

verus! {

} // verus!
