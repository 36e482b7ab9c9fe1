//! The planner's only contact with the wall clock.
//!
//! The search loop is budgeted in wall-clock time, so it reads a monotonic
//! clock once per popped node.  Nothing is promised about the values read:
//! every caller must be correct for any elapsed time.

use vstd::prelude::*;

verus! {

#[verifier::external_type_specification]
#[verifier::external_body]
pub struct ExInstant(std::time::Instant);

/// Relies on std::time::Instant::now: an opaque monotonic timestamp.
pub assume_specification[ std::time::Instant::now ]() -> (r: std::time::Instant);

/// Relies on std::time::Instant::elapsed: the wall-clock time since `start`,
/// here converted to whole microseconds and saturated at `u64::MAX`.
/// No contract: the elapsed time depends on the machine, not the arguments.
#[verifier::external_body]
pub(crate) fn elapsed_micros(start: &std::time::Instant) -> (r: u64) {
    let micros = start.elapsed().as_micros();
    if micros > u64::MAX as u128 {
        u64::MAX
    } else {
        micros as u64
    }
}

} // verus!
