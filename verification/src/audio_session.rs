//! Readying the platform's audio system for a measurement.
//!
//! On iOS an input will not open until the shared audio session has been put
//! into a recording category, and its measurement mode is what keeps the
//! system's automatic gain control out of the reading. Everywhere else there
//! is nothing to do, and this crate builds for everywhere else.

use vstd::prelude::*;

verus! {

/// Prepare the platform's audio system for capture. Called before a device
/// is opened; off iOS it succeeds at once.
pub fn prepare_for_measurement() -> (r: Result<(), String>)
    ensures
        r is Ok,
{
    Ok(())
}

} // verus!
