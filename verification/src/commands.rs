//! Decisions the application's commands make before touching the engine.

use vstd::prelude::*;
use crate::audio::opt_view;
use crate::synthetic;

verus! {

/// What a user is told when they try to calibrate against the generator.
pub const NOT_A_MICROPHONE: &'static str = "The signal generator is not an acoustic reference — there is no microphone in the chain, so there is nothing to calibrate against. Open a real input and use a hardware calibrator.";

/// True if the open input is the software generator rather than a device.
pub fn is_synthetic_source(host: Option<&str>) -> (r: bool)
    ensures
        r == synthetic::is_generator_id(opt_view(host)),
{
    synthetic::is_host(host)
}

/// Calibration needs a microphone, and the generator is not one.
///
/// A generated 1 kHz sine passes every gate a calibration run has — steady,
/// on frequency, unclipped, far above the noise — so it would produce an
/// offset invented out of nothing that every later reading inherits. From
/// inside the analysis a calibrator on a capsule and a sine on a wire look
/// the same; only the source knows. `host` is the id of the open input's
/// host, if an input is open.
pub fn refuse_calibration_without_a_microphone(host: Option<&str>) -> (r: Result<(), String>)
    ensures
        synthetic::is_generator_id(opt_view(host)) ==> (r matches Err(m) && m@
            == NOT_A_MICROPHONE@),
        !synthetic::is_generator_id(opt_view(host)) ==> r is Ok,
{
    if is_synthetic_source(host) {
        return Err(String::from_str(NOT_A_MICROPHONE));
    }
    Ok(())
}

} // verus!
