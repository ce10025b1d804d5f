//! Input paths whose sensitivity is specified rather than measured.
//!
//! A hardware calibrator answers how many dB SPL full scale is on this
//! capsule, input and gain, and nothing here replaces one. But on Android a
//! device declaring support for the unprocessed audio source must, by the
//! platform's compatibility requirements, read a 1 kHz tone at 94 dB SPL as
//! −36 dB full scale. That is a calibration: offset = 94 − (−36) = 130 dB.
//! Where nothing vouches for the gain of the chain, the answer is dBFS.
//!
//! iOS can be made deterministic but publishes no sensitivity figure, so its
//! table is empty on purpose: a plausible-looking number would be the worst
//! thing it could hold, because a wrong offset is invisible afterwards.

use vstd::prelude::*;

verus! {

/// The reference level the Android requirement is stated against, dB SPL.
pub const CDD_REFERENCE_SPL_DB: i32 = 94;

/// The response the requirement demands at that level, dB full scale.
pub const CDD_REFERENCE_DBFS: i32 = -36;

/// dBFS to dB SPL offset for a compliant Android unprocessed input. Written
/// as the subtraction so the two published figures stay visible.
pub const ANDROID_UNPROCESSED_OFFSET_DB: i32 = CDD_REFERENCE_SPL_DB - CDD_REFERENCE_DBFS;

/// Per-model offsets measured on iOS hardware with a calibrator. Empty until
/// someone has stood a calibrator on a specific model.
pub const IOS_PROFILES: [(&'static str, i32); 0] = [];

/// Which capture path the samples are actually arriving through.
///
/// On Android the platform guarantee attaches to one audio source, not to
/// the operating system, so nothing may assume the unprocessed path: it has
/// to have been asked for and granted.
#[derive(Debug, Clone, Copy, PartialEq, Eq, Structural)]
pub enum InputPath {
    /// Android's unprocessed source, on a device that reports supporting it.
    AndroidUnprocessed,
    /// Everything else: dBFS only, unless the user runs a calibrator.
    Unknown,
}

/// How an offset is known.
#[derive(Debug, Clone, Copy, PartialEq, Eq, Structural)]
pub enum CalibrationSource {
    /// A calibrator on this microphone, input and gain.
    Calibrator,
    /// A platform's published requirement for a class of devices.
    PlatformSpec,
}

impl CalibrationSource {
    /// Whether the offset was measured on this very unit, rather than
    /// promised for a class of devices.
    pub fn is_unit_specific(self) -> (r: bool)
        ensures
            r == (self == CalibrationSource::Calibrator),
    {
        match self {
            CalibrationSource::Calibrator => true,
            CalibrationSource::PlatformSpec => false,
        }
    }
}

/// A sensitivity known without measuring it.
#[derive(Debug, Clone, Copy, PartialEq, Eq)]
pub struct InputProfile {
    /// Add this to a dBFS level to get dB SPL.
    pub offset_db: i32,
    /// How the offset is known.
    pub source: CalibrationSource,
    /// What is actually guaranteed, for display next to the reading.
    pub note: &'static str,
}

/// What the Android profile tells the user it rests on.
pub const ANDROID_NOTE: &'static str = "Android unprocessed input: sensitivity fixed by the platform specification at 94 dB SPL = −36 dBFS. Not a substitute for a calibrator.";

/// The profile for a capture path, if its sensitivity is known; `None`
/// means dBFS.
pub fn profile_for(path: InputPath) -> (r: Option<InputProfile>)
    ensures
        path == InputPath::Unknown ==> r is None,
        path == InputPath::AndroidUnprocessed ==> (r matches Some(p) && p.offset_db == 130
            && p.source == CalibrationSource::PlatformSpec && p.note@ == ANDROID_NOTE@),
{
    match path {
        InputPath::AndroidUnprocessed => Some(
            InputProfile {
                offset_db: ANDROID_UNPROCESSED_OFFSET_DB,
                source: CalibrationSource::PlatformSpec,
                note: ANDROID_NOTE,
            },
        ),
        InputPath::Unknown => None,
    }
}

/// The capture path currently in use: always the unknown one, until the
/// Android capture path can really request the unprocessed source.
pub fn current_input_path() -> (r: InputPath)
    ensures
        r == InputPath::Unknown,
{
    InputPath::Unknown
}

} // verus!
