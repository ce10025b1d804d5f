//! Time weightings of the sound level detector.
//!
//! The detectors work on mean squares, in floating point, outside this
//! crate; the choice of time weighting and its name stand here.

use vstd::prelude::*;

verus! {

#[derive(Debug, Clone, Copy, PartialEq, Eq, Structural)]
pub enum TimeWeighting {
    /// τ = 125 ms.
    Fast,
    /// τ = 1 s.
    Slow,
    /// 35 ms rise, 1.5 s decay — the asymmetric one.
    Impulse,
}

impl TimeWeighting {
    pub const ALL: [TimeWeighting; 3] = [
        TimeWeighting::Fast,
        TimeWeighting::Slow,
        TimeWeighting::Impulse,
    ];

    pub open spec fn label_text(self) -> Seq<char> {
        match self {
            TimeWeighting::Fast => "F"@,
            TimeWeighting::Slow => "S"@,
            TimeWeighting::Impulse => "I"@,
        }
    }

    pub fn label(self) -> (r: &'static str)
        ensures
            r@ == self.label_text(),
    {
        match self {
            TimeWeighting::Fast => "F",
            TimeWeighting::Slow => "S",
            TimeWeighting::Impulse => "I",
        }
    }
}

} // verus!
