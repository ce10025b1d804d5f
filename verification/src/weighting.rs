//! Frequency weightings.
//!
//! The curves and filters themselves are floating point and live outside
//! this crate; what stands here is the choice of weighting and its name.

use vstd::prelude::*;

verus! {

/// A frequency weighting.
#[derive(Debug, Clone, Copy, PartialEq, Eq, Hash, Structural)]
pub enum Weighting {
    /// A-weighting. The one every noise limit is written in.
    A,
    /// C-weighting. Flat through the middle, rolled off at the extremes.
    C,
    /// Z-weighting: no weighting at all (IEC 61672 calls this "zero
    /// frequency weighting").
    Z,
}

impl Weighting {
    pub const ALL: [Weighting; 3] = [Weighting::A, Weighting::C, Weighting::Z];

    pub open spec fn label_text(self) -> Seq<char> {
        match self {
            Weighting::A => "A"@,
            Weighting::C => "C"@,
            Weighting::Z => "Z"@,
        }
    }

    pub fn label(self) -> (r: &'static str)
        ensures
            r@ == self.label_text(),
    {
        match self {
            Weighting::A => "A",
            Weighting::C => "C",
            Weighting::Z => "Z",
        }
    }
}

} // verus!
