//! Analysis windows: which one, and how the user interface describes it.

use vstd::prelude::*;

verus! {

#[derive(Debug, Clone, Copy, PartialEq, Eq, Structural)]
pub enum WindowKind {
    Hann,
    Hamming,
    BlackmanHarris,
    FlatTop,
    Rectangular,
}

impl WindowKind {
    pub const ALL: [WindowKind; 5] = [
        WindowKind::Hann,
        WindowKind::Hamming,
        WindowKind::BlackmanHarris,
        WindowKind::FlatTop,
        WindowKind::Rectangular,
    ];

    pub open spec fn label_text(self) -> Seq<char> {
        match self {
            WindowKind::Hann => "Hann"@,
            WindowKind::Hamming => "Hamming"@,
            WindowKind::BlackmanHarris => "Blackman-Harris"@,
            WindowKind::FlatTop => "Flat-top"@,
            WindowKind::Rectangular => "Rectangular"@,
        }
    }

    pub fn label(self) -> (r: &'static str)
        ensures
            r@ == self.label_text(),
    {
        match self {
            WindowKind::Hann => "Hann",
            WindowKind::Hamming => "Hamming",
            WindowKind::BlackmanHarris => "Blackman-Harris",
            WindowKind::FlatTop => "Flat-top",
            WindowKind::Rectangular => "Rectangular",
        }
    }

    pub open spec fn blurb_text(self) -> Seq<char> {
        match self {
            WindowKind::Hann => "General purpose. The default for music and noise."@,
            WindowKind::Hamming => "Slightly sharper than Hann, with a sidelobe shelf."@,
            WindowKind::BlackmanHarris => "4-term. Buys -92 dB sidelobes with a wider main lobe — use it to see a small tone next to a loud one."@,
            WindowKind::FlatTop => "Amplitude-accurate to ~0.01 dB regardless of where a tone falls between bins. Poor frequency resolution — for level calibration, not for looking at spectra."@,
            WindowKind::Rectangular => "No window at all. Best resolution, worst leakage. Only correct for signals periodic in the frame."@,
        }
    }

    /// One-line description, surfaced in the UI so the choice is not a
    /// mystery.
    pub fn blurb(self) -> (r: &'static str)
        ensures
            r@ == self.blurb_text(),
    {
        match self {
            WindowKind::Hann => "General purpose. The default for music and noise.",
            WindowKind::Hamming => "Slightly sharper than Hann, with a sidelobe shelf.",
            WindowKind::BlackmanHarris => "4-term. Buys -92 dB sidelobes with a wider main lobe — use it to see a small tone next to a loud one.",
            WindowKind::FlatTop => "Amplitude-accurate to ~0.01 dB regardless of where a tone falls between bins. Poor frequency resolution — for level calibration, not for looking at spectra.",
            WindowKind::Rectangular => "No window at all. Best resolution, worst leakage. Only correct for signals periodic in the frame.",
        }
    }
}

} // verus!
