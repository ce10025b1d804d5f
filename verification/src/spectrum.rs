//! The real-time analyser's settings that are not measurements.
//!
//! The transforms and the averaging are floating point and live outside this
//! crate; the offered transform sizes and the averaging modes stand here.

use vstd::prelude::*;

verus! {

/// Transform sizes offered. The lower bound keeps a 1/3-octave display
/// honest at 20 Hz; the upper bound is where a 1/48-octave display stops
/// being an interpolation at the bottom of the range.
pub const FFT_SIZES: [usize; 6] = [2048, 4096, 8192, 16384, 32768, 65536];

/// The transform size used when a configuration asks for one not offered.
pub const DEFAULT_FFT_SIZE: usize = 16384;

pub open spec fn is_offered_fft_size(n: usize) -> bool {
    n == 2048 || n == 4096 || n == 8192 || n == 16384 || n == 32768 || n == 65536
}

/// The transform size a configuration actually runs at: the one asked for
/// if it is offered, [`DEFAULT_FFT_SIZE`] if not.
pub fn sanitised_fft_size(n: usize) -> (r: usize)
    ensures
        is_offered_fft_size(r),
        is_offered_fft_size(n) ==> r == n,
        !is_offered_fft_size(n) ==> r == DEFAULT_FFT_SIZE,
{
    let mut i: usize = 0;
    while i < 6
        invariant
            i <= 6,
            forall|k: int| 0 <= k < i ==> FFT_SIZES@[k] != n,
        decreases 6 - i,
    {
        if FFT_SIZES[i] == n {
            return n;
        }
        i = i + 1;
    }
    assert(FFT_SIZES@[0] == 2048 && FFT_SIZES@[1] == 4096 && FFT_SIZES@[2] == 8192
        && FFT_SIZES@[3] == 16384 && FFT_SIZES@[4] == 32768 && FFT_SIZES@[5] == 65536);
    DEFAULT_FFT_SIZE
}

/// Exponential averaging time constants.
#[derive(Debug, Clone, Copy, PartialEq, Eq, Structural)]
pub enum Averaging {
    /// τ = 125 ms.
    Fast,
    /// τ = 1 s.
    Slow,
    /// τ = 4 s.
    Long,
    /// A linear running mean over every frame since the last reset.
    Infinite,
}

impl Averaging {
    pub const ALL: [Averaging; 4] = [
        Averaging::Fast,
        Averaging::Slow,
        Averaging::Long,
        Averaging::Infinite,
    ];

    pub open spec fn label_text(self) -> Seq<char> {
        match self {
            Averaging::Fast => "Fast"@,
            Averaging::Slow => "Slow"@,
            Averaging::Long => "Long"@,
            Averaging::Infinite => "Infinite"@,
        }
    }

    pub fn label(self) -> (r: &'static str)
        ensures
            r@ == self.label_text(),
    {
        match self {
            Averaging::Fast => "Fast",
            Averaging::Slow => "Slow",
            Averaging::Long => "Long",
            Averaging::Infinite => "Infinite",
        }
    }
}

} // verus!
