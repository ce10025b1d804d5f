//! Which input channel the measurement engine listens to.
//!
//! The engine's filters, detectors and accumulators are floating point and
//! live outside this crate. Choosing the channel, and taking it out of an
//! interleaved buffer, is indexing, and stands here.

use vstd::prelude::*;

verus! {

/// Which input channel the measurement comes from.
#[derive(Debug, Clone, Copy, PartialEq, Eq, Structural)]
pub enum ChannelSelect {
    /// One channel, counted from zero.
    Channel { index: usize },
    /// The mean of every channel: the mean, not the sum, so two channels
    /// carrying the same microphone read the same level as one.
    Mix,
}

impl Default for ChannelSelect {
    fn default() -> (r: Self)
        ensures
            r == (ChannelSelect::Channel { index: 0 }),
    {
        ChannelSelect::Channel { index: 0 }
    }
}

/// The channel a selection of `index` reads on a stream of `channels`: the
/// one asked for, or the last if there are not that many.
pub open spec fn clamped_channel(index: nat, channels: nat) -> nat {
    if index < channels {
        index
    } else {
        (channels - 1) as nat
    }
}

impl ChannelSelect {
    /// The input channel this selection reads on a stream of `channels`
    /// channels, or `None` when it mixes them all.
    pub fn source_channel(self, channels: usize) -> (r: Option<usize>)
        requires
            channels > 0,
        ensures
            match self {
                ChannelSelect::Channel { index } => r == Some(
                    clamped_channel(index as nat, channels as nat) as usize,
                ),
                ChannelSelect::Mix => r is None,
            },
    {
        match self {
            ChannelSelect::Channel { index } => {
                if index < channels - 1 {
                    Some(index)
                } else {
                    Some(channels - 1)
                }
            },
            ChannelSelect::Mix => None,
        }
    }
}

/// Slot `f * channels + c` of an interleaved buffer holds frame `f` of
/// channel `c`, and lies inside a buffer of `frames` whole frames.
pub(crate) proof fn lemma_frame_slot(f: int, c: int, channels: int, frames: int)
    requires
        0 <= f < frames,
        0 <= c < channels,
    ensures
        (f * channels + c) / channels == f,
        (f * channels + c) % channels == c,
        0 <= f * channels + c < frames * channels,
        f * channels + channels <= frames * channels,
        (f + 1) * channels == f * channels + channels,
{
    vstd::arithmetic::div_mod::lemma_fundamental_div_mod_converse(
        f * channels + c,
        channels,
        f,
        c,
    );
    assert(f * channels + channels <= frames * channels) by (nonlinear_arith)
        requires
            0 <= f < frames,
            0 < channels,
    ;
    assert((f + 1) * channels == f * channels + channels) by (nonlinear_arith);
    assert(0 <= f * channels) by (nonlinear_arith)
        requires
            0 <= f,
            0 < channels,
    ;
}

/// Whole frames in an interleaved buffer of `len` samples take up
/// `len / channels * channels` of them.
pub(crate) proof fn lemma_whole_frames(len: int, channels: int)
    requires
        0 <= len,
        0 < channels,
    ensures
        len / channels * channels <= len,
        0 <= len / channels,
{
    vstd::arithmetic::div_mod::lemma_fundamental_div_mod(len, channels);
    vstd::arithmetic::div_mod::lemma_mod_pos_bound(len, channels);
    vstd::arithmetic::div_mod::lemma_div_pos_is_pos(len, channels);
    assert(len / channels * channels == channels * (len / channels)) by (nonlinear_arith);
}

/// One channel of an interleaved buffer, frame by frame. A partial frame at
/// the end is ignored.
pub fn pick_channel<T: Copy>(samples: &[T], channels: usize, channel: usize) -> (r: Vec<T>)
    requires
        channel < channels,
    ensures
        r@.len() == samples@.len() as int / channels as int,
        forall|f: int|
            0 <= f < r@.len() ==> #[trigger] r@[f] == samples@[f * channels + channel],
{
    let n = samples.len();
    let frames = n / channels;
    proof {
        lemma_whole_frames(samples@.len() as int, channels as int);
    }
    let mut out: Vec<T> = Vec::new();
    let mut f: usize = 0;
    let mut base: usize = 0;
    while f < frames
        invariant
            channel < channels,
            n == samples@.len(),
            frames == samples@.len() as int / channels as int,
            frames * channels <= samples@.len(),
            f <= frames,
            base == f * channels,
            out@.len() == f,
            forall|k: int| 0 <= k < f ==> #[trigger] out@[k] == samples@[k * channels + channel],
        decreases frames - f,
    {
        proof {
            lemma_frame_slot(f as int, channel as int, channels as int, frames as int);
        }
        out.push(samples[base + channel]);
        base = base + channels;
        f = f + 1;
    }
    out
}

} // verus!
