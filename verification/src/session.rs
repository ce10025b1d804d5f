//! What the interface is told about the running measurement.

use vstd::prelude::*;
use crate::audio::StreamInfo;

verus! {

/// The state of the measurement session.
#[derive(Debug, Clone)]
pub struct SessionStatus {
    pub running: bool,
    /// The open stream, if any.
    pub stream: Option<StreamInfo>,
    /// Frames the audio callback had to throw away because the analysis fell
    /// behind. Non-zero means time is missing and every LEQ is suspect.
    pub dropped_frames: u64,
    pub stream_errors: u64,
}

impl SessionStatus {
    /// The status of a session, from the open capture's counters (dropped
    /// frames, stream errors) if a capture is open, and the stream it
    /// settled on. With no capture open nothing is running and nothing has
    /// been dropped.
    pub fn from_counters(counters: Option<(u64, u64)>, stream: Option<StreamInfo>) -> (r: Self)
        ensures
            r.running == counters is Some,
            r.stream == stream,
            r.dropped_frames == match counters {
                Some(c) => c.0,
                None => 0,
            },
            r.stream_errors == match counters {
                Some(c) => c.1,
                None => 0,
            },
    {
        let (dropped_frames, stream_errors) = match counters {
            Some(c) => c,
            None => (0, 0),
        };
        SessionStatus { running: counters.is_some(), stream, dropped_frames, stream_errors }
    }
}

/// Samples taken from the ring per pass of the analysis loop, at most.
pub const ANALYSIS_CHUNK: usize = 4096;

/// How many of the `available` samples the analysis takes in one pass: as
/// many as fit in [`ANALYSIS_CHUNK`], rounded down to whole frames of
/// `channels` samples. A partial frame would shift the channel interleaving
/// by one and silently swap left for right for the rest of the run.
pub fn whole_frames(available: usize, channels: usize) -> (r: usize)
    requires
        channels > 0,
    ensures
        r <= available,
        r <= ANALYSIS_CHUNK,
        r % channels == 0,
        r + channels > (if available < ANALYSIS_CHUNK { available } else { ANALYSIS_CHUNK }),
{
    let m = if available < ANALYSIS_CHUNK { available } else { ANALYSIS_CHUNK };
    let q = m / channels;
    proof {
        vstd::arithmetic::div_mod::lemma_fundamental_div_mod(m as int, channels as int);
        vstd::arithmetic::div_mod::lemma_mod_pos_bound(m as int, channels as int);
        assert(q * channels <= m) by (nonlinear_arith)
            requires
                m as int == channels * q + m as int % channels as int,
                0 <= m as int % channels as int,
        ;
        assert(q * channels + channels > m) by (nonlinear_arith)
            requires
                m as int == channels * q + m as int % channels as int,
                (m as int % channels as int) < channels,
        ;
        vstd::arithmetic::div_mod::lemma_mod_multiples_basic(q as int, channels as int);
    }
    q * channels
}


/// How often the interface is sent a frame, in milliseconds: fast enough
/// that a meter looks continuous. Frames go out on the clock while samples
/// are integrated as they arrive, so a slow interface never makes the
/// analysis skip audio.
pub const FRAME_INTERVAL_MS: u64 = 33;

/// What one pass of the analysis loop does.
#[derive(Debug, Clone, Copy)]
pub struct AnalysisStep {
    /// Samples to take from the ring: whole frames, at most a chunk.
    pub read: usize,
    /// Nothing to read: sleep briefly instead of spinning.
    pub idle: bool,
    /// A frame is due for the interface.
    pub emit_frame: bool,
}

/// One pass of the analysis loop, with `available` samples waiting in the
/// ring of a `channels`-channel stream and `since_frame_ms` milliseconds
/// since the last frame went out: read [`whole_frames`] of what is waiting,
/// idle when that is nothing, and send a frame once [`FRAME_INTERVAL_MS`]
/// has passed.
pub fn analysis_step(available: usize, channels: usize, since_frame_ms: u64) -> (r: AnalysisStep)
    requires
        channels > 0,
    ensures
        ({
            let m = if available < ANALYSIS_CHUNK { available } else { ANALYSIS_CHUNK };
            r.read == m / channels * channels
        }),
        r.idle == (r.read == 0),
        r.emit_frame == (since_frame_ms >= FRAME_INTERVAL_MS),
{
    let read = whole_frames(available, channels);
    proof {
        let m = if available < ANALYSIS_CHUNK { available as int } else { ANALYSIS_CHUNK as int };
        let c = channels as int;
        let q = read as int / c;
        vstd::arithmetic::div_mod::lemma_fundamental_div_mod(read as int, c);
        assert(read as int == q * c) by (nonlinear_arith)
            requires
                read as int == c * q + read as int % c,
                read as int % c == 0,
        ;
        assert(q * c <= m && m < q * c + c);
        vstd::arithmetic::div_mod::lemma_fundamental_div_mod_converse(m, c, q, m - q * c);
    }
    AnalysisStep { read, idle: read == 0, emit_frame: since_frame_ms >= FRAME_INTERVAL_MS }
}

} // verus!
