//! The signal generator's integer parts: its random number source, and how
//! a mono signal is laid onto one channel of an interleaved output.
//!
//! The signals themselves (noise shaping, sine, sweep, level ramps) are
//! floating point and live outside this crate.

use vstd::prelude::*;
use vstd::wrapping::u64_specs::{wrapping_add, wrapping_mul};
use crate::engine::{clamped_channel, lemma_frame_slot, lemma_whole_frames};

verus! {

/// The seed noise is generated from unless something reseeds it.
pub const DEFAULT_SEED: u64 = 0x5EED;

/// splitmix64's increment, the 64-bit golden ratio.
pub const GOLDEN_GAMMA: u64 = 0x9E3779B97F4A7C15;

/// splitmix64's output function.
pub open spec fn splitmix_mix(z: u64) -> u64 {
    let x = wrapping_mul(z ^ (z >> 30u64), 0xBF58476D1CE4E5B9u64);
    let x = wrapping_mul(x ^ (x >> 27u64), 0x94D049BB133111EBu64);
    x ^ (x >> 31u64)
}

/// The two state words a seed is spread into: the first two outputs of a
/// splitmix64 sequence started one step past the seed.
pub open spec fn seeded_state(seed: u64) -> (u64, u64) {
    let z1 = wrapping_add(wrapping_add(seed, GOLDEN_GAMMA), GOLDEN_GAMMA);
    let z2 = wrapping_add(z1, GOLDEN_GAMMA);
    (splitmix_mix(z1), splitmix_mix(z2))
}

/// One xorshift128+ step: the next state and the value it yields.
pub open spec fn xorshift_step(state: (u64, u64)) -> ((u64, u64), u64) {
    let x0 = state.0;
    let y = state.1;
    let x = x0 ^ (x0 << 23u64);
    let s1 = x ^ y ^ (x >> 17u64) ^ (y >> 26u64);
    ((y, s1), wrapping_add(s1, y))
}

/// The state after `k` values have been drawn from `state`.
pub open spec fn state_after(state: (u64, u64), k: nat) -> (u64, u64)
    decreases k,
{
    if k == 0 {
        state
    } else {
        xorshift_step(state_after(state, (k - 1) as nat)).0
    }
}

/// The `k`-th value (from zero) a generator seeded with `seed` yields.
pub open spec fn nth_value(seed: u64, k: nat) -> u64 {
    xorshift_step(state_after(seeded_state(seed), k)).1
}

/// xorshift128+: deterministic, fast, and good enough for noise. A
/// reproducible sequence is wanted, because it makes the spectrum
/// measurements of generated noise repeatable.
#[derive(Debug, Clone, Copy)]
pub struct Rng {
    s0: u64,
    s1: u64,
}

fn splitmix(z: u64) -> (r: u64)
    ensures
        r == splitmix_mix(z),
{
    let mut x = z;
    x = (x ^ (x >> 30)).wrapping_mul(0xBF58476D1CE4E5B9);
    x = (x ^ (x >> 27)).wrapping_mul(0x94D049BB133111EB);
    x ^ (x >> 31)
}

impl Rng {
    /// The two state words.
    pub closed spec fn state(&self) -> (u64, u64) {
        (self.s0, self.s1)
    }

    /// A generator whose state is spread from `seed` by splitmix64, so that
    /// even a small seed gives a well-mixed start. The state, and so every
    /// value drawn afterwards, depends on the seed alone.
    pub fn new(seed: u64) -> (r: Self)
        ensures
            r.state() == seeded_state(seed),
    {
        let mut z = seed.wrapping_add(GOLDEN_GAMMA);
        z = z.wrapping_add(GOLDEN_GAMMA);
        let s0 = splitmix(z);
        z = z.wrapping_add(GOLDEN_GAMMA);
        let s1 = splitmix(z);
        Rng { s0, s1 }
    }

    /// Draw the next value.
    pub fn next_u64(&mut self) -> (r: u64)
        ensures
            (final(self).state(), r) == xorshift_step(old(self).state()),
    {
        let mut x = self.s0;
        let y = self.s1;
        self.s0 = y;
        x = x ^ (x << 23);
        self.s1 = x ^ y ^ (x >> 17) ^ (y >> 26);
        self.s1.wrapping_add(y)
    }
}

/// Two generators made from the same seed yield the same values, draw for
/// draw: the `k`-th value drawn from a fresh generator is `nth_value(seed, k)`
/// whichever generator it is.
pub proof fn lemma_same_seed_same_values(a: Rng, b: Rng, seed: u64, k: nat)
    requires
        a.state() == seeded_state(seed),
        b.state() == seeded_state(seed),
    ensures
        xorshift_step(state_after(a.state(), k)).1 == nth_value(seed, k),
        xorshift_step(state_after(b.state(), k)).1 == nth_value(seed, k),
{
}

/// Lay `values`, one per frame, onto channel `channel` of the interleaved
/// buffer `out` of `channels` channels, and silence onto every other channel.
///
/// Every other channel is written, not left alone: leaving a slot untouched
/// replays whatever the driver left in it. A channel past the last is taken
/// to mean the last. A partial frame at the end is left as it was, and with
/// no channels nothing is written.
pub fn fill_channel<T: Copy>(
    out: &mut Vec<T>,
    values: &Vec<T>,
    channels: usize,
    channel: usize,
    silence: T,
)
    requires
        values@.len() == if channels == 0 { 0 } else { old(out)@.len() as int / channels as int },
    ensures
        final(out)@.len() == old(out)@.len(),
        forall|f: int, c: int|
            0 <= f < values@.len() && 0 <= c < channels ==> #[trigger] final(out)@[f * channels
                + c] == if c == clamped_channel(channel as nat, channels as nat) {
                values@[f]
            } else {
                silence
            },
        forall|i: int|
            values@.len() * channels <= i < old(out)@.len() ==> #[trigger] final(out)@[i]
                == old(out)@[i],
{
    if channels == 0 {
        return;
    }
    let target = if channel < channels - 1 { channel } else { channels - 1 };
    let n = out.len();
    let frames = n / channels;
    proof {
        lemma_whole_frames(n as int, channels as int);
    }
    let ghost out_before = out@;
    let ghost slot = |i: int|
        if i % (channels as int) == target as int {
            values@[i / (channels as int)]
        } else {
            silence
        };
    let mut f: usize = 0;
    let mut base: usize = 0;
    while f < frames
        invariant
            0 < channels,
            target == clamped_channel(channel as nat, channels as nat),
            n == out@.len(),
            n == out_before.len(),
            frames == n as int / channels as int,
            frames == values@.len(),
            frames * channels <= n,
            f <= frames,
            base == f * channels,
            slot == (|i: int|
                if i % (channels as int) == target as int {
                    values@[i / (channels as int)]
                } else {
                    silence
                }),
            forall|i: int| 0 <= i < base ==> #[trigger] out@[i] == slot(i),
            forall|i: int| base <= i < n ==> #[trigger] out@[i] == out_before[i],
        decreases frames - f,
    {
        let v = values[f];
        let mut c: usize = 0;
        proof {
            lemma_frame_slot(f as int, 0, channels as int, frames as int);
        }
        while c < channels
            invariant
                0 < channels,
                n == out@.len(),
                n == out_before.len(),
                f < frames,
                base == f * channels,
                base + channels <= n,
                c <= channels,
                v == values@[f as int],
                forall|i: int| 0 <= i < base ==> #[trigger] out@[i] == slot(i),
                forall|d: int|
                    0 <= d < c ==> #[trigger] out@[base + d] == if d == target {
                        v
                    } else {
                        silence
                    },
                forall|i: int| base + c <= i < n ==> #[trigger] out@[i] == out_before[i],
            decreases channels - c,
        {
            if c == target {
                out.set(base + c, v);
            } else {
                out.set(base + c, silence);
            }
            c = c + 1;
        }
        proof {
            assert forall|i: int| 0 <= i < base + channels implies #[trigger] out@[i] == slot(i) by {
                if i >= base {
                    let d = i - base;
                    lemma_frame_slot(f as int, d, channels as int, frames as int);
                    assert(out@[base + d] == (if d == target { v } else { silence }));
                }
            }
            lemma_frame_slot(f as int, 0, channels as int, frames as int);
        }
        base = base + channels;
        f = f + 1;
    }
    proof {
        assert forall|g: int, c: int|
            0 <= g < values@.len() && 0 <= c < channels implies #[trigger] out@[g * channels + c]
            == if c == clamped_channel(channel as nat, channels as nat) {
            values@[g]
        } else {
            silence
        } by {
            lemma_frame_slot(g, c, channels as int, frames as int);
            assert(out@[g * channels + c] == slot(g * channels + c));
        }
    }
}

} // verus!
