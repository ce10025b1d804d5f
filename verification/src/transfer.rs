//! The dual-channel transfer function's integer machinery.
//!
//! The spectra, the estimator and the stitching are floating point and live
//! outside this crate. What stands here is what decides the transform lengths
//! and the delay line that holds the reference back so it lines up with the
//! measurement.

use vstd::prelude::*;

verus! {

/// Coherence is undefined on a single frame. Below this many, nothing is
/// reported rather than reporting a confident-looking 1.0.
pub const MIN_FRAMES_FOR_COHERENCE: u64 = 4;

/// Largest transform used: at 48 kHz, 1.37 s and 0.73 Hz bins.
pub const MAX_FFT: usize = 65536;

/// Smallest transform. Below this the window is shorter than the impulse
/// response of most rooms.
pub const MIN_FFT: usize = 256;

/// Longest delay the reference can be held back by: 2.7 s at 48 kHz.
pub const MAX_DELAY_SAMPLES: usize = 131072;

/// How the cross-spectra are averaged.
#[derive(Debug, Clone, Copy, PartialEq, Eq, Structural)]
pub enum TfAveraging {
    /// Exponential, over about four frames.
    Fast,
    /// Exponential, over about sixteen frames.
    Slow,
    /// Exponential, over about sixty-four frames.
    Long,
    /// Linear running mean since the last reset: the one to use for a
    /// measurement that should stop moving.
    Infinite,
}

impl TfAveraging {
    pub const ALL: [TfAveraging; 4] = [
        TfAveraging::Fast,
        TfAveraging::Slow,
        TfAveraging::Long,
        TfAveraging::Infinite,
    ];

    pub open spec fn label_text(self) -> Seq<char> {
        match self {
            TfAveraging::Fast => "Fast"@,
            TfAveraging::Slow => "Slow"@,
            TfAveraging::Long => "Long"@,
            TfAveraging::Infinite => "Infinite"@,
        }
    }

    pub fn label(self) -> (r: &'static str)
        ensures
            r@ == self.label_text(),
    {
        match self {
            TfAveraging::Fast => "Fast",
            TfAveraging::Slow => "Slow",
            TfAveraging::Long => "Long",
            TfAveraging::Infinite => "Infinite",
        }
    }
}

/// `p` is one of 1, 2, 4, 8, ...
pub open spec fn is_power_of_two(p: nat) -> bool
    decreases p,
{
    if p == 1 {
        true
    } else if p >= 2 && p % 2 == 0 {
        is_power_of_two(p / 2)
    } else {
        false
    }
}

/// `p` is the smallest power of two that is at least `n`.
pub open spec fn is_next_power_of_two(p: nat, n: nat) -> bool {
    &&& is_power_of_two(p)
    &&& n <= p
    &&& (p == 1 || p / 2 < n)
}

/// No power of two lies strictly between `q / 2` and `q`.
proof fn lemma_power_of_two_gap(p: nat, q: nat)
    requires
        is_power_of_two(p),
        is_power_of_two(q),
        p < q,
    ensures
        p <= q / 2,
    decreases q,
{
    if p == 1 {
        assert(q >= 2);
    } else {
        lemma_power_of_two_gap(p / 2, q / 2);
    }
}

/// There is only one smallest power of two not below `n`.
pub proof fn lemma_next_power_of_two_is_unique(p: nat, q: nat, n: nat)
    requires
        is_next_power_of_two(p, n),
        is_next_power_of_two(q, n),
    ensures
        p == q,
{
    if p < q {
        lemma_power_of_two_gap(p, q);
    } else if q < p {
        lemma_power_of_two_gap(q, p);
    }
}

/// The smallest power of two not below `n` (1 for 0 and 1).
///
/// Doubling past the top of `usize` would wrap to zero and never finish, so
/// `n` must leave room for the answer.
pub fn next_power_of_two(n: usize) -> (p: usize)
    requires
        n <= usize::MAX / 2 + 1,
    ensures
        is_next_power_of_two(p as nat, n as nat),
{
    let mut p: usize = 1;
    while p < n
        invariant
            n <= usize::MAX / 2 + 1,
            p >= 1,
            is_power_of_two(p as nat),
            p == 1 || p / 2 < n,
        decreases usize::MAX - p,
    {
        assert(is_power_of_two((p * 2) as nat)) by {
            assert((p * 2) as nat / 2 == p);
        }
        p = p * 2;
    }
    p
}

/// The transform length a slice runs at when its lowest point needs
/// `needed` points of resolution: the next power of two, held to
/// [`MIN_FFT`]..=[`MAX_FFT`].
pub fn slice_fft_size(needed: usize) -> (r: usize)
    ensures
        MIN_FFT <= r <= MAX_FFT,
        needed > MAX_FFT ==> r == MAX_FFT,
        needed <= MAX_FFT ==> (r == MIN_FFT && needed <= MIN_FFT
            || MIN_FFT < r && is_next_power_of_two(r as nat, needed as nat)),
{
    if needed > MAX_FFT {
        return MAX_FFT;
    }
    let p = next_power_of_two(needed);
    assert(p <= MAX_FFT) by {
        reveal_with_fuel(is_power_of_two, 18);
        assert(is_power_of_two(MAX_FFT as nat));
        if p > MAX_FFT {
            lemma_power_of_two_gap(MAX_FFT as nat, p as nat);
        }
    }
    if p < MIN_FFT {
        assert(needed <= MIN_FFT);
        MIN_FFT
    } else {
        assert(p == MIN_FFT ==> needed <= MIN_FFT);
        if p == MIN_FFT {
            MIN_FFT
        } else {
            p
        }
    }
}

/// The length of the full-band transform used for the impulse response:
/// enough for `samples` (the next power of two), but never above
/// [`MAX_FFT`].
pub fn wide_fft_size(samples: usize) -> (r: usize)
    ensures
        samples > MAX_FFT ==> r == MAX_FFT,
        samples <= MAX_FFT ==> is_next_power_of_two(r as nat, samples as nat),
        r <= MAX_FFT,
{
    if samples > MAX_FFT {
        return MAX_FFT;
    }
    let p = next_power_of_two(samples);
    assert(p <= MAX_FFT) by {
        reveal_with_fuel(is_power_of_two, 18);
        assert(is_power_of_two(MAX_FFT as nat));
        if p > MAX_FFT {
            lemma_power_of_two_gap(MAX_FFT as nat, p as nat);
        }
    }
    p
}

/// What a delay line of `delay` samples puts out once `heard` has gone in:
/// the sample `delay` places before the latest, or `silence` if the line has
/// not been fed that long.
pub open spec fn echo<T>(heard: Seq<T>, delay: nat, silence: T) -> T {
    if delay < heard.len() {
        heard[heard.len() - 1 - delay]
    } else {
        silence
    }
}

/// How many writes ago slot `i` of a ring of `n` slots was written, when the
/// next write goes to `write`.
spec fn age(write: int, i: int, n: int) -> int {
    if i < write {
        write - 1 - i
    } else {
        write - 1 - i + n
    }
}

/// A delay applied to the reference so it lines up with the measurement.
///
/// The measurement always arrives later than the reference, so it is the
/// reference that is held back. A ring of at least one slot; the delay is at
/// most one less than its length.
pub struct DelayLine<T> {
    buffer: Vec<T>,
    write: usize,
    delay: usize,
    silence: T,
    heard: Ghost<Seq<T>>,
}

impl<T: Copy> DelayLine<T> {
    /// Number of slots; the longest delay is one less.
    pub closed spec fn capacity(&self) -> nat {
        self.buffer@.len()
    }

    /// The delay currently applied, in samples.
    pub closed spec fn delay_spec(&self) -> nat {
        self.delay as nat
    }

    /// Everything fed in since the line was made or last cleared.
    pub closed spec fn heard(&self) -> Seq<T> {
        self.heard@
    }

    /// What an empty slot reads as.
    pub closed spec fn silence(&self) -> T {
        self.silence
    }

    pub closed spec fn wf(&self) -> bool {
        let n = self.buffer@.len() as int;
        &&& n >= 1
        &&& self.write < n
        &&& self.delay < n
        &&& forall|i: int|
            0 <= i < n ==> #[trigger] self.buffer@[i] == (if age(self.write as int, i, n)
                < self.heard@.len() {
                self.heard@[self.heard@.len() - 1 - age(self.write as int, i, n)]
            } else {
                self.silence
            })
    }

    /// A line able to hold `max_samples` back (at least one slot), with no
    /// delay set and nothing heard yet.
    pub fn new(max_samples: usize, silence: T) -> (r: Self)
        ensures
            r.wf(),
            r.capacity() == if max_samples == 0 { 1 } else { max_samples as nat },
            r.delay_spec() == 0,
            r.heard() == Seq::<T>::empty(),
            r.silence() == silence,
    {
        let n = if max_samples == 0 { 1 } else { max_samples };
        let mut buffer: Vec<T> = Vec::new();
        while buffer.len() < n
            invariant
                buffer.len() <= n,
                forall|i: int| 0 <= i < buffer@.len() ==> #[trigger] buffer@[i] == silence,
            decreases n - buffer.len(),
        {
            buffer.push(silence);
        }
        DelayLine { buffer, write: 0, delay: 0, silence, heard: Ghost(Seq::empty()) }
    }

    /// Set the delay, held to what the line can carry.
    pub fn set(&mut self, delay: usize)
        requires
            old(self).wf(),
        ensures
            final(self).wf(),
            final(self).delay_spec() == if delay < old(self).capacity() {
                delay as nat
            } else {
                (old(self).capacity() - 1) as nat
            },
            final(self).capacity() == old(self).capacity(),
            final(self).heard() == old(self).heard(),
            final(self).silence() == old(self).silence(),
    {
        let last = self.buffer.len() - 1;
        self.delay = if delay < last { delay } else { last };
    }

    /// The delay currently applied.
    pub fn delay(&self) -> (r: usize)
        requires
            self.wf(),
        ensures
            r == self.delay_spec(),
    {
        self.delay
    }

    /// Feed one sample and take the one that comes out: the sample fed
    /// [`Self::delay`] samples before this one, or silence if there was none.
    pub fn process(&mut self, x: T) -> (r: T)
        requires
            old(self).wf(),
        ensures
            final(self).wf(),
            final(self).heard() == old(self).heard().push(x),
            r == echo(final(self).heard(), old(self).delay_spec(), old(self).silence()),
            final(self).delay_spec() == old(self).delay_spec(),
            final(self).capacity() == old(self).capacity(),
            final(self).silence() == old(self).silence(),
    {
        let n = self.buffer.len();
        let ghost old_write = self.write as int;
        let ghost old_buffer = self.buffer@;
        let ghost old_heard = self.heard@;
        self.buffer.set(self.write, x);
        self.write = if self.write + 1 == n { 0 } else { self.write + 1 };
        self.heard = Ghost(old_heard.push(x));
        proof {
            let w = self.write as int;
            let len = self.heard@.len();
            assert forall|i: int| 0 <= i < n implies #[trigger] self.buffer@[i] == (if age(
                w,
                i,
                n as int,
            ) < len {
                self.heard@[len - 1 - age(w, i, n as int)]
            } else {
                self.silence
            }) by {
                if i == old_write {
                    assert(age(w, i, n as int) == 0);
                } else {
                    assert(age(w, i, n as int) == age(old_write, i, n as int) + 1);
                    assert(old_buffer[i] == (if age(old_write, i, n as int) < old_heard.len() {
                        old_heard[old_heard.len() - 1 - age(old_write, i, n as int)]
                    } else {
                        self.silence
                    }));
                }
            }
        }
        let read = if self.delay < self.write {
            self.write - 1 - self.delay
        } else {
            n - 1 - self.delay + self.write
        };
        assert(age(self.write as int, read as int, n as int) == self.delay);
        self.buffer[read]
    }

    /// Forget everything heard; the delay stays.
    pub fn clear(&mut self)
        requires
            old(self).wf(),
        ensures
            final(self).wf(),
            final(self).heard() == Seq::<T>::empty(),
            final(self).delay_spec() == old(self).delay_spec(),
            final(self).capacity() == old(self).capacity(),
            final(self).silence() == old(self).silence(),
    {
        let n = self.buffer.len();
        let ghost delay = self.delay;
        let ghost silence = self.silence;
        let mut i: usize = 0;
        while i < n
            invariant
                n == self.buffer@.len(),
                n >= 1,
                self.delay == delay,
                delay < n,
                self.silence == silence,
                i <= n,
                forall|k: int| 0 <= k < i ==> #[trigger] self.buffer@[k] == self.silence,
            decreases n - i,
        {
            let s = self.silence;
            self.buffer.set(i, s);
            i = i + 1;
        }
        self.write = 0;
        self.heard = Ghost(Seq::empty());
    }
}

} // verus!
