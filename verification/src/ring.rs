//! The sample history a transform reads.
//!
//! An analyser keeps the last `n` samples in a ring and runs a transform
//! every `hop` samples. What the transform must see is exactly those `n`
//! samples, oldest first — anything else smears the window across a seam —
//! and the transforms must come exactly `hop` samples apart. Both are
//! integer bookkeeping, and stand here; the samples and the transform are
//! floating point and live outside this crate.

use vstd::prelude::*;

verus! {

/// The last `n` of the samples `heard`, oldest first, with `fill` standing
/// in for samples from before the first.
pub open spec fn recent<T>(heard: Seq<T>, n: nat, fill: T) -> Seq<T> {
    Seq::new(
        n,
        |i: int|
            {
                let age = n - 1 - i;
                if age < heard.len() {
                    heard[heard.len() - 1 - age]
                } else {
                    fill
                }
            },
    )
}

/// How many writes ago slot `i` of a ring of `n` slots was written, when the
/// next write goes to `write`.
spec fn age(write: int, i: int, n: int) -> int {
    if i < write {
        write - 1 - i
    } else {
        write - 1 - i + n
    }
}

/// A ring of the last samples, with a count of samples since the last frame.
pub struct SampleRing<T> {
    buffer: Vec<T>,
    write: usize,
    since_hop: usize,
    hop: usize,
    fill: T,
    heard: Ghost<Seq<T>>,
}

impl<T: Copy> SampleRing<T> {
    /// How many samples a frame holds.
    pub closed spec fn size(&self) -> nat {
        self.buffer@.len()
    }

    /// Samples between frames.
    pub closed spec fn hop_spec(&self) -> nat {
        self.hop as nat
    }

    /// Everything pushed since the ring was made or last reset.
    pub closed spec fn heard(&self) -> Seq<T> {
        self.heard@
    }

    /// What a slot holds before anything is written to it.
    pub closed spec fn fill(&self) -> T {
        self.fill
    }

    pub closed spec fn wf(&self) -> bool {
        let n = self.buffer@.len() as int;
        &&& n >= 1
        &&& self.write < n
        &&& self.hop >= 1
        &&& self.since_hop == self.heard@.len() % (self.hop as nat)
        &&& forall|i: int|
            0 <= i < n ==> #[trigger] self.buffer@[i] == (if age(self.write as int, i, n)
                < self.heard@.len() {
                self.heard@[self.heard@.len() - 1 - age(self.write as int, i, n)]
            } else {
                self.fill
            })
    }

    /// A ring of `size` samples that calls for a frame every `hop`.
    pub fn new(size: usize, hop: usize, fill: T) -> (r: Self)
        requires
            size >= 1,
            hop >= 1,
        ensures
            r.wf(),
            r.size() == size,
            r.hop_spec() == hop,
            r.heard() == Seq::<T>::empty(),
            r.fill() == fill,
    {
        let mut buffer: Vec<T> = Vec::new();
        while buffer.len() < size
            invariant
                buffer.len() <= size,
                forall|i: int| 0 <= i < buffer@.len() ==> #[trigger] buffer@[i] == fill,
            decreases size - buffer.len(),
        {
            buffer.push(fill);
        }
        proof {
            vstd::arithmetic::div_mod::lemma_small_mod(0, hop as nat);
        }
        SampleRing { buffer, write: 0, since_hop: 0, hop, fill, heard: Ghost(Seq::empty()) }
    }

    /// Take one sample. True when it completes a hop, so a frame is due: a
    /// frame falls due every `hop` samples, counted from the start.
    pub fn push(&mut self, x: T) -> (due: bool)
        requires
            old(self).wf(),
        ensures
            final(self).wf(),
            final(self).heard() == old(self).heard().push(x),
            due == (final(self).heard().len() % old(self).hop_spec() == 0),
            final(self).size() == old(self).size(),
            final(self).hop_spec() == old(self).hop_spec(),
            final(self).fill() == old(self).fill(),
    {
        let n = self.buffer.len();
        let ghost old_write = self.write as int;
        let ghost old_buffer = self.buffer@;
        let ghost old_heard = self.heard@;
        self.buffer.set(self.write, x);
        self.write = if self.write + 1 == n { 0 } else { self.write + 1 };
        self.heard = Ghost(old_heard.push(x));
        proof {
            let w = self.write as int;
            let len = self.heard@.len();
            assert forall|i: int| 0 <= i < n implies #[trigger] self.buffer@[i] == (if age(
                w,
                i,
                n as int,
            ) < len {
                self.heard@[len - 1 - age(w, i, n as int)]
            } else {
                self.fill
            }) by {
                if i == old_write {
                    assert(age(w, i, n as int) == 0);
                } else {
                    assert(age(w, i, n as int) == age(old_write, i, n as int) + 1);
                    assert(old_buffer[i] == (if age(old_write, i, n as int) < old_heard.len() {
                        old_heard[old_heard.len() - 1 - age(old_write, i, n as int)]
                    } else {
                        self.fill
                    }));
                }
            }
            vstd::arithmetic::div_mod::lemma_fundamental_div_mod(old_heard.len() as int, self.hop as int);
            vstd::arithmetic::div_mod::lemma_mod_pos_bound(old_heard.len() as int, self.hop as int);
        }
        let due = self.since_hop + 1 >= self.hop;
        self.since_hop = if due { 0 } else { self.since_hop + 1 };
        proof {
            let h = self.hop as int;
            let q = old_heard.len() as int / h;
            let m = old_heard.len() as int % h;
            assert(h * q == q * h) by (nonlinear_arith);
            assert((q + 1) * h == q * h + h) by (nonlinear_arith);
            if due {
                assert(m + 1 == h);
                vstd::arithmetic::div_mod::lemma_fundamental_div_mod_converse(
                    (old_heard.len() + 1) as int,
                    h,
                    q + 1,
                    0,
                );
            } else {
                vstd::arithmetic::div_mod::lemma_fundamental_div_mod_converse(
                    (old_heard.len() + 1) as int,
                    h,
                    q,
                    m + 1,
                );
            }
        }
        due
    }

    /// The frame a transform reads: the last [`Self::size`] samples, oldest
    /// first.
    pub fn latest(&self) -> (r: Vec<T>)
        requires
            self.wf(),
        ensures
            r@ == recent(self.heard(), self.size(), self.fill()),
    {
        let n = self.buffer.len();
        let mut out: Vec<T> = Vec::new();
        let mut i: usize = 0;
        while i < n
            invariant
                self.wf(),
                n == self.buffer@.len(),
                i <= n,
                out@.len() == i,
                forall|k: int|
                    0 <= k < i ==> #[trigger] out@[k] == recent(self.heard(), n as nat, self.fill())[k],
            decreases n - i,
        {
            let idx = if i < n - self.write { self.write + i } else { i - (n - self.write) };
            assert(age(self.write as int, idx as int, n as int) == n - 1 - i);
            out.push(self.buffer[idx]);
            i = i + 1;
        }
        assert(out@ =~= recent(self.heard(), n as nat, self.fill()));
        out
    }

    /// Forget everything heard and start counting hops afresh.
    pub fn reset(&mut self)
        requires
            old(self).wf(),
        ensures
            final(self).wf(),
            final(self).heard() == Seq::<T>::empty(),
            final(self).size() == old(self).size(),
            final(self).hop_spec() == old(self).hop_spec(),
            final(self).fill() == old(self).fill(),
    {
        let n = self.buffer.len();
        let ghost hop = self.hop;
        let ghost fill = self.fill;
        let mut i: usize = 0;
        while i < n
            invariant
                n == self.buffer@.len(),
                n >= 1,
                self.hop == hop,
                hop >= 1,
                self.fill == fill,
                i <= n,
                forall|k: int| 0 <= k < i ==> #[trigger] self.buffer@[k] == self.fill,
            decreases n - i,
        {
            let f = self.fill;
            self.buffer.set(i, f);
            i = i + 1;
        }
        self.write = 0;
        self.since_hop = 0;
        self.heard = Ghost(Seq::empty());
        proof {
            vstd::arithmetic::div_mod::lemma_small_mod(0, hop as nat);
        }
    }
}

} // verus!
