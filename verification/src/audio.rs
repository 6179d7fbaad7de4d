//! Sample plumbing of the audio path: folding a captured device block down to
//! interleaved stereo, and the latency-bounded playback queue.
use vstd::prelude::*;
use std::collections::VecDeque;
use vstd::arithmetic::div_mod::lemma_fundamental_div_mod_converse;

verus! {

/// Interleaved stereo from a block of `channels`-channel interleaved frames:
/// the first two channels of every whole frame, or the one channel twice for
/// mono.
pub open spec fn stereo_of<T>(samples: Seq<T>, channels: int) -> Seq<T> {
    Seq::new(
        ((samples.len() as int / channels) * 2) as nat,
        |i: int| samples[(i / 2) * channels + if channels >= 2 { i % 2 } else { 0 }],
    )
}

/// The stereo block handed on for one captured device block of `frames`
/// frames: silence when the device flagged the block silent, else the block
/// folded to stereo.
pub open spec fn stereo_block_spec<T>(frames: int, channels: int, samples: Seq<T>, silent: bool, zero: T) -> Seq<T> {
    if silent {
        Seq::new((frames * 2) as nat, |i: int| zero)
    } else {
        stereo_of(samples, channels)
    }
}

/// Folds one captured block down to interleaved stereo. `samples` holds the
/// block's `frames * channels` interleaved samples unless the block is
/// silent, in which case it is not read and `frames` stereo frames of `zero`
/// come out.
pub fn stereo_block<T: Copy>(frames: usize, channels: usize, samples: &[T], silent: bool, zero: T) -> (out: Vec<T>)
    requires
        channels > 0,
        frames * 2 <= usize::MAX,
        !silent ==> samples@.len() == frames * channels,
    ensures
        out@ == stereo_block_spec(frames as int, channels as int, samples@, silent, zero),
{
    let mut out: Vec<T> = Vec::new();
    if silent {
        let mut i: usize = 0;
        while i < frames * 2
            invariant
                i <= frames * 2,
                frames * 2 <= usize::MAX,
                out@.len() == i,
                forall|k: int| 0 <= k < i ==> #[trigger] out@[k] == zero,
            decreases frames * 2 - i,
        {
            out.push(zero);
            i += 1;
        }
        proof {
            assert(out@ =~= stereo_block_spec(frames as int, channels as int, samples@, silent, zero));
        }
        return out;
    }
    let n = samples.len();
    let whole = n / channels;
    proof {
        lemma_fundamental_div_mod_converse(n as int, channels as int, frames as int, 0);
    }
    let mut f: usize = 0;
    while f < whole
        invariant
            channels > 0,
            n == samples@.len(),
            whole == n / channels,
            whole == frames,
            frames * 2 <= usize::MAX,
            n == frames * channels,
            f <= whole,
            out@.len() == 2 * f,
            forall|i: int| 0 <= i < out@.len() ==> #[trigger] out@[i] == samples@[(i / 2) * channels + if channels >= 2 { i % 2 } else { 0 }],
        decreases whole - f,
    {
        proof {
            assert(f * channels + channels <= n) by (nonlinear_arith)
                requires
                    f < frames,
                    n == frames * channels,
            ;
        }
        let base = f * channels;
        let left = samples[base];
        let right = if channels >= 2 { samples[base + 1] } else { samples[base] };
        out.push(left);
        out.push(right);
        proof {
            lemma_fundamental_div_mod_converse(2 * f as int, 2, f as int, 0);
            lemma_fundamental_div_mod_converse(2 * f + 1, 2, f as int, 1);
        }
        f += 1;
    }
    proof {
        assert(out@ =~= stereo_block_spec(frames as int, channels as int, samples@, silent, zero));
    }
    out
}

/// How much decoded audio playback may queue: 0.4 s of 48 kHz stereo.
/// Older samples are dropped beyond it to bound the latency.
pub const MAX_QUEUED_SAMPLES: usize = 38_400;

/// The newest `cap` items of `s`, or all of them when there are no more.
pub open spec fn newest<T>(s: Seq<T>, cap: int) -> Seq<T> {
    if s.len() > cap { s.skip(s.len() - cap) } else { s }
}

/// The playback queue: samples in arrival order, never more than its
/// capacity; when it overflows, the oldest samples go.
pub struct SampleQueue<T> {
    samples: VecDeque<T>,
    capacity: usize,
}

impl<T> View for SampleQueue<T> {
    type V = Seq<T>;

    closed spec fn view(&self) -> Seq<T> {
        self.samples@
    }
}

impl<T> SampleQueue<T> {
    #[verifier::type_invariant]
    spec fn within_capacity(self) -> bool {
        self.samples@.len() <= self.capacity
    }

    pub closed spec fn spec_capacity(self) -> usize {
        self.capacity
    }

    /// An empty queue that keeps at most `capacity` samples.
    pub fn new(capacity: usize) -> (q: Self)
        ensures
            q@.len() == 0,
            q.spec_capacity() == capacity,
    {
        SampleQueue { samples: VecDeque::new(), capacity }
    }

    pub fn capacity(&self) -> (c: usize)
        ensures
            c == self.spec_capacity(),
    {
        self.capacity
    }

    /// The number of samples waiting, never more than the capacity.
    pub fn len(&self) -> (n: usize)
        ensures
            n == self@.len(),
            n <= self.spec_capacity(),
    {
        proof {
            use_type_invariant(self);
        }
        self.samples.len()
    }

    /// Takes the oldest sample.
    pub fn pop_front(&mut self) -> (r: Option<T>)
        ensures
            final(self).spec_capacity() == old(self).spec_capacity(),
            match r {
                Some(x) => old(self)@.len() > 0 && x == old(self)@[0] && final(self)@ == old(self)@.drop_first(),
                None => old(self)@.len() == 0 && final(self)@ == old(self)@,
            },
    {
        proof {
            use_type_invariant(&*self);
        }
        let mut q: VecDeque<T> = VecDeque::new();
        std::mem::swap(&mut q, &mut self.samples);
        let r = q.pop_front();
        self.samples = q;
        proof {
            if r is Some {
                assert(self@ =~= old(self)@.drop_first());
            }
        }
        r
    }
}

impl<T: Copy> SampleQueue<T> {
    /// Queues `samples` after those already waiting, then drops the oldest
    /// beyond the capacity.
    pub fn push_samples(&mut self, samples: &[T])
        ensures
            final(self).spec_capacity() == old(self).spec_capacity(),
            final(self)@ == newest(old(self)@ + samples@, old(self).spec_capacity() as int),
    {
        proof {
            use_type_invariant(&*self);
        }
        let ghost start = self@;
        let mut q: VecDeque<T> = VecDeque::new();
        std::mem::swap(&mut q, &mut self.samples);
        let mut i: usize = 0;
        while i < samples.len()
            invariant
                i <= samples@.len(),
                q@ == start + samples@.take(i as int),
            decreases samples@.len() - i,
        {
            q.push_back(samples[i]);
            proof {
                assert(start + samples@.take(i + 1) =~= (start + samples@.take(i as int)).push(samples@[i as int]));
            }
            i += 1;
        }
        proof {
            assert(samples@.take(samples@.len() as int) =~= samples@);
        }
        let ghost all = q@;
        let cap = self.capacity;
        while q.len() > cap
            invariant
                all == start + samples@,
                q@.len() >= cap ==> q@ == all.skip(all.len() - q@.len()),
                q@.len() <= all.len(),
                all.len() > cap ==> q@.len() >= cap,
                all.len() <= cap ==> q@ == all,
            decreases q@.len(),
        {
            let ghost before = q@;
            q.pop_front();
            proof {
                assert(q@ =~= all.skip(all.len() - q@.len()));
            }
        }
        self.samples = q;
        proof {
            assert(self@ =~= newest(start + samples@, cap as int));
        }
    }
}

} // verus!
