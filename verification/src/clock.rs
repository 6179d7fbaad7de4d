//! The 90 kHz presentation clock.
//!
//! Audio and video take their time stamps from one monotonic hardware counter
//! (QueryPerformanceCounter, read by the application), scaled to the MPEG-TS
//! timebase:
//! PTS = (T - T0) * 90000 / frequency, modulo 2^33.
use vstd::prelude::*;
use vstd::arithmetic::div_mod::{lemma_div_is_ordered, lemma_div_multiples_vanish, lemma_small_mod};

verus! {

/// MPEG-TS time stamps wrap at 33 bits.
pub const PTS_MODULUS: u128 = 8_589_934_592;

/// The counter frequency assumed when the counter reports none.
pub const FALLBACK_FREQUENCY: i64 = 10_000_000;

/// `a - b`, clamped to the `i64` range.
pub open spec fn saturating_diff(a: i64, b: i64) -> int {
    let d = a - b;
    if d > i64::MAX { i64::MAX as int } else if d < i64::MIN { i64::MIN as int } else { d }
}

/// Counter ticks elapsed since `start`, never negative.
pub open spec fn elapsed_ticks(start: i64, now: i64) -> int {
    let d = saturating_diff(now, start);
    if d < 0 { 0 } else { d }
}

/// The 33-bit 90 kHz time stamp of `now`, for a clock started at `start`.
pub open spec fn spec_ticks_to_pts(frequency: int, start: i64, now: i64) -> int {
    (elapsed_ticks(start, now) * 90_000 / frequency) % (PTS_MODULUS as int)
}

/// The 33-bit 90 kHz time stamp of the first of `sample_count` samples
/// played at `sample_rate`.
pub open spec fn spec_samples_to_pts(sample_count: u64, sample_rate: u32) -> int {
    (sample_count * 90_000 / sample_rate as int) % (PTS_MODULUS as int)
}

/// `a - b` in the `i64` range, saturating at its bounds.
fn i64_saturating_sub(a: i64, b: i64) -> (d: i64)
    ensures
        d == saturating_diff(a, b),
{
    let wide: i128 = a as i128 - b as i128;
    if wide > i64::MAX as i128 {
        i64::MAX
    } else if wide < i64::MIN as i128 {
        i64::MIN
    } else {
        wide as i64
    }
}

/// High-resolution clock calibrated against the hardware counter.
#[derive(Debug)]
pub struct QpcClock {
    frequency: i64,
    start_ticks: i64,
}

impl Clone for QpcClock {
    fn clone(&self) -> (c: Self)
        ensures
            c.frequency() == self.frequency(),
            c.frequency() > 0,
            c.start() == self.start(),
    {
        proof {
            use_type_invariant(self);
        }
        QpcClock { frequency: self.frequency, start_ticks: self.start_ticks }
    }
}

impl QpcClock {
    #[verifier::type_invariant]
    spec fn counts_forward(self) -> bool {
        self.frequency > 0
    }

    /// Counter ticks per second.
    pub closed spec fn frequency(self) -> int {
        self.frequency as int
    }

    /// The counter value at the baseline T0.
    pub closed spec fn start(self) -> i64 {
        self.start_ticks
    }

    /// A clock whose baseline T0 is `start_ticks`, counting `frequency` ticks
    /// per second. A counter that reports no frequency is taken to run at
    /// 10 MHz.
    pub fn from_counter(frequency: i64, start_ticks: i64) -> (c: Self)
        ensures
            c.frequency() == (if frequency <= 0 { FALLBACK_FREQUENCY as int } else { frequency as int }),
            c.frequency() > 0,
            c.start() == start_ticks,
    {
        let freq = if frequency <= 0 { FALLBACK_FREQUENCY } else { frequency };
        QpcClock { frequency: freq, start_ticks }
    }

    /// Milliseconds elapsed between the baseline and `now_ticks` (0 before it),
    /// rounded down: the exact floor of `ticks * 1000 / frequency`, computed
    /// in integers. (A floating-point quotient of seconds scaled by 1000
    /// can round a whole number of milliseconds down by one; this does not.)
    pub fn elapsed_millis(&self, now_ticks: i64) -> (ms: u64)
        ensures
            self.frequency() > 0,
            ms == (if elapsed_ticks(self.start(), now_ticks) * 1000 / self.frequency() > u64::MAX {
                u64::MAX as int
            } else {
                elapsed_ticks(self.start(), now_ticks) * 1000 / self.frequency()
            }),
    {
        proof {
            use_type_invariant(self);
        }
        let delta = i64_saturating_sub(now_ticks, self.start_ticks);
        let delta: u128 = if delta < 0 { 0 } else { delta as u128 };
        proof {
            assert(delta * 1000 <= (i64::MAX as int) * 1000) by (nonlinear_arith)
                requires
                    delta <= i64::MAX,
            ;
        }
        let ms = (delta * 1000) / (self.frequency as u128);
        if ms > u64::MAX as u128 {
            u64::MAX
        } else {
            ms as u64
        }
    }

    /// The 90 kHz time stamp of `now_ticks`, read from the counter by the
    /// caller.
    pub fn current_pts_90khz(&self, now_ticks: i64) -> (pts: u64)
        ensures
            self.frequency() > 0,
            now_ticks == self.start() ==> pts == 0,
            pts == spec_ticks_to_pts(self.frequency(), self.start(), now_ticks),
    {
        self.ticks_to_pts_90khz(now_ticks)
    }

    /// Converts counter ticks into a 90 kHz time stamp modulo 2^33.
    pub fn ticks_to_pts_90khz(&self, ticks: i64) -> (pts: u64)
        ensures
            self.frequency() > 0,
            ticks == self.start() ==> pts == 0,
            pts == spec_ticks_to_pts(self.frequency(), self.start(), ticks),
    {
        proof {
            use_type_invariant(self);
        }
        let delta = i64_saturating_sub(ticks, self.start_ticks);
        let delta: u128 = if delta < 0 { 0 } else { delta as u128 };
        proof {
            assert(delta * 90_000 <= (i64::MAX as int) * 90_000) by (nonlinear_arith)
                requires
                    delta <= i64::MAX,
            ;
        }
        let pts = (delta * 90_000) / (self.frequency as u128);
        (pts % PTS_MODULUS) as u64
    }

    /// The 90 kHz time stamp of the first of `sample_count` audio samples at
    /// `sample_rate`, modulo 2^33: audio time follows the sample count.
    pub fn audio_samples_to_pts_90khz(sample_count: u64, sample_rate: u32) -> (pts: u64)
        requires
            sample_rate > 0,
        ensures
            pts == spec_samples_to_pts(sample_count, sample_rate),
    {
        proof {
            assert(sample_count * 90_000 <= (u64::MAX as int) * 90_000) by (nonlinear_arith)
                requires
                    sample_count <= u64::MAX,
            ;
        }
        let pts = (sample_count as u128 * 90_000) / (sample_rate as u128);
        (pts % PTS_MODULUS) as u64
    }

    /// Moves the baseline T0 to `now_ticks`.
    pub fn reset_baseline(&mut self, now_ticks: i64)
        ensures
            final(self).start() == now_ticks,
            final(self).frequency() == old(self).frequency(),
            final(self).frequency() > 0,
    {
        proof {
            use_type_invariant(&*self);
        }
        self.start_ticks = now_ticks;
    }
}

/// Audio and video share one timebase: `k` whole seconds of counter ticks
/// and `k` whole seconds of audio samples stamp the same 90 kHz time,
/// `k * 90000` modulo 2^33.
pub proof fn law_audio_and_video_share_the_timebase(frequency: int, start: i64, sample_rate: u32, k: nat)
    requires
        frequency > 0,
        sample_rate > 0,
        k * frequency <= i64::MAX,
        start + k * frequency <= i64::MAX,
        k * sample_rate <= u64::MAX,
    ensures
        spec_ticks_to_pts(frequency, start, (start + k * frequency) as i64) == (k as int * 90_000) % (PTS_MODULUS as int),
        spec_samples_to_pts((k * sample_rate) as u64, sample_rate) == (k as int * 90_000) % (PTS_MODULUS as int),
{
    assert(k * frequency >= 0) by (nonlinear_arith)
        requires
            frequency > 0,
    ;
    assert(elapsed_ticks(start, (start + k * frequency) as i64) == k * frequency);
    assert(k * frequency * 90_000 == frequency * (k * 90_000)) by (nonlinear_arith);
    lemma_div_multiples_vanish(k as int * 90_000, frequency);
    assert(k * sample_rate * 90_000 == sample_rate * (k * 90_000)) by (nonlinear_arith);
    lemma_div_multiples_vanish(k as int * 90_000, sample_rate as int);
}

/// The clock never runs backwards: a later counter reading stamps a time no
/// earlier than a former one, up to the point where the 33-bit time stamp
/// wraps.
pub proof fn law_pts_never_runs_backwards(frequency: int, start: i64, t1: i64, t2: i64)
    requires
        frequency > 0,
        t1 <= t2,
        elapsed_ticks(start, t2) * 90_000 / frequency < PTS_MODULUS as int,
    ensures
        spec_ticks_to_pts(frequency, start, t1) <= spec_ticks_to_pts(frequency, start, t2),
{
    let e1 = elapsed_ticks(start, t1) * 90_000;
    let e2 = elapsed_ticks(start, t2) * 90_000;
    assert(0 <= e1 <= e2);
    lemma_div_is_ordered(e1, e2, frequency);
    lemma_div_is_ordered(0, e1, frequency);
    lemma_small_mod((e1 / frequency) as nat, PTS_MODULUS as nat);
    lemma_small_mod((e2 / frequency) as nat, PTS_MODULUS as nat);
}

/// Moving the baseline to `now` restarts the time stamps at zero there.
pub proof fn law_reset_baseline_restarts_at_zero(frequency: int, now: i64)
    requires
        frequency > 0,
    ensures
        spec_ticks_to_pts(frequency, now, now) == 0,
{
}

} // verus!
