//! Frame pacing of the capture loop and the rolling one-second window over
//! which frame rates are measured.
use vstd::prelude::*;

verus! {

/// The capture period for `fps` frames per second, in whole microseconds.
pub fn frame_interval_micros(fps: u32) -> (us: u64)
    requires
        fps > 0,
    ensures
        us == 1_000_000int / (fps as int),
{
    1_000_000u64 / (fps as u64)
}

/// How long the capture loop sleeps after an iteration that took
/// `elapsed_micros`, to hold the period `interval_micros`: the rest of the
/// period, or nothing when the iteration overran it.
pub fn pacing_delay_micros(interval_micros: u64, elapsed_micros: u64) -> (us: u64)
    ensures
        us == if elapsed_micros < interval_micros { interval_micros - elapsed_micros } else { 0 },
        elapsed_micros + us >= interval_micros,
{
    if elapsed_micros < interval_micros {
        interval_micros - elapsed_micros
    } else {
        0
    }
}

/// The length of a frame-rate measurement window.
pub const RATE_WINDOW_MS: u64 = 1000;

/// Frames counted since the window opened at `started_ms`.
pub struct RateWindow {
    pub frames: u32,
    pub started_ms: u64,
}

/// A closed window: `frames` frames over `elapsed_ms`.
pub struct RateSample {
    pub frames: u32,
    pub elapsed_ms: u64,
}

impl RateWindow {
    /// A window opening at `now_ms`, with no frames yet.
    pub fn new(now_ms: u64) -> (w: Self)
        ensures
            w.frames == 0,
            w.started_ms == now_ms,
    {
        RateWindow { frames: 0, started_ms: now_ms }
    }

    /// Counts one frame.
    pub fn count_frame(&mut self)
        requires
            old(self).frames < u32::MAX,
        ensures
            final(self).frames == old(self).frames + 1,
            final(self).started_ms == old(self).started_ms,
    {
        self.frames = self.frames + 1;
    }

    /// At `now_ms`: once the window has lasted [`RATE_WINDOW_MS`], closes it
    /// with its count and opens the next one at `now_ms`; before that,
    /// nothing changes. The clock is monotonic, so a `now_ms` before the
    /// window's start counts as no time passed.
    pub fn tick(&mut self, now_ms: u64) -> (r: Option<RateSample>)
        ensures
            ({
                let elapsed = if now_ms >= old(self).started_ms { now_ms - old(self).started_ms } else { 0 };
                if elapsed >= RATE_WINDOW_MS {
                    &&& r matches Some(s)
                    &&& s.frames == old(self).frames
                    &&& s.elapsed_ms == elapsed
                    &&& final(self).frames == 0
                    &&& final(self).started_ms == now_ms
                } else {
                    r is None && final(self).frames == old(self).frames && final(self).started_ms
                        == old(self).started_ms
                }
            }),
    {
        let elapsed = now_ms.saturating_sub(self.started_ms);
        if elapsed >= RATE_WINDOW_MS {
            let sample = RateSample { frames: self.frames, elapsed_ms: elapsed };
            self.frames = 0;
            self.started_ms = now_ms;
            Some(sample)
        } else {
            None
        }
    }
}

} // verus!
