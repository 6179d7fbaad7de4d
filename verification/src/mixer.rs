//! The software mixer's stream format.
use vstd::prelude::*;

verus! {

/// Software mixer for 32-bit floating point PCM (48 kHz stereo standard).
#[derive(Debug, Clone)]
pub struct AudioSubmixer {
    sample_rate: u32,
    channels: u16,
}

impl AudioSubmixer {
    pub closed spec fn spec_sample_rate(self) -> u32 {
        self.sample_rate
    }

    pub closed spec fn spec_channels(self) -> u16 {
        self.channels
    }

    pub fn new(sample_rate: u32, channels: u16) -> (m: Self)
        ensures
            m.spec_sample_rate() == sample_rate,
            m.spec_channels() == channels,
    {
        AudioSubmixer { sample_rate, channels }
    }

    pub fn sample_rate(&self) -> (r: u32)
        ensures
            r == self.spec_sample_rate(),
    {
        self.sample_rate
    }

    pub fn channels(&self) -> (c: u16)
        ensures
            c == self.spec_channels(),
    {
        self.channels
    }
}

} // verus!
