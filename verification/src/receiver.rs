//! The receiver's playback and preview surfaces.
use vstd::prelude::*;

verus! {

/// Audio playback on the laptop's default sound device.
pub struct AudioPlayer {
    sample_rate: u32,
    channels: u16,
}

impl AudioPlayer {
    pub closed spec fn spec_sample_rate(self) -> u32 {
        self.sample_rate
    }

    pub closed spec fn spec_channels(self) -> u16 {
        self.channels
    }

    pub fn new(sample_rate: u32, channels: u16) -> (p: Self)
        ensures
            p.spec_sample_rate() == sample_rate,
            p.spec_channels() == channels,
    {
        AudioPlayer { sample_rate, channels }
    }
}

/// The live preview surface.
pub struct PreviewWindow {
    pub width: u32,
    pub height: u32,
    pub is_fullscreen: bool,
}

impl PreviewWindow {
    /// A windowed preview of the given size.
    pub fn new(width: u32, height: u32) -> (w: Self)
        ensures
            w.width == width,
            w.height == height,
            !w.is_fullscreen,
    {
        PreviewWindow { width, height, is_fullscreen: false }
    }

    /// Hands a decoded frame to the surface; the surface's geometry is left
    /// as it is.
    pub fn present_frame(&mut self, _frame_data: &[u8])
        ensures
            final(self).width == old(self).width,
            final(self).height == old(self).height,
            final(self).is_fullscreen == old(self).is_fullscreen,
    {
    }
}

} // verus!
