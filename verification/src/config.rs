//! Strongly-typed configuration for video, audio and the network link.
use vstd::prelude::*;

verus! {

/// Predefined profiles for LAN game streaming.
#[derive(Debug, Clone, Copy, PartialEq, Eq, Structural)]
pub enum StreamProfile {
    /// 1080p 60 FPS at 25 Mbps (the default).
    FullHd60,
    /// 1440p 60 FPS at 35 Mbps.
    QuadHd60,
    /// 1080p 120 FPS at 40 Mbps.
    FullHd120,
    /// User defined settings.
    Custom,
}

/// Capture and encoding parameters.
#[derive(Debug, Clone)]
pub struct VideoConfig {
    pub display_index: u32,
    pub width: u32,
    pub height: u32,
    pub fps: u32,
    pub bitrate_kbps: u32,
    pub gop_size: u32,
    pub nvenc_preset: String,
}

impl Default for VideoConfig {
    /// 1080p60 at 25 Mbps on the first display, a key frame every second, the
    /// lowest-latency encoder preset.
    fn default() -> (c: Self)
        ensures
            c.display_index == 0,
            c.width == 1920,
            c.height == 1080,
            c.fps == 60,
            c.bitrate_kbps == 25_000,
            c.gop_size == 60,
            c.nvenc_preset@ == "p1"@,
    {
        VideoConfig {
            display_index: 0,
            width: 1920,
            height: 1080,
            fps: 60,
            bitrate_kbps: 25_000,
            gop_size: 60,
            nvenc_preset: "p1".to_owned(),
        }
    }
}

/// Audio capture, mixing and encoding parameters.
#[derive(Debug, Clone)]
pub struct AudioConfig {
    pub sample_rate: u32,
    pub channels: u16,
    pub bitrate_kbps: u32,
    pub chunk_size: usize,
}

impl Default for AudioConfig {
    /// 48 kHz stereo in 1024-sample blocks (21.33 ms).
    fn default() -> (c: Self)
        ensures
            c.sample_rate == 48_000,
            c.channels == 2,
            c.bitrate_kbps == 320,
            c.chunk_size == 1024,
    {
        AudioConfig { sample_rate: 48_000, channels: 2, bitrate_kbps: 320, chunk_size: 1024 }
    }
}

/// Transport configuration.
#[derive(Debug, Clone)]
pub struct NetworkConfig {
    pub host: String,
    pub port: u16,
    /// Latency buffer in milliseconds (500 to 2000 ms).
    pub srt_latency_ms: u32,
    pub is_listener: bool,
}

impl Default for NetworkConfig {
    /// Listen on every interface, port 9000, with a one-second buffer.
    fn default() -> (c: Self)
        ensures
            c.host@ == "0.0.0.0"@,
            c.port == 9000,
            c.srt_latency_ms == 1000,
            c.is_listener,
    {
        NetworkConfig { host: "0.0.0.0".to_owned(), port: 9000, srt_latency_ms: 1000, is_listener: true }
    }
}

} // verus!
