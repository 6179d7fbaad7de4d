//! Media packets flowing through the pipeline.
use vstd::prelude::*;

verus! {

/// Type of media packet flowing through the pipeline.
#[derive(Debug, Clone, Copy, PartialEq, Eq, Structural)]
pub enum MediaType {
    VideoH264,
    AudioAac,
}

/// A media frame with its 90 kHz Presentation Time Stamp (PTS).
#[derive(Debug, Clone)]
pub struct MediaPacket {
    pub media_type: MediaType,
    /// 90 kHz MPEG-TS Presentation Time Stamp.
    pub pts_90khz: u64,
    /// Decode Time Stamp; equal to the PTS when frames are decoded in order.
    pub dts_90khz: u64,
    /// Raw payload bytes (Annex-B H.264, JPEG or PCM).
    pub payload: Vec<u8>,
    /// True if this is an IDR / key frame.
    pub is_keyframe: bool,
}

impl MediaPacket {
    pub fn new_video(pts: u64, dts: u64, payload: Vec<u8>, is_keyframe: bool) -> (p: Self)
        ensures
            p.media_type == MediaType::VideoH264,
            p.pts_90khz == pts,
            p.dts_90khz == dts,
            p.payload@ == payload@,
            p.is_keyframe == is_keyframe,
    {
        MediaPacket { media_type: MediaType::VideoH264, pts_90khz: pts, dts_90khz: dts, payload, is_keyframe }
    }

    /// Audio packets decode in order (DTS = PTS) and every one is a key frame.
    pub fn new_audio(pts: u64, payload: Vec<u8>) -> (p: Self)
        ensures
            p.media_type == MediaType::AudioAac,
            p.pts_90khz == pts,
            p.dts_90khz == pts,
            p.payload@ == payload@,
            p.is_keyframe,
    {
        MediaPacket { media_type: MediaType::AudioAac, pts_90khz: pts, dts_90khz: pts, payload, is_keyframe: true }
    }
}

} // verus!
