//! The video encoder session: key-frame cadence, the Annex-B stream of the
//! hardware path, and JPEG frames for the CPU path.
use vstd::prelude::*;
use crate::config::VideoConfig;
use crate::jpeg::{jpeg_encode, jpeg_encoding, jpeg_size_ok};
use crate::media::{MediaPacket, MediaType};

verus! {

/// Why the encoder could not produce a packet.
#[derive(Debug)]
pub enum NvencError {
    /// NVENC initialization failed.
    InitFailed(String),
    /// Hardware encode error.
    EncodeError(String),
    /// The device does not support NVENC.
    NotSupported,
}

/// Frame `n` (counting from 1) opens a group of pictures: the first frame of
/// every `gop` frames is a key frame.
pub open spec fn is_key_frame(n: u64, gop: u32) -> bool {
    n >= 1 && (n - 1) % (gop as int) == 0
}

/// The marker filler standing for compressed macroblocks.
pub open spec fn macroblock_fill(n: int) -> Seq<u8> {
    Seq::new(n as nat, |_i: int| 0xAAu8)
}

/// SPS, PPS and IDR slice headers, each behind an Annex-B start code.
pub open spec fn key_frame_headers() -> Seq<u8> {
    seq![
        0x00u8, 0x00u8, 0x00u8, 0x01u8, 0x67u8, 0x64u8, 0x00u8, 0x28u8,
        0xACu8, 0x2Bu8, 0x40u8, 0x3Cu8, 0x01u8, 0x13u8, 0xF2u8, 0xCDu8,
        0x00u8, 0x00u8, 0x00u8, 0x01u8, 0x68u8, 0xEEu8, 0x3Cu8, 0x80u8,
        0x00u8, 0x00u8, 0x00u8, 0x01u8, 0x65u8, 0x88u8, 0x84u8, 0x00u8,
    ]
}

/// A non-IDR P-slice header behind an Annex-B start code.
pub open spec fn delta_frame_header() -> Seq<u8> {
    seq![0x00u8, 0x00u8, 0x00u8, 0x01u8, 0x41u8, 0x9Au8]
}

/// The Annex-B access unit of a frame.
pub open spec fn nal_stream(is_keyframe: bool) -> Seq<u8> {
    if is_keyframe {
        key_frame_headers() + macroblock_fill(8192)
    } else {
        delta_frame_header() + macroblock_fill(2048)
    }
}

/// Packed RGB8 pixels of RGBA8 pixels: the alpha byte of each pixel dropped.
pub open spec fn rgb_of_rgba(rgba: Seq<u8>) -> Seq<u8> {
    Seq::new((rgba.len() / 4 * 3) as nat, |j: int| rgba[(j / 3) * 4 + j % 3])
}

/// The hardware video encoder session.
pub struct NvencEncoder {
    config: VideoConfig,
    frame_count: u64,
}

impl NvencEncoder {
    pub closed spec fn spec_gop_size(self) -> u32 {
        self.config.gop_size
    }

    /// Frames encoded so far.
    pub closed spec fn spec_frame_count(self) -> u64 {
        self.frame_count
    }

    /// Opens a session for the configured resolution and bitrate.
    pub fn new(config: VideoConfig) -> (r: Result<Self, NvencError>)
        ensures
            r matches Ok(e) && e.spec_gop_size() == config.gop_size && e.spec_frame_count() == 0,
    {
        Ok(NvencEncoder { config, frame_count: 0 })
    }

    /// Frames encoded so far.
    pub fn frame_count(&self) -> (n: u64)
        ensures
            n == self.spec_frame_count(),
    {
        self.frame_count
    }

    /// The configured key-frame interval.
    pub fn gop_size(&self) -> (g: u32)
        ensures
            g == self.spec_gop_size(),
    {
        self.config.gop_size
    }

    /// Encodes the next captured frame into an H.264 Annex-B packet stamped
    /// `pts_90khz` (no B-frames: DTS = PTS), opening a new group of pictures
    /// at the configured GOP boundary.
    pub fn encode_frame(&mut self, pts_90khz: u64) -> (r: Result<MediaPacket, NvencError>)
        requires
            old(self).spec_gop_size() > 0,
            old(self).spec_frame_count() < u64::MAX,
        ensures
            final(self).spec_frame_count() == old(self).spec_frame_count() + 1,
            final(self).spec_gop_size() == old(self).spec_gop_size(),
            r matches Ok(p) && p.media_type == MediaType::VideoH264 && p.pts_90khz == pts_90khz
                && p.dts_90khz == pts_90khz && p.is_keyframe == is_key_frame(
                final(self).spec_frame_count(),
                final(self).spec_gop_size(),
            ) && p.payload@ == nal_stream(p.is_keyframe),
    {
        self.frame_count = self.frame_count + 1;
        let is_keyframe = (self.frame_count - 1) % (self.config.gop_size as u64) == 0;
        let payload = self.simulate_or_encode_nal(is_keyframe);
        Ok(MediaPacket::new_video(pts_90khz, pts_90khz, payload, is_keyframe))
    }

    /// Encodes an RGBA frame as a JPEG packet stamped `pts_90khz`, quality 75.
    /// The JPEG encoder takes RGB, so the alpha byte of every pixel is
    /// dropped first.
    pub fn encode_rgba_frame(&mut self, rgba: &[u8], width: u32, height: u32, pts_90khz: u64) -> (r: Result<
        MediaPacket,
        NvencError,
    >)
        requires
            old(self).spec_gop_size() > 0,
            old(self).spec_frame_count() < u64::MAX,
            rgba@.len() == width as int * height as int * 4,
        ensures
            final(self).spec_frame_count() == old(self).spec_frame_count() + 1,
            final(self).spec_gop_size() == old(self).spec_gop_size(),
            r is Ok <==> jpeg_size_ok(width, height),
            r matches Ok(p) ==> p.media_type == MediaType::VideoH264 && p.pts_90khz == pts_90khz
                && p.dts_90khz == pts_90khz && p.is_keyframe == is_key_frame(
                final(self).spec_frame_count(),
                final(self).spec_gop_size(),
            ) && p.payload@ == jpeg_encoding(rgb_of_rgba(rgba@), width, height, 75),
            r matches Err(e) ==> e is EncodeError,
    {
        self.frame_count = self.frame_count + 1;
        let is_keyframe = (self.frame_count - 1) % (self.config.gop_size as u64) == 0;
        let rgb = rgba_to_rgb(rgba);
        proof {
            assert(rgba@.len() / 4 * 3 == width as int * height as int * 3) by (nonlinear_arith)
                requires
                    rgba@.len() == width as int * height as int * 4,
            ;
        }
        match jpeg_encode(rgb.as_slice(), width, height, 75) {
            Ok(jpeg_bytes) => Ok(MediaPacket::new_video(pts_90khz, pts_90khz, jpeg_bytes, is_keyframe)),
            Err(msg) => Err(NvencError::EncodeError(msg)),
        }
    }

    /// The Annex-B access unit of a frame: SPS, PPS and IDR slice on key
    /// frames, a P-slice otherwise, followed by the macroblock payload.
    fn simulate_or_encode_nal(&self, is_keyframe: bool) -> (nal: Vec<u8>)
        ensures
            nal@ == nal_stream(is_keyframe),
    {
        let mut nal_data: Vec<u8> = Vec::new();
        if is_keyframe {
            nal_data.push(0x00u8); nal_data.push(0x00u8); nal_data.push(0x00u8); nal_data.push(0x01u8);
            nal_data.push(0x67u8); nal_data.push(0x64u8); nal_data.push(0x00u8); nal_data.push(0x28u8);
            nal_data.push(0xACu8); nal_data.push(0x2Bu8); nal_data.push(0x40u8); nal_data.push(0x3Cu8);
            nal_data.push(0x01u8); nal_data.push(0x13u8); nal_data.push(0xF2u8); nal_data.push(0xCDu8);
            nal_data.push(0x00u8); nal_data.push(0x00u8); nal_data.push(0x00u8); nal_data.push(0x01u8);
            nal_data.push(0x68u8); nal_data.push(0xEEu8); nal_data.push(0x3Cu8); nal_data.push(0x80u8);
            nal_data.push(0x00u8); nal_data.push(0x00u8); nal_data.push(0x00u8); nal_data.push(0x01u8);
            nal_data.push(0x65u8); nal_data.push(0x88u8); nal_data.push(0x84u8); nal_data.push(0x00u8);
            proof {
                assert(nal_data@ =~= key_frame_headers());
            }
        } else {
            nal_data.push(0x00u8); nal_data.push(0x00u8); nal_data.push(0x00u8); nal_data.push(0x01u8);
            nal_data.push(0x41u8); nal_data.push(0x9Au8);
            proof {
                assert(nal_data@ =~= delta_frame_header());
            }
        }
        let ghost head = nal_data@;
        let fill: usize = if is_keyframe { 8192 } else { 2048 };
        let mut i: usize = 0;
        while i < fill
            invariant
                i <= fill,
                nal_data@ == head + macroblock_fill(i as int),
            decreases fill - i,
        {
            nal_data.push(0xAAu8);
            proof {
                assert(head + macroblock_fill(i + 1) =~= (head + macroblock_fill(i as int)).push(0xAAu8));
            }
            i += 1;
        }
        nal_data
    }
}

/// Drops the alpha byte of every RGBA8 pixel.
fn rgba_to_rgb(rgba: &[u8]) -> (rgb: Vec<u8>)
    ensures
        rgb@ == rgb_of_rgba(rgba@),
{
    let len = rgba.len();
    let pixels = len / 4;
    let mut rgb: Vec<u8> = Vec::new();
    let mut p: usize = 0;
    while p < pixels
        invariant
            len == rgba@.len(),
            pixels == len / 4,
            p <= pixels,
            rgb@ =~= rgb_of_rgba(rgba@).take(3 * p),
        decreases pixels - p,
    {
        rgb.push(rgba[4 * p]);
        rgb.push(rgba[4 * p + 1]);
        rgb.push(rgba[4 * p + 2]);
        proof {
            assert forall|j: int| 3 * p <= j < 3 * p + 3 implies #[trigger] rgb_of_rgba(rgba@)[j] == rgba@[4 * p
                + (j - 3 * p)] by {
                assert(j / 3 == p && j % 3 == j - 3 * p);
            }
        }
        p += 1;
    }
    proof {
        assert(rgb_of_rgba(rgba@).take(3 * pixels) =~= rgb_of_rgba(rgba@));
    }
    rgb
}

/// The first frame is a key frame, and after it the cadence repeats every
/// `gop` frames: frame `n + gop` is a key frame exactly when frame `n` is.
/// With a GOP of one every frame is a key frame.
pub proof fn law_key_frames_recur_every_gop(n: u64, gop: u32)
    requires
        gop > 0,
        n >= 1,
        n + gop <= u64::MAX,
    ensures
        is_key_frame(1, gop),
        is_key_frame(n, gop) == is_key_frame((n + gop) as u64, gop),
        gop == 1 ==> is_key_frame(n, gop),
{
    assert((n + gop - 1) % (gop as int) == (n - 1) % (gop as int)) by (nonlinear_arith)
        requires
            gop > 0,
            n >= 1,
    ;
    assert(0int % (gop as int) == 0) by (nonlinear_arith)
        requires
            gop > 0,
    ;
    assert(gop == 1 ==> (n - 1) % (gop as int) == 0) by (nonlinear_arith);
}

/// The RGB picture keeps every pixel and its channels in order: three bytes
/// per pixel, and channel `c` (red, green, blue) of pixel `p` is byte
/// `4 * p + c` of the RGBA frame; the alpha byte is the one left out.
pub proof fn law_rgb_keeps_each_pixels_channels(rgba: Seq<u8>, p: int, c: int)
    requires
        0 <= p < rgba.len() / 4,
        0 <= c < 3,
    ensures
        rgb_of_rgba(rgba).len() == 3 * (rgba.len() / 4),
        rgb_of_rgba(rgba)[3 * p + c] == rgba[4 * p + c],
{
    assert((3 * p + c) / 3 == p && (3 * p + c) % 3 == c) by (nonlinear_arith)
        requires
            0 <= c < 3,
            0 <= p,
    ;
    assert(3 * p + c < 3 * (rgba.len() / 4)) by (nonlinear_arith)
        requires
            p < rgba.len() / 4,
            c < 3,
    ;
}

} // verus!