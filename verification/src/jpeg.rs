//! Still-image compression of captured frames, by the `image` crate.
use vstd::prelude::*;

verus! {

/// The baseline JPEG stream that `image`'s encoder writes for an RGB8 image
/// at the given quality.
pub uninterp spec fn jpeg_encoding(rgb: Seq<u8>, width: u32, height: u32, quality: u8) -> Seq<u8>;

/// JPEG frame dimensions are 16-bit and non-zero.
pub open spec fn jpeg_size_ok(width: u32, height: u32) -> bool {
    1 <= width <= 65535 && 1 <= height <= 65535
}

/// Encodes a packed RGB8 image with `image::codecs::jpeg::JpegEncoder`
/// (`new_with_quality`, then `encode` with `ExtendedColorType::Rgb8`) into a
/// byte vector.
///
/// The encoder asserts that the buffer holds exactly `width * height * 3`
/// bytes, so that is required. It refuses a zero or wider than 16-bit
/// dimension; otherwise writing into a vector cannot fail, and the bytes it
/// writes begin with the SOI marker (0xFF 0xD8). What the rest of the stream
/// holds is the encoder's own algorithm and is only named here.
#[verifier::external_body]
pub(crate) fn jpeg_encode(rgb: &[u8], width: u32, height: u32, quality: u8) -> (r: Result<Vec<u8>, String>)
    requires
        rgb@.len() == width as int * height as int * 3,
    ensures
        match r {
            Ok(bytes) => {
                &&& jpeg_size_ok(width, height)
                &&& bytes@ == jpeg_encoding(rgb@, width, height, quality)
                &&& bytes@.len() >= 2
                &&& bytes@[0] == 0xFF
                &&& bytes@[1] == 0xD8
            },
            Err(_) => !jpeg_size_ok(width, height),
        },
{
    let mut out: Vec<u8> = Vec::new();
    let res = image::codecs::jpeg::JpegEncoder::new_with_quality(&mut out, quality).encode(
        rgb,
        width,
        height,
        image::ExtendedColorType::Rgb8,
    );
    match res {
        Ok(()) => Ok(out),
        Err(e) => Err(e.to_string()),
    }
}

} // verus!
