//! Captured desktop frames: pixel order conversion.
use vstd::prelude::*;

verus! {

/// Byte `i` of a BGRA8 buffer after conversion to opaque RGBA8: blue and red
/// swap places and alpha becomes 255 in every whole pixel; a trailing partial
/// pixel is left as it is.
pub open spec fn rgba_byte(bgra: Seq<u8>, i: int) -> u8 {
    let whole = bgra.len() / 4 * 4;
    let k = i % 4;
    if i >= whole {
        bgra[i]
    } else if k == 0 {
        bgra[i + 2]
    } else if k == 2 {
        bgra[i - 2]
    } else if k == 3 {
        255u8
    } else {
        bgra[i]
    }
}

pub open spec fn bgra_as_rgba(bgra: Seq<u8>) -> Seq<u8> {
    Seq::new(bgra.len(), |i: int| rgba_byte(bgra, i))
}

/// Converts a BGRA8 frame to opaque RGBA8 in place.
pub fn bgra_to_rgba(pixels: &mut Vec<u8>)
    ensures
        final(pixels)@ == bgra_as_rgba(old(pixels)@),
{
    let ghost orig = pixels@;
    let len = pixels.len();
    let count = len / 4;
    let mut p: usize = 0;
    while p < count
        invariant
            len == orig.len(),
            count == len / 4,
            p <= count,
            pixels@.len() == len,
            forall|i: int| 0 <= i < 4 * p ==> #[trigger] pixels@[i] == rgba_byte(orig, i),
            forall|i: int| 4 * p <= i < len ==> #[trigger] pixels@[i] == orig[i],
        decreases count - p,
    {
        let base = 4 * p;
        let b = pixels[base];
        let r = pixels[base + 2];
        pixels.set(base, r);
        pixels.set(base + 2, b);
        pixels.set(base + 3, 255u8);
        proof {
            assert forall|i: int| 0 <= i < 4 * (p + 1) implies #[trigger] pixels@[i] == rgba_byte(orig, i) by {
                if i >= 4 * p {
                    assert(i % 4 == i - 4 * p);
                }
            }
        }
        p += 1;
    }
    proof {
        assert(pixels@ =~= bgra_as_rgba(orig));
    }
}

} // verus!
