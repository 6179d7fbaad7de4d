//! The MPEG-2 systems CRC-32 that terminates PSI sections (PAT / PMT).
//!
//! Polynomial 0x04C11DB7, initial value 0xFFFFFFFF, most significant bit
//! first, no reflection and no final XOR. Players validate this checksum, so it
//! is computed for real.
use vstd::prelude::*;
use crate::mpegts::be32;

verus! {

/// One shift of the CRC register, feeding back the polynomial when the bit
/// shifted out is set.
pub open spec fn crc_shift(crc: u32) -> u32 {
    if crc & 0x8000_0000u32 != 0 {
        (crc << 1u32) ^ 0x04C1_1DB7u32
    } else {
        crc << 1u32
    }
}

/// `n` shifts of the CRC register.
pub open spec fn crc_shifts(crc: u32, n: nat) -> u32
    decreases n,
{
    if n == 0 {
        crc
    } else {
        crc_shift(crc_shifts(crc, (n - 1) as nat))
    }
}

/// The register after absorbing one byte.
pub open spec fn crc_absorb_byte(crc: u32, byte: u8) -> u32 {
    crc_shifts(crc ^ ((byte as u32) << 24u32), 8)
}

/// The register after absorbing every byte of `data`, in order.
pub open spec fn crc_absorb(crc: u32, data: Seq<u8>) -> u32
    decreases data.len(),
{
    if data.len() == 0 {
        crc
    } else {
        crc_absorb_byte(crc_absorb(crc, data.drop_last()), data.last())
    }
}

/// CRC-32/MPEG-2 of `data`.
#[verifier::opaque]
pub open spec fn spec_crc32_mpeg(data: Seq<u8>) -> u32 {
    crc_absorb(0xFFFF_FFFFu32, data)
}

/// Computes the MPEG-2 systems CRC-32 of `data`.
pub fn crc32_mpeg(data: &[u8]) -> (crc: u32)
    ensures
        crc == spec_crc32_mpeg(data@),
{
    let mut crc: u32 = 0xFFFF_FFFF;
    let mut i: usize = 0;
    while i < data.len()
        invariant
            i <= data@.len(),
            crc == crc_absorb(0xFFFF_FFFFu32, data@.take(i as int)),
        decreases data@.len() - i,
    {
        let byte = data[i];
        let start: u32 = crc ^ ((byte as u32) << 24u32);
        crc = start;
        let mut bit: usize = 0;
        while bit < 8
            invariant
                bit <= 8,
                crc == crc_shifts(start, bit as nat),
            decreases 8 - bit,
        {
            if crc & 0x8000_0000u32 != 0 {
                crc = (crc << 1u32) ^ 0x04C1_1DB7u32;
            } else {
                crc = crc << 1u32;
            }
            bit += 1;
        }
        proof {
            assert(data@.take(i + 1).drop_last() =~= data@.take(i as int));
        }
        i += 1;
    }
    proof {
        assert(data@.take(data@.len() as int) =~= data@);
        reveal(spec_crc32_mpeg);
    }
    crc
}

/// Absorbing `a` and then `b` is absorbing their concatenation.
proof fn lemma_absorb_concat(crc: u32, a: Seq<u8>, b: Seq<u8>)
    ensures
        crc_absorb(crc, a + b) == crc_absorb(crc_absorb(crc, a), b),
    decreases b.len(),
{
    if b.len() == 0 {
        assert(a + b =~= a);
    } else {
        assert((a + b).drop_last() =~= a + b.drop_last());
        lemma_absorb_concat(crc, a, b.drop_last());
    }
}

/// A register whose top byte is clear shifts out eight zero bits: no
/// feedback is applied.
proof fn lemma_shifts_of_low_register(x: u32)
    requires
        x < 0x0100_0000,
    ensures
        crc_shifts(x, 8) == x << 8u32,
{
    reveal_with_fuel(crc_shifts, 9);
    assert(crc_shift(crc_shift(crc_shift(crc_shift(crc_shift(crc_shift(crc_shift(crc_shift(x)))))))) == x << 8u32)
        by (bit_vector)
        requires
            x < 0x0100_0000,
    ;
}

/// Absorbing the four big-endian bytes of the register itself clears it.
proof fn lemma_absorb_own_bytes(r: u32)
    ensures
        crc_absorb(r, be32(r)) == 0,
{
    let b = be32(r);
    let x0 = r ^ ((b[0] as u32) << 24u32);
    assert(x0 == r & 0x00FF_FFFFu32 && x0 < 0x0100_0000) by (bit_vector)
        requires
            x0 == r ^ ((((r >> 24u32) & 0xFFu32) as u8 as u32) << 24u32),
    ;
    lemma_shifts_of_low_register(x0);
    let r1 = x0 << 8u32;
    let x1 = r1 ^ ((b[1] as u32) << 24u32);
    assert(x1 == (r & 0xFFFFu32) << 8u32 && x1 < 0x0100_0000) by (bit_vector)
        requires
            x1 == ((r & 0x00FF_FFFFu32) << 8u32) ^ ((((r >> 16u32) & 0xFFu32) as u8 as u32) << 24u32),
    ;
    lemma_shifts_of_low_register(x1);
    let r2 = x1 << 8u32;
    let x2 = r2 ^ ((b[2] as u32) << 24u32);
    assert(x2 == (r & 0xFFu32) << 16u32 && x2 < 0x0100_0000) by (bit_vector)
        requires
            x2 == (((r & 0xFFFFu32) << 8u32) << 8u32) ^ ((((r >> 8u32) & 0xFFu32) as u8 as u32) << 24u32),
    ;
    lemma_shifts_of_low_register(x2);
    let r3 = x2 << 8u32;
    let x3 = r3 ^ ((b[3] as u32) << 24u32);
    assert(x3 == 0) by (bit_vector)
        requires
            x3 == (((r & 0xFFu32) << 16u32) << 8u32) ^ (((r & 0xFFu32) as u8 as u32) << 24u32),
    ;
    lemma_shifts_of_low_register(x3);
    assert(0u32 << 8u32 == 0) by (bit_vector);
    assert(crc_absorb(r, Seq::<u8>::empty()) == r);
    assert(seq![b[0]].drop_last() =~= Seq::<u8>::empty());
    assert(crc_absorb(r, seq![b[0]]) == r1);
    assert(seq![b[0], b[1]].drop_last() =~= seq![b[0]]);
    assert(crc_absorb(r, seq![b[0], b[1]]) == r2);
    assert(seq![b[0], b[1], b[2]].drop_last() =~= seq![b[0], b[1]]);
    assert(crc_absorb(r, seq![b[0], b[1], b[2]]) == r3);
    assert(b.drop_last() =~= seq![b[0], b[1], b[2]]);
}

/// A section followed by its own CRC in big-endian order checks to zero,
/// which is how a receiver validates a PSI section; the CRC of no bytes is
/// the initial register, 0xFFFFFFFF.
pub proof fn law_crc_residue_is_zero(data: Seq<u8>)
    ensures
        spec_crc32_mpeg(data + be32(spec_crc32_mpeg(data))) == 0,
        spec_crc32_mpeg(Seq::empty()) == 0xFFFF_FFFFu32,
{
    reveal(spec_crc32_mpeg);
    let r = crc_absorb(0xFFFF_FFFFu32, data);
    lemma_absorb_concat(0xFFFF_FFFFu32, data, be32(r));
    lemma_absorb_own_bytes(r);
}

} // verus!
