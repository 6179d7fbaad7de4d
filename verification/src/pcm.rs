//! PCM transport packing.
//!
//! Captured audio travels as interleaved signed 16-bit little-endian PCM in
//! the MPEG-TS audio stream; the receiver unpacks and plays it directly.
//! Turning float samples into 16-bit values (clamping and scaling) happens
//! where the floats live, in the capture application.
use vstd::prelude::*;
use crate::config::AudioConfig;
use crate::media::{MediaPacket, MediaType};

verus! {

/// Why the packer could not produce a packet.
#[derive(Debug)]
pub enum PcmPackError {
    /// Failed to initialize the audio encoder.
    InitFailed(String),
    /// Audio encoding buffer overflow.
    BufferOverflow,
}

/// The low byte of a sample.
pub open spec fn sample_lo(s: i16) -> u8 {
    ((s as u16) & 0xFFu16) as u8
}

/// The high byte of a sample.
pub open spec fn sample_hi(s: i16) -> u8 {
    ((s as u16) >> 8u16) as u8
}

/// The sample a little-endian byte pair stands for.
pub open spec fn sample_of(lo: u8, hi: u8) -> i16 {
    (((hi as u16) << 8u16) | (lo as u16)) as i16
}

/// Interleaved samples as little-endian bytes, two per sample.
pub open spec fn pcm_bytes(samples: Seq<i16>) -> Seq<u8> {
    Seq::new(
        samples.len() * 2,
        |j: int| if j % 2 == 0 { sample_lo(samples[j / 2]) } else { sample_hi(samples[j / 2]) },
    )
}

/// The samples of a little-endian byte payload; a trailing odd byte is
/// ignored.
pub open spec fn pcm_samples(payload: Seq<u8>) -> Seq<i16> {
    Seq::new(payload.len() / 2, |i: int| sample_of(payload[2 * i], payload[2 * i + 1]))
}

/// Interleaved samples per sample frame; a stream that declares no channels
/// counts as mono.
pub open spec fn channel_divisor(channels: u16) -> int {
    if channels == 0 { 1 } else { channels as int }
}

/// Packs interleaved 16-bit PCM blocks into audio packets with their PTS.
pub struct PcmPacker {
    config: AudioConfig,
    samples_processed: u64,
}

impl PcmPacker {
    pub closed spec fn spec_channels(self) -> u16 {
        self.config.channels
    }

    pub closed spec fn spec_sample_rate(self) -> u32 {
        self.config.sample_rate
    }

    /// Sample frames packed so far.
    pub closed spec fn spec_samples_processed(self) -> u64 {
        self.samples_processed
    }

    pub fn new(config: AudioConfig) -> (r: Result<Self, PcmPackError>)
        ensures
            r matches Ok(p) && p.spec_channels() == config.channels && p.spec_sample_rate()
                == config.sample_rate && p.spec_samples_processed() == 0,
    {
        Ok(PcmPacker { config, samples_processed: 0 })
    }

    /// Sample frames packed so far.
    pub fn samples_processed(&self) -> (n: u64)
        ensures
            n == self.spec_samples_processed(),
    {
        self.samples_processed
    }

    /// Packs a block of interleaved 16-bit samples into an audio packet
    /// stamped `pts_90khz`. Every sample is carried, nothing is padded.
    pub fn encode_pcm_block(&mut self, pcm: &[i16], pts_90khz: u64) -> (r: Result<MediaPacket, PcmPackError>)
        requires
            old(self).spec_samples_processed() + pcm@.len() as int / channel_divisor(old(self).spec_channels()) <= u64::MAX,
        ensures
            r matches Ok(p) && p.media_type == MediaType::AudioAac && p.pts_90khz == pts_90khz
                && p.dts_90khz == pts_90khz && p.is_keyframe && p.payload@ == pcm_bytes(pcm@),
            final(self).spec_samples_processed() == old(self).spec_samples_processed() + pcm@.len() as int / channel_divisor(old(self).spec_channels()),
            final(self).spec_channels() == old(self).spec_channels(),
            final(self).spec_sample_rate() == old(self).spec_sample_rate(),
    {
        let channels: usize = if self.config.channels == 0 { 1 } else { self.config.channels as usize };
        let frame_samples = (pcm.len() / channels) as u64;
        self.samples_processed = self.samples_processed + frame_samples;

        let mut payload: Vec<u8> = Vec::new();
        let mut i: usize = 0;
        while i < pcm.len()
            invariant
                i <= pcm@.len(),
                payload@ == pcm_bytes(pcm@.take(i as int)),
            decreases pcm@.len() - i,
        {
            let s = pcm[i];
            let u = s as u16;
            payload.push((u & 0xFFu16) as u8);
            payload.push((u >> 8u16) as u8);
            proof {
                let t = pcm@.take(i + 1);
                assert(t.take(i as int) =~= pcm@.take(i as int));
                assert(payload@ =~= pcm_bytes(t)) by {
                    assert forall|j: int| 0 <= j < 2 * (i + 1) implies payload@[j] == pcm_bytes(t)[j] by {
                        if j < 2 * i {
                            assert(j / 2 < i);
                        } else {
                            assert(j / 2 == i);
                        }
                    }
                }
            }
            i += 1;
        }
        proof {
            assert(pcm@.take(pcm@.len() as int) =~= pcm@);
        }
        Ok(MediaPacket::new_audio(pts_90khz, payload))
    }
}

/// Unpacks a little-endian 16-bit PCM payload into samples.
pub fn decode_pcm_payload(payload: &[u8]) -> (out: Vec<i16>)
    ensures
        out@ == pcm_samples(payload@),
{
    let mut out: Vec<i16> = Vec::new();
    let len = payload.len();
    let n = len / 2;
    let mut i: usize = 0;
    while i < n
        invariant
            len == payload@.len(),
            n == len / 2,
            i <= n,
            out@ =~= pcm_samples(payload@).take(i as int),
        decreases n - i,
    {
        let lo = payload[2 * i];
        let hi = payload[2 * i + 1];
        out.push((((hi as u16) << 8u16) | (lo as u16)) as i16);
        i += 1;
    }
    out
}

proof fn lemma_sample_bytes_roundtrip(s: i16)
    ensures
        sample_of(sample_lo(s), sample_hi(s)) == s,
{
    assert((((((s as u16) >> 8u16) as u8 as u16) << 8u16) | ((((s as u16) & 0xFFu16) as u8) as u16)) as i16
        == s) by (bit_vector);
}

/// Unpacking what was packed gives back every sample, in order.
pub proof fn law_pcm_roundtrip(samples: Seq<i16>)
    ensures
        pcm_samples(pcm_bytes(samples)) == samples,
        pcm_bytes(samples).len() == 2 * samples.len(),
{
    let b = pcm_bytes(samples);
    assert forall|i: int| 0 <= i < samples.len() implies #[trigger] pcm_samples(b)[i] == samples[i] by {
        assert((2 * i) % 2 == 0 && (2 * i) / 2 == i);
        assert((2 * i + 1) % 2 == 1 && (2 * i + 1) / 2 == i);
        lemma_sample_bytes_roundtrip(samples[i]);
    }
    assert(pcm_samples(b) =~= samples);
}

} // verus!
