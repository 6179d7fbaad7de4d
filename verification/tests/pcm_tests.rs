use castscreen::config::AudioConfig;
use castscreen::media::MediaType;
use castscreen::pcm::{decode_pcm_payload, PcmPacker};

/// The float-to-16-bit step the capture side applies before packing.
fn quantize(sample: f32) -> i16 {
    (sample.clamp(-1.0, 1.0) * 32767.0).round() as i16
}

#[test]
fn test_pcm_roundtrip_is_lossless_enough() {
    let mut encoder = PcmPacker::new(AudioConfig::default()).unwrap();
    let pcm: Vec<f32> = (0..2048).map(|i| ((i as f32) * 0.01).sin() * 0.5).collect();
    let samples: Vec<i16> = pcm.iter().map(|&s| quantize(s)).collect();
    let packet = encoder.encode_pcm_block(&samples, 90_000).unwrap();

    // Real data: 2 bytes per sample, no padding.
    assert_eq!(packet.payload.len(), pcm.len() * 2);

    let decoded: Vec<f32> = decode_pcm_payload(&packet.payload).iter().map(|&s| s as f32 / 32768.0).collect();
    assert_eq!(decoded.len(), pcm.len());
    for (a, b) in pcm.iter().zip(decoded.iter()) {
        assert!((a - b).abs() < 1.0 / 256.0, "sample drift too high");
    }
}

#[test]
fn pcm_roundtrip_gives_back_every_sample() {
    let mut packer = PcmPacker::new(AudioConfig::default()).unwrap();
    let samples: Vec<i16> = vec![0, 1, -1, i16::MAX, i16::MIN, 256, -257, 12345];
    let packet = packer.encode_pcm_block(&samples, 7).unwrap();
    assert_eq!(decode_pcm_payload(&packet.payload), samples);
}

#[test]
fn pcm_payload_is_little_endian() {
    let mut packer = PcmPacker::new(AudioConfig::default()).unwrap();
    let packet = packer.encode_pcm_block(&[0x1234, -2], 1234).unwrap();
    assert_eq!(packet.payload, vec![0x34, 0x12, 0xFE, 0xFF]);
    assert_eq!(packet.media_type, MediaType::AudioAac);
    assert_eq!(packet.pts_90khz, 1234);
    assert_eq!(packet.dts_90khz, 1234);
    assert!(packet.is_keyframe);
}

#[test]
fn pcm_packer_counts_sample_frames() {
    let mut packer = PcmPacker::new(AudioConfig::default()).unwrap();
    assert_eq!(packer.samples_processed(), 0);
    packer.encode_pcm_block(&[0i16; 2048], 0).unwrap();
    assert_eq!(packer.samples_processed(), 1024);
    packer.encode_pcm_block(&[0i16; 3], 0).unwrap();
    assert_eq!(packer.samples_processed(), 1025);
}

#[test]
fn pcm_packer_with_no_channels_counts_as_mono() {
    let mut config = AudioConfig::default();
    config.channels = 0;
    let mut packer = PcmPacker::new(config).unwrap();
    packer.encode_pcm_block(&[1i16, 2, 3], 0).unwrap();
    assert_eq!(packer.samples_processed(), 3);
}

#[test]
fn pcm_decode_ignores_a_trailing_odd_byte() {
    assert_eq!(decode_pcm_payload(&[0x01, 0x00, 0x7F]), vec![1i16]);
    assert!(decode_pcm_payload(&[]).is_empty());
}
