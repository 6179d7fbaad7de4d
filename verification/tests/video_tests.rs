use castscreen::config::VideoConfig;
use castscreen::media::MediaType;
use castscreen::video::{NvencEncoder, NvencError};

fn encoder_with_gop(gop: u32) -> NvencEncoder {
    let mut config = VideoConfig::default();
    config.gop_size = gop;
    NvencEncoder::new(config).unwrap()
}

#[test]
fn key_frames_recur_every_gop() {
    let mut enc = encoder_with_gop(3);
    let keys: Vec<bool> = (0..7).map(|i| enc.encode_frame(i * 1500).unwrap().is_keyframe).collect();
    assert_eq!(keys, vec![true, false, false, true, false, false, true]);
    assert_eq!(enc.frame_count(), 7);
    assert_eq!(enc.gop_size(), 3);
}

#[test]
fn a_gop_of_one_makes_every_frame_a_key_frame() {
    let mut enc = encoder_with_gop(1);
    for i in 0..5u64 {
        assert!(enc.encode_frame(i * 1500).unwrap().is_keyframe);
    }
    let mut enc = encoder_with_gop(60);
    let keys: Vec<u64> = (1..=125u64).filter(|_| enc.encode_frame(0).unwrap().is_keyframe).collect();
    assert_eq!(keys, vec![1, 61, 121]);
}

#[test]
fn encoded_frames_are_annex_b_access_units() {
    let mut enc = encoder_with_gop(60);
    let key = enc.encode_frame(90_000).unwrap();
    assert_eq!(key.media_type, MediaType::VideoH264);
    assert_eq!(key.pts_90khz, 90_000);
    assert_eq!(key.dts_90khz, 90_000);
    assert_eq!(&key.payload[..5], &[0x00, 0x00, 0x00, 0x01, 0x67]);
    assert_eq!(key.payload.len(), 32 + 8192);
    let delta = enc.encode_frame(91_500).unwrap();
    assert!(!delta.is_keyframe);
    assert_eq!(&delta.payload[..6], &[0x00, 0x00, 0x00, 0x01, 0x41, 0x9A]);
    assert_eq!(delta.payload.len(), 6 + 2048);
}

#[test]
fn rgba_frames_become_jpeg_pictures() {
    let mut enc = encoder_with_gop(2);
    let (w, h) = (16u32, 8u32);
    let rgba: Vec<u8> = (0..w * h * 4).map(|i| (i % 251) as u8).collect();
    let packet = enc.encode_rgba_frame(&rgba, w, h, 3000).unwrap();
    assert_eq!(packet.pts_90khz, 3000);
    assert!(packet.is_keyframe);
    assert_eq!(&packet.payload[..2], &[0xFF, 0xD8]);
    assert_ne!(packet.payload, rgba);
    // The same picture encodes to the same bytes.
    let again = enc.encode_rgba_frame(&rgba, w, h, 6000).unwrap();
    assert!(!again.is_keyframe);
    assert_eq!(again.payload, packet.payload);
}

#[test]
fn empty_pictures_are_an_encode_error() {
    let mut enc = encoder_with_gop(2);
    let r = enc.encode_rgba_frame(&[], 0, 0, 0);
    assert!(matches!(r, Err(NvencError::EncodeError(_))));
    // The failed frame still counts.
    assert_eq!(enc.frame_count(), 1);
}
