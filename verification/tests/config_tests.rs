use castscreen::config::{AudioConfig, NetworkConfig, StreamProfile, VideoConfig};
use castscreen::media::{MediaPacket, MediaType};

#[test]
fn defaults_stream_1080p60_stereo_to_port_9000() {
    let v = VideoConfig::default();
    assert_eq!((v.display_index, v.width, v.height, v.fps), (0, 1920, 1080, 60));
    assert_eq!((v.bitrate_kbps, v.gop_size), (25_000, 60));
    assert_eq!(v.nvenc_preset, "p1");
    let a = AudioConfig::default();
    assert_eq!((a.sample_rate, a.channels, a.bitrate_kbps, a.chunk_size), (48_000, 2, 320, 1024));
    let n = NetworkConfig::default();
    assert_eq!((n.host.as_str(), n.port, n.srt_latency_ms, n.is_listener), ("0.0.0.0", 9000, 1000, true));
    assert_ne!(StreamProfile::FullHd60, StreamProfile::Custom);
}

#[test]
fn media_packets_carry_their_time_stamps() {
    let v = MediaPacket::new_video(10, 8, vec![1, 2], false);
    assert_eq!(v.media_type, MediaType::VideoH264);
    assert_eq!((v.pts_90khz, v.dts_90khz, v.is_keyframe), (10, 8, false));
    let a = MediaPacket::new_audio(33, vec![3]);
    assert_eq!(a.media_type, MediaType::AudioAac);
    assert_eq!((a.pts_90khz, a.dts_90khz, a.is_keyframe), (33, 33, true));
    assert_eq!(a.payload, vec![3]);
}
