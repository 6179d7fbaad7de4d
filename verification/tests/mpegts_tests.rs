use castscreen::crc::crc32_mpeg;
use castscreen::media::MediaPacket;
use castscreen::mpegts::{MpegTsDemuxer, MpegTsMuxer, TS_PACKET_SIZE, TS_SYNC_BYTE};

#[test]
fn test_ts_packets_alignment() {
    let mut muxer = MpegTsMuxer::new();
    let payload = vec![0x12; 500];
    let packet = MediaPacket::new_video(90_000, 90_000, payload, true);
    let ts_data = muxer.mux_packet(&packet);

    assert_eq!(ts_data.len() % TS_PACKET_SIZE, 0);
    for chunk in ts_data.chunks_exact(TS_PACKET_SIZE) {
        assert_eq!(chunk[0], TS_SYNC_BYTE);
    }
}

#[test]
fn test_muxer_demuxer_roundtrip() {
    let mut muxer = MpegTsMuxer::new();
    let mut demuxer = MpegTsDemuxer::new();

    let sent_frame_1 = vec![0xAA; 4096];
    let sent_frame_2 = vec![0xBB; 8192];

    let p1 = MediaPacket::new_video(90_000, 90_000, sent_frame_1.clone(), true);
    let p2 = MediaPacket::new_video(91_500, 91_500, sent_frame_2.clone(), false);

    let ts1 = muxer.mux_packet(&p1);
    let ts2 = muxer.mux_packet(&p2);

    demuxer.feed_ts_bytes(&ts1);
    demuxer.feed_ts_bytes(&ts2);
    demuxer.flush();

    let frame1 = demuxer.next_video_frame().expect("Frame 1 missing");
    let frame2 = demuxer.next_video_frame().expect("Frame 2 missing");

    assert_eq!(frame1, sent_frame_1);
    assert_eq!(frame2, sent_frame_2);
}

#[test]
fn test_audio_roundtrip() {
    let mut muxer = MpegTsMuxer::new();
    let mut demuxer = MpegTsDemuxer::new();

    let audio_1 = vec![0x11u8; 3072];
    let audio_2 = vec![0x22u8; 3072];

    let v = MediaPacket::new_video(90_000, 90_000, vec![0x33; 2048], true);
    let a1 = MediaPacket::new_audio(90_000, audio_1.clone());
    let a2 = MediaPacket::new_audio(91_920, audio_2.clone());

    demuxer.feed_ts_bytes(&muxer.mux_packet(&v));
    demuxer.feed_ts_bytes(&muxer.mux_packet(&a1));
    demuxer.feed_ts_bytes(&muxer.mux_packet(&a2));
    demuxer.flush();

    let got1 = demuxer.next_audio_frame().expect("Audio 1 missing");
    let got2 = demuxer.next_audio_frame().expect("Audio 2 missing");
    assert_eq!(got1, audio_1);
    assert_eq!(got2, audio_2);
}

#[test]
fn test_psi_crc_matches_section() {
    let mut muxer = MpegTsMuxer::new();
    let ts = muxer.mux_packet(&MediaPacket::new_video(0, 0, vec![0x00; 32], true));

    let pat = &ts[0..TS_PACKET_SIZE];
    let pat_crc = crc32_mpeg(&pat[5..17]).to_be_bytes();
    assert_eq!(&pat[17..21], &pat_crc);

    let pmt = &ts[TS_PACKET_SIZE..TS_PACKET_SIZE * 2];
    let pmt_crc = crc32_mpeg(&pmt[5..27]).to_be_bytes();
    assert_eq!(&pmt[27..31], &pmt_crc);
}

#[test]
fn test_crc32_mpeg_known_vector() {
    assert_eq!(crc32_mpeg(b"123456789"), 0x0376_E6E7);
}

#[test]
fn a_section_followed_by_its_crc_checks_to_zero() {
    assert_eq!(crc32_mpeg(&[]), 0xFFFF_FFFF);
    let sections: [&[u8]; 3] = [b"", b"123456789", &[0x00, 0xB0, 0x0D, 0x00, 0x01, 0xC1, 0x00, 0x00, 0x00, 0x01, 0xF0, 0x00]];
    for section in sections {
        let mut framed = section.to_vec();
        framed.extend_from_slice(&crc32_mpeg(section).to_be_bytes());
        assert_eq!(crc32_mpeg(&framed), 0);
    }
}

#[test]
fn demux_returns_what_was_muxed_across_split_feeds() {
    let mut muxer = MpegTsMuxer::new();
    let mut demuxer = MpegTsDemuxer::new();
    let frames: Vec<Vec<u8>> = vec![vec![1u8; 10], vec![2u8; 500], vec![3u8; 184], vec![4u8; 7000]];
    let audio: Vec<Vec<u8>> = vec![vec![9u8; 64], vec![8u8; 3000]];
    let mut stream = Vec::new();
    for (i, f) in frames.iter().enumerate() {
        let pts = 90_000 + 1_500 * i as u64;
        stream.extend(muxer.mux_packet(&MediaPacket::new_video(pts, pts, f.clone(), i == 0)));
        if i < audio.len() {
            stream.extend(muxer.mux_packet(&MediaPacket::new_audio(pts, audio[i].clone())));
        }
    }
    // Deliver the stream in awkward pieces, as a TCP link may.
    for piece in stream.chunks(101) {
        assert!(!demuxer.feed_would_fault(piece));
        demuxer.feed_ts_bytes(piece);
    }
    assert!(!demuxer.flush_would_fault());
    demuxer.flush();
    for f in &frames {
        assert_eq!(demuxer.next_video_frame().as_ref(), Some(f));
    }
    assert_eq!(demuxer.next_video_frame(), None);
    for a in &audio {
        assert_eq!(demuxer.next_audio_frame().as_ref(), Some(a));
    }
    assert_eq!(demuxer.next_audio_frame(), None);
}

#[test]
fn muxer_injects_tables_before_key_frames_only() {
    let mut muxer = MpegTsMuxer::new();
    let key = muxer.mux_packet(&MediaPacket::new_video(0, 0, vec![0u8; 10], true));
    let delta = muxer.mux_packet(&MediaPacket::new_video(3000, 3000, vec![0u8; 10], false));
    // PAT, PMT and one video packet; then one video packet.
    assert_eq!(key.len(), 3 * TS_PACKET_SIZE);
    assert_eq!(delta.len(), TS_PACKET_SIZE);
    // PIDs: PAT 0, PMT 0x1000, video 0x0100.
    let pid = |p: &[u8]| (((p[1] & 0x1F) as u16) << 8) | p[2] as u16;
    assert_eq!(pid(&key[0..]), 0x0000);
    assert_eq!(pid(&key[TS_PACKET_SIZE..]), 0x1000);
    assert_eq!(pid(&key[2 * TS_PACKET_SIZE..]), 0x0100);
    assert_eq!(pid(&delta), 0x0100);
    // The continuity counter of the video PID advances by one per packet.
    assert_eq!(key[2 * TS_PACKET_SIZE + 3] & 0x0F, 0);
    assert_eq!(delta[3] & 0x0F, 1);
}

#[test]
fn demuxer_ignores_bytes_until_a_sync_byte_and_keeps_partial_packets() {
    let mut muxer = MpegTsMuxer::new();
    let mut demuxer = MpegTsDemuxer::new();
    let ts = muxer.mux_packet(&MediaPacket::new_audio(0, vec![5u8; 40]));
    let mut noisy = vec![0x00, 0x11, 0x22];
    noisy.extend_from_slice(&ts[..100]);
    demuxer.feed_ts_bytes(&noisy);
    demuxer.feed_ts_bytes(&ts[100..]);
    demuxer.flush();
    assert_eq!(demuxer.next_audio_frame(), Some(vec![5u8; 40]));
}

/// A video TS packet opening a PES whose declared length ends inside its
/// own optional header.
fn reversed_pes_packet() -> Vec<u8> {
    let mut pkt = vec![0xFFu8; TS_PACKET_SIZE];
    pkt[0] = TS_SYNC_BYTE;
    pkt[1] = 0x41; // PUSI, PID 0x0100
    pkt[2] = 0x00;
    pkt[3] = 0x10; // payload only
    let pes = [0x00, 0x00, 0x01, 0xE0, 0x00, 0x03, 0x80, 0x80, 0x05];
    pkt[4..13].copy_from_slice(&pes);
    pkt
}

#[test]
fn demuxer_reports_a_pes_it_cannot_extract() {
    let mut demuxer = MpegTsDemuxer::new();
    let bad = reversed_pes_packet();
    // The first packet only opens the PES.
    assert!(!demuxer.feed_would_fault(&bad));
    demuxer.feed_ts_bytes(&bad);
    // Closing it, by flush or by the next PUSI packet, would fault.
    assert!(demuxer.flush_would_fault());
    assert!(demuxer.feed_would_fault(&bad));
    // Bytes that close nothing are fine.
    assert!(!demuxer.feed_would_fault(&[0x00, 0x01, 0x02]));
}

#[test]
fn default_muxer_and_demuxer_start_fresh() {
    let packet = MediaPacket::new_video(90_000, 90_000, vec![7u8; 300], true);
    let mut fresh = MpegTsMuxer::new();
    let mut default = MpegTsMuxer::default();
    let ts = fresh.mux_packet(&packet);
    assert_eq!(default.mux_packet(&packet), ts);
    let mut demuxer = MpegTsDemuxer::default();
    demuxer.feed_ts_bytes(&ts);
    demuxer.flush();
    assert_eq!(demuxer.next_video_frame(), Some(vec![7u8; 300]));
}

fn packet_pid_of(p: &[u8]) -> u16 {
    (((p[1] & 0x1F) as u16) << 8) | p[2] as u16
}

/// A run of 70 calls: a key frame, then delta frames of several sizes, with
/// audio packets at calls 45 and 60.
fn mux_run() -> Vec<Vec<u8>> {
    let mut muxer = MpegTsMuxer::new();
    (0..70u64)
        .map(|i| {
            let packet = if i == 45 || i == 60 {
                MediaPacket::new_audio(i * 1500, vec![i as u8; 300])
            } else {
                MediaPacket::new_video(i * 1500, i * 1500, vec![i as u8; 100 + 37 * i as usize], i == 0)
            };
            muxer.mux_packet(&packet)
        })
        .collect()
}

#[test]
fn each_pid_counts_its_own_packets_modulo_16() {
    let outputs = mux_run();
    let mut seen = std::collections::HashMap::new();
    for out in &outputs {
        for pkt in out.chunks(TS_PACKET_SIZE) {
            let k = seen.entry(packet_pid_of(pkt)).or_insert(0usize);
            assert_eq!((pkt[3] & 0x0F) as usize, *k % 16);
            *k += 1;
        }
    }
    for pid in [0x0000u16, 0x1000, 0x0100, 0x0101] {
        assert!(seen.contains_key(&pid));
    }
    assert!(seen[&0x0100] > 16);
}

#[test]
fn tables_open_the_first_output_every_key_frame_and_every_31_outputs() {
    let outputs = mux_run();
    let opens: Vec<bool> = outputs
        .iter()
        .map(|out| out.len() >= 2 * TS_PACKET_SIZE && packet_pid_of(out) == 0x0000 && packet_pid_of(&out[TS_PACKET_SIZE..]) == 0x1000)
        .collect();
    assert!(opens[0]);
    // Audio packets are key frames: calls 45 and 60.
    assert!(opens[45] && opens[60]);
    for window in opens.windows(31) {
        assert!(window.contains(&true));
    }
    // The countdown alone: call 0, then 31 calls later, and nothing else.
    let open_calls: Vec<usize> = (0..opens.len()).filter(|&i| opens[i]).collect();
    assert_eq!(open_calls, vec![0, 31, 45, 60]);
    for (out, open) in outputs.iter().zip(&opens) {
        for (j, pkt) in out.chunks(TS_PACKET_SIZE).enumerate() {
            let pid = packet_pid_of(pkt);
            if *open && j < 2 {
                continue;
            }
            assert!(pid == 0x0100 || pid == 0x0101);
        }
    }
}

#[test]
fn feeding_in_two_pieces_equals_feeding_at_once() {
    let stream: Vec<u8> = mux_run().concat();
    let mut whole = MpegTsDemuxer::new();
    whole.feed_ts_bytes(&stream);
    for cut in [0usize, 1, 187, 188, 189, 5000, stream.len() - 1, stream.len()] {
        let mut split = MpegTsDemuxer::new();
        split.feed_ts_bytes(&stream[..cut]);
        split.feed_ts_bytes(&stream[cut..]);
        let mut a = MpegTsDemuxer::new();
        a.feed_ts_bytes(&stream);
        a.flush();
        split.flush();
        loop {
            let (x, y) = (a.next_video_frame(), split.next_video_frame());
            assert_eq!(x, y);
            if x.is_none() {
                break;
            }
        }
        loop {
            let (x, y) = (a.next_audio_frame(), split.next_audio_frame());
            assert_eq!(x, y);
            if x.is_none() {
                break;
            }
        }
    }
    whole.flush();
    assert_eq!(whole.next_audio_frame(), Some(vec![45u8; 300]));
}
