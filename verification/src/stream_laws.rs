//! What the transport stream promises as a whole: the multiplexer emits whole
//! 188-byte packets, its PSI tables carry their own CRC, and the
//! demultiplexer gives back, stream by stream and in order, exactly the
//! payloads that were multiplexed.
use vstd::prelude::*;
use crate::crc::spec_crc32_mpeg;
use crate::media::{MediaPacket, MediaType};
use crate::mpegts::{
    absorb, absorb_faults, be32, carries_pcr, close_stream, extract_pes, feed, feed_faults, flush_faults,
    flush_state, has_dts, pes_packet, mux_next, pes_declared_len, pes_header_data_len, pes_length_field, pes_payload_start,
    stream_id, timestamp_field, pes_range_reversed, packet_pid, scan, scan_faults, ts_payload, chunk_len, injects_tables, media_pes, mux_output, next_cc, packetize, packetize_cc, pat_packet,
    pat_section, pmt_packet, pmt_section, process_faults, process_packet, psi_packet, stream_cc, stream_pid,
    stuffing, ts_header, ts_packet, DemuxView, MuxerView, PID_AUDIO, PID_PAT, PID_PMT, PID_VIDEO, TS_SYNC_BYTE,
};

verus! {

/// `s` is a run of whole TS packets, each starting with the sync byte.
pub open spec fn aligned(s: Seq<u8>) -> bool
    decreases s.len(),
{
    if s.len() == 0 {
        true
    } else {
        s.len() >= 188 && s[0] == TS_SYNC_BYTE && aligned(s.skip(188))
    }
}

/// The demultiplexer after a run of whole TS packets.
pub open spec fn process_all(d: DemuxView, s: Seq<u8>) -> DemuxView
    decreases s.len(),
{
    if s.len() < 188 {
        d
    } else {
        process_all(process_packet(d, s.take(188)), s.skip(188))
    }
}

pub open spec fn process_all_faults(d: DemuxView, s: Seq<u8>) -> bool
    decreases s.len(),
{
    if s.len() < 188 {
        false
    } else {
        process_faults(d, s.take(188)) || process_all_faults(process_packet(d, s.take(188)), s.skip(188))
    }
}

proof fn lemma_aligned_concat(a: Seq<u8>, b: Seq<u8>)
    requires
        aligned(a),
        aligned(b),
    ensures
        aligned(a + b),
    decreases a.len(),
{
    if a.len() == 0 {
        assert(a + b =~= b);
    } else {
        lemma_aligned_concat(a.skip(188), b);
        assert((a + b).skip(188) =~= a.skip(188) + b);
    }
}

proof fn lemma_one_packet_aligned(pkt: Seq<u8>)
    requires
        pkt.len() == 188,
        pkt[0] == TS_SYNC_BYTE,
    ensures
        aligned(pkt),
{
    assert(pkt.skip(188).len() == 0);
    assert(aligned(pkt.skip(188)));
}

proof fn lemma_ts_packet_shape(pid: u16, pusi: bool, cc: u8, pcr: Option<u64>, chunk: Seq<u8>)
    requires
        1 <= chunk.len() <= 184,
        pcr is Some ==> chunk.len() <= 176,
    ensures
        ts_packet(pid, pusi, cc, pcr, chunk).len() == 188,
        ts_packet(pid, pusi, cc, pcr, chunk)[0] == TS_SYNC_BYTE,
        aligned(ts_packet(pid, pusi, cc, pcr, chunk)),
{
    let pkt = ts_packet(pid, pusi, cc, pcr, chunk);
    assert(pkt.len() == 188);
    assert(pkt[0] == TS_SYNC_BYTE);
    lemma_one_packet_aligned(pkt);
}

proof fn lemma_chunk_bounds(remaining: int, with_pcr: bool)
    requires
        remaining >= 1,
    ensures
        1 <= chunk_len(remaining, with_pcr) <= 184,
        chunk_len(remaining, with_pcr) <= remaining,
        with_pcr ==> chunk_len(remaining, with_pcr) <= 176,
{
}

proof fn lemma_packetize_aligned(pid: u16, pes: Seq<u8>, first: bool, insert_pcr: bool, pcr: u64, cc: u8)
    ensures
        aligned(packetize(pid, pes, first, insert_pcr, pcr, cc)),
    decreases pes.len(),
{
    if pes.len() > 0 {
        let with_pcr = first && insert_pcr;
        let n = chunk_len(pes.len() as int, with_pcr);
        lemma_chunk_bounds(pes.len() as int, with_pcr);
        lemma_ts_packet_shape(pid, first, cc, if with_pcr { Some(pcr) } else { None }, pes.take(n));
        lemma_packetize_aligned(pid, pes.skip(n), false, insert_pcr, pcr, next_cc(cc));
        lemma_aligned_concat(
            ts_packet(pid, first, cc, if with_pcr { Some(pcr) } else { None }, pes.take(n)),
            packetize(pid, pes.skip(n), false, insert_pcr, pcr, next_cc(cc)),
        );
    } else {
        assert(packetize(pid, pes, first, insert_pcr, pcr, cc).len() == 0);
    }
}

proof fn lemma_psi_shape(pid: u16, cc: u8, section: Seq<u8>)
    requires
        section.len() <= 179,
    ensures
        psi_packet(pid, cc, section).len() == 188,
        psi_packet(pid, cc, section)[0] == TS_SYNC_BYTE,
        aligned(psi_packet(pid, cc, section)),
{
    let pkt = psi_packet(pid, cc, section);
    assert(pkt[0] == TS_SYNC_BYTE);
    lemma_one_packet_aligned(pkt);
}

proof fn lemma_tables_aligned(m: MuxerView)
    ensures
        aligned(pat_packet(m.pat_cc) + pmt_packet(m.pmt_cc)),
        pat_packet(m.pat_cc).len() == 188,
        pmt_packet(m.pmt_cc).len() == 188,
{
    lemma_psi_shape(PID_PAT, m.pat_cc, pat_section());
    lemma_psi_shape(PID_PMT, m.pmt_cc, pmt_section());
    lemma_aligned_concat(pat_packet(m.pat_cc), pmt_packet(m.pmt_cc));
}

proof fn lemma_mux_output_is_aligned(m: MuxerView, p: MediaPacket)
    ensures
        aligned(mux_output(m, p)),
{
    lemma_tables_aligned(m);
    let body = packetize(
        stream_pid(p.media_type),
        media_pes(p),
        true,
        carries_pcr(p),
        p.pts_90khz,
        stream_cc(m, p.media_type),
    );
    lemma_packetize_aligned(
        stream_pid(p.media_type),
        media_pes(p),
        true,
        carries_pcr(p),
        p.pts_90khz,
        stream_cc(m, p.media_type),
    );
    if injects_tables(m, p) {
        lemma_aligned_concat(pat_packet(m.pat_cc) + pmt_packet(m.pmt_cc), body);
    } else {
        assert(Seq::<u8>::empty() + body =~= body);
    }
}

proof fn lemma_aligned_sync_bytes(s: Seq<u8>)
    requires
        aligned(s),
    ensures
        s.len() % 188 == 0,
        forall|k: int| 0 <= k < s.len() / 188 ==> #[trigger] s[188 * k] == TS_SYNC_BYTE,
    decreases s.len(),
{
    if s.len() > 0 {
        let t = s.skip(188);
        lemma_aligned_sync_bytes(t);
        assert forall|k: int| 0 <= k < s.len() / 188 implies #[trigger] s[188 * k] == TS_SYNC_BYTE by {
            if k > 0 {
                assert(t[188 * (k - 1)] == TS_SYNC_BYTE);
                assert(s[188 * k] == t[188 * (k - 1)]);
            }
        }
    }
}

/// Every multiplexed media packet comes out as a whole number of 188-byte TS
/// packets, each of which begins with the sync byte 0x47.
pub proof fn law_mux_emits_whole_ts_packets(m: MuxerView, p: MediaPacket)
    ensures
        mux_output(m, p).len() % 188 == 0,
        forall|k: int|
            0 <= k < mux_output(m, p).len() / 188 ==> #[trigger] mux_output(m, p)[188 * k]
                == TS_SYNC_BYTE,
{
    lemma_mux_output_is_aligned(m, p);
    lemma_aligned_sync_bytes(mux_output(m, p));
}

/// The PAT and PMT the multiplexer emits end with the big-endian CRC-32 of
/// their section (PAT: bytes 17..21 over 5..17; PMT: bytes 27..31 over 5..27).
pub proof fn law_psi_tables_carry_their_crc(cc: u8)
    ensures
        pat_packet(cc).subrange(17, 21) == be32(spec_crc32_mpeg(pat_packet(cc).subrange(5, 17))),
        pmt_packet(cc).subrange(27, 31) == be32(spec_crc32_mpeg(pmt_packet(cc).subrange(5, 27))),
{
    assert(pat_section().len() == 12);
    assert(pmt_section().len() == 22);
    lemma_psi_layout(PID_PAT, cc, pat_section());
    lemma_psi_layout(PID_PMT, cc, pmt_section());
}

proof fn lemma_psi_layout(pid: u16, cc: u8, section: Seq<u8>)
    requires
        section.len() <= 179,
    ensures
        psi_packet(pid, cc, section).subrange(5, 5 + section.len() as int) == section,
        psi_packet(pid, cc, section).subrange(5 + section.len() as int, 9 + section.len() as int) == be32(
            spec_crc32_mpeg(section),
        ),
{
    let head = ts_header(true, pid, 0x10u8, cc) + seq![0x00u8];
    let crc = be32(spec_crc32_mpeg(section));
    let pkt = psi_packet(pid, cc, section);
    assert(head.len() == 5);
    assert(pkt =~= head + section + crc + stuffing(183 - section.len() - 4));
    assert(pkt.subrange(5, 5 + section.len() as int) =~= section);
    assert(pkt.subrange(5 + section.len() as int, 9 + section.len() as int) =~= crc);
}


// ---------------------------------------------------------------------------
// Demultiplexing what the multiplexer emits.
// ---------------------------------------------------------------------------

pub open spec fn stream_buf(d: DemuxView, pid: u16) -> Seq<u8> {
    if pid == PID_VIDEO { d.video_buf } else { d.audio_buf }
}

pub open spec fn stream_frames(d: DemuxView, pid: u16) -> Seq<Seq<u8>> {
    if pid == PID_VIDEO { d.video_frames } else { d.audio_frames }
}

pub open spec fn with_stream(d: DemuxView, pid: u16, buf: Seq<u8>, frames: Seq<Seq<u8>>) -> DemuxView {
    if pid == PID_VIDEO {
        DemuxView { video_buf: buf, video_frames: frames, ..d }
    } else {
        DemuxView { audio_buf: buf, audio_frames: frames, ..d }
    }
}

proof fn lemma_scan_aligned(d: DemuxView, s: Seq<u8>, off: int)
    requires
        0 <= off <= s.len(),
        aligned(s.skip(off)),
    ensures
        scan(d, s, off) == (DemuxView { leftover: Seq::empty(), ..process_all(d, s.skip(off)) }),
        scan_faults(d, s, off) == process_all_faults(d, s.skip(off)),
    decreases s.len() - off,
{
    let t = s.skip(off);
    if t.len() == 0 {
        assert(s.skip(off) =~= Seq::<u8>::empty());
    } else {
        assert(s[off] == t[0]);
        assert(t.take(188) =~= s.subrange(off, off + 188));
        assert(t.skip(188) =~= s.skip(off + 188));
        lemma_scan_aligned(process_packet(d, s.subrange(off, off + 188)), s, off + 188);
    }
}

proof fn lemma_process_all_concat(d: DemuxView, a: Seq<u8>, b: Seq<u8>)
    requires
        aligned(a),
    ensures
        process_all(d, a + b) == process_all(process_all(d, a), b),
        process_all_faults(d, a + b) == (process_all_faults(d, a) || process_all_faults(
            process_all(d, a),
            b,
        )),
    decreases a.len(),
{
    if a.len() == 0 {
        assert(a + b =~= b);
    } else {
        assert((a + b).take(188) =~= a.take(188));
        assert((a + b).skip(188) =~= a.skip(188) + b);
        lemma_process_all_concat(process_packet(d, a.take(188)), a.skip(188), b);
    }
}

proof fn lemma_process_one(d: DemuxView, pkt: Seq<u8>)
    requires
        pkt.len() == 188,
    ensures
        process_all(d, pkt) == process_packet(d, pkt),
        process_all_faults(d, pkt) == process_faults(d, pkt),
{
    assert(pkt.take(188) =~= pkt);
    assert(pkt.skip(188).len() == 0);
    assert(process_all(process_packet(d, pkt), pkt.skip(188)) == process_packet(d, pkt));
    assert(!process_all_faults(process_packet(d, pkt), pkt.skip(188)));
}

proof fn lemma_process_data_packet(d: DemuxView, pid: u16, pusi: bool, cc: u8, pcr: Option<u64>, chunk: Seq<u8>)
    requires
        pid == PID_VIDEO || pid == PID_AUDIO,
        1 <= chunk.len() <= 184,
        pcr is Some ==> chunk.len() <= 176,
    ensures
        process_all(d, ts_packet(pid, pusi, cc, pcr, chunk)) == with_stream(
            d,
            pid,
            absorb(stream_buf(d, pid), stream_frames(d, pid), pusi, chunk).0,
            absorb(stream_buf(d, pid), stream_frames(d, pid), pusi, chunk).1,
        ),
        process_all_faults(d, ts_packet(pid, pusi, cc, pcr, chunk)) == absorb_faults(stream_buf(d, pid), pusi),
{
    let pkt = ts_packet(pid, pusi, cc, pcr, chunk);
    lemma_ts_packet_shape(pid, pusi, cc, pcr, chunk);
    lemma_ts_payload_of_packet(pid, pusi, cc, pcr, chunk);
    lemma_process_one(d, pkt);
}

proof fn lemma_header_bits(pid: u16, pusi: bool, afc: u8, cc: u8)
    requires
        pid == PID_VIDEO || pid == PID_AUDIO || pid == PID_PAT || pid == PID_PMT,
        afc == 0x10 || afc == 0x30,
    ensures
        ((ts_header(pusi, pid, afc, cc)[1] & 0x40u8) != 0) == pusi,
        (((ts_header(pusi, pid, afc, cc)[1] & 0x1Fu8) as u16) << 8u16) | (ts_header(
            pusi,
            pid,
            afc,
            cc,
        )[2] as u16) == pid,
        (ts_header(pusi, pid, afc, cc)[3] >> 4u8) & 0x03u8 == (if afc == 0x10 { 1u8 } else { 3u8 }),
{
    let b1 = (if pusi { 0x40u8 } else { 0x00u8 }) | (((pid >> 8u16) & 0x1Fu16) as u8);
    let b2 = (pid & 0xFFu16) as u8;
    let b3 = afc | (cc & 0x0Fu8);
    assert(ts_header(pusi, pid, afc, cc)[1] == b1);
    assert(ts_header(pusi, pid, afc, cc)[2] == b2);
    assert(ts_header(pusi, pid, afc, cc)[3] == b3);
    if pusi {
        assert(((0x40u8 | (((pid >> 8u16) & 0x1Fu16) as u8)) & 0x40u8) != 0
            && (((((0x40u8 | (((pid >> 8u16) & 0x1Fu16) as u8)) & 0x1Fu8) as u16) << 8u16) | (((pid
            & 0xFFu16) as u8) as u16)) == pid) by (bit_vector)
            requires
                pid == 0x0100u16 || pid == 0x0101u16 || pid == 0x0000u16 || pid == 0x1000u16,
        ;
    } else {
        assert(((0x00u8 | (((pid >> 8u16) & 0x1Fu16) as u8)) & 0x40u8) == 0
            && (((((0x00u8 | (((pid >> 8u16) & 0x1Fu16) as u8)) & 0x1Fu8) as u16) << 8u16) | (((pid
            & 0xFFu16) as u8) as u16)) == pid) by (bit_vector)
            requires
                pid == 0x0100u16 || pid == 0x0101u16 || pid == 0x0000u16 || pid == 0x1000u16,
        ;
    }
    assert(((afc | (cc & 0x0Fu8)) >> 4u8) & 0x03u8 == (if afc == 0x10u8 { 1u8 } else { 3u8 }))
        by (bit_vector)
        requires
            afc == 0x10u8 || afc == 0x30u8,
    ;
}

proof fn lemma_ts_payload_of_packet(pid: u16, pusi: bool, cc: u8, pcr: Option<u64>, chunk: Seq<u8>)
    requires
        pid == PID_VIDEO || pid == PID_AUDIO,
        1 <= chunk.len() <= 184,
        pcr is Some ==> chunk.len() <= 176,
    ensures
        ts_payload(ts_packet(pid, pusi, cc, pcr, chunk)) == Some((pusi, pid, chunk)),
{
    let pkt = ts_packet(pid, pusi, cc, pcr, chunk);
    lemma_ts_packet_shape(pid, pusi, cc, pcr, chunk);
    let afc: u8 = if pcr is None && chunk.len() >= 184 { 0x10u8 } else { 0x30u8 };
    lemma_header_bits(pid, pusi, afc, cc);
    let h = ts_header(pusi, pid, afc, cc);
    assert(pkt[1] == h[1]);
    assert(pkt[2] == h[2]);
    assert(pkt[3] == h[3]);
    if afc == 0x30u8 {
        let off = 188 - chunk.len();
        assert(pkt[4] as int == 183 - chunk.len());
        assert(pkt.subrange(off, 188) =~= chunk);
    } else {
        assert(pkt.subrange(4, 188) =~= chunk);
    }
}

proof fn lemma_psi_ignored(d: DemuxView, pid: u16, cc: u8, section: Seq<u8>)
    requires
        pid == PID_PAT || pid == PID_PMT,
        section.len() <= 179,
    ensures
        process_all(d, psi_packet(pid, cc, section)) == d,
        !process_all_faults(d, psi_packet(pid, cc, section)),
{
    let pkt = psi_packet(pid, cc, section);
    lemma_psi_shape(pid, cc, section);
    lemma_header_bits(pid, true, 0x10u8, cc);
    let h = ts_header(true, pid, 0x10u8, cc);
    assert(pkt[1] == h[1]);
    assert(pkt[2] == h[2]);
    assert(packet_pid(pkt) == pid);
    lemma_process_one(d, pkt);
}

/// Packets after the first of a PES packet only extend the stream's buffer.
proof fn lemma_packetize_continues(d: DemuxView, pid: u16, pes: Seq<u8>, insert_pcr: bool, pcr: u64, cc: u8)
    requires
        pid == PID_VIDEO || pid == PID_AUDIO,
    ensures
        process_all(d, packetize(pid, pes, false, insert_pcr, pcr, cc)) == with_stream(
            d,
            pid,
            stream_buf(d, pid) + pes,
            stream_frames(d, pid),
        ),
        !process_all_faults(d, packetize(pid, pes, false, insert_pcr, pcr, cc)),
    decreases pes.len(),
{
    if pes.len() == 0 {
        assert(stream_buf(d, pid) + pes =~= stream_buf(d, pid));
    } else {
        let n = chunk_len(pes.len() as int, false);
        lemma_chunk_bounds(pes.len() as int, false);
        let pkt = ts_packet(pid, false, cc, None, pes.take(n));
        let rest = packetize(pid, pes.skip(n), false, insert_pcr, pcr, next_cc(cc));
        lemma_ts_packet_shape(pid, false, cc, None, pes.take(n));
        lemma_process_all_concat(d, pkt, rest);
        lemma_process_data_packet(d, pid, false, cc, None, pes.take(n));
        let d1 = process_all(d, pkt);
        assert(d1 == with_stream(d, pid, stream_buf(d, pid) + pes.take(n), stream_frames(d, pid)));
        lemma_packetize_continues(d1, pid, pes.skip(n), insert_pcr, pcr, next_cc(cc));
        assert(stream_buf(d, pid) + pes.take(n) + pes.skip(n) =~= stream_buf(d, pid) + pes);
    }
}

/// A whole PES packet on a stream closes the stream's pending packet and
/// leaves the new one buffered.
proof fn lemma_packetize_starts(d: DemuxView, pid: u16, pes: Seq<u8>, insert_pcr: bool, pcr: u64, cc: u8)
    requires
        pid == PID_VIDEO || pid == PID_AUDIO,
        pes.len() >= 1,
    ensures
        process_all(d, packetize(pid, pes, true, insert_pcr, pcr, cc)) == with_stream(
            d,
            pid,
            pes,
            close_stream(stream_buf(d, pid), stream_frames(d, pid)),
        ),
        process_all_faults(d, packetize(pid, pes, true, insert_pcr, pcr, cc)) == (stream_buf(d, pid).len()
            > 0 && pes_range_reversed(stream_buf(d, pid))),
{
    let n = chunk_len(pes.len() as int, insert_pcr);
    lemma_chunk_bounds(pes.len() as int, insert_pcr);
    let pcr_opt = if insert_pcr { Some(pcr) } else { None };
    let pkt = ts_packet(pid, true, cc, pcr_opt, pes.take(n));
    let rest = packetize(pid, pes.skip(n), false, insert_pcr, pcr, next_cc(cc));
    lemma_ts_packet_shape(pid, true, cc, pcr_opt, pes.take(n));
    lemma_process_all_concat(d, pkt, rest);
    lemma_process_data_packet(d, pid, true, cc, pcr_opt, pes.take(n));
    let d1 = process_all(d, pkt);
    let buf = stream_buf(d, pid);
    if buf.len() > 0 {
        assert(d1 == with_stream(d, pid, pes.take(n), close_stream(buf, stream_frames(d, pid))));
    } else {
        assert(buf + pes.take(n) =~= pes.take(n));
        assert(d1 == with_stream(d, pid, pes.take(n), close_stream(buf, stream_frames(d, pid))));
    }
    lemma_packetize_continues(d1, pid, pes.skip(n), insert_pcr, pcr, next_cc(cc));
    assert(pes.take(n) + pes.skip(n) =~= pes);
}


/// Extracting a freshly built PES packet gives back its payload; when its
/// length field is set (the packet fits 16 bits), bytes that follow it are
/// left out.
pub proof fn law_extract_returns_pes_payload(stream_id: u8, pts: u64, dts: u64, payload: Seq<u8>, junk: Seq<u8>)
    ensures
        extract_pes(pes_packet(stream_id, pts, dts, payload)) == Some(payload),
        !pes_range_reversed(pes_packet(stream_id, pts, dts, payload)),
        payload.len() + 3 + pes_header_data_len(pts, dts) <= 65535 ==> extract_pes(
            pes_packet(stream_id, pts, dts, payload) + junk,
        ) == Some(payload),
{
    let pes = pes_packet(stream_id, pts, dts, payload);
    let hdr = pes_header_data_len(pts, dts);
    let len = pes_length_field(payload.len() as int, hdr);
    let q = len / 256;
    let r = len % 256;
    assert(0 <= len <= 65535);
    assert(0 <= q <= 255 && 0 <= r <= 255 && q * 256 + r == len) by (nonlinear_arith)
        requires
            0 <= len <= 65535,
            q == len / 256,
            r == len % 256,
    ;
    let fixed = seq![
        0x00u8,
        0x00u8,
        0x01u8,
        stream_id,
        q as u8,
        r as u8,
        0x80u8,
        if has_dts(pts, dts) { 0xC0u8 } else { 0x80u8 },
        hdr as u8,
    ];
    let stamps = timestamp_field(pts, if has_dts(pts, dts) { 0x03u8 } else { 0x02u8 }) + (if has_dts(
        pts,
        dts,
    ) {
        timestamp_field(dts, 0x01u8)
    } else {
        Seq::empty()
    });
    assert(stamps.len() == hdr);
    assert(pes =~= fixed + stamps + payload);
    assert(pes[4] == q as u8 && pes[5] == r as u8 && pes[8] == hdr as u8);
    assert(pes_declared_len(pes) == len);
    assert(pes_payload_start(pes) == 9 + hdr);
    if len > 0 {
        assert(pes.subrange(9 + hdr, len + 6) =~= payload);
        let framed = pes + junk;
        assert(framed.subrange(0, pes.len() as int) =~= pes);
        assert(framed[4] == pes[4] && framed[5] == pes[5] && framed[8] == pes[8]);
        assert(framed[0] == pes[0] && framed[1] == pes[1] && framed[2] == pes[2]);
        assert(framed.subrange(9 + hdr, len + 6) =~= payload);
    } else {
        assert(pes.skip(9 + hdr) =~= payload);
    }
}

proof fn lemma_media_pes(p: MediaPacket)
    ensures
        media_pes(p).len() >= 14,
        extract_pes(media_pes(p)) == Some(p.payload@),
        !pes_range_reversed(media_pes(p)),
{
    law_extract_returns_pes_payload(stream_id(p.media_type), p.pts_90khz, p.dts_90khz, p.payload@, Seq::empty());
}

/// Feeding the demultiplexer what the multiplexer emits for one packet: the
/// packet's stream closes its pending PES packet and buffers the new one;
/// the other stream and the PSI tables leave no trace.
proof fn lemma_mux_feed(m: MuxerView, d: DemuxView, p: MediaPacket)
    requires
        d.leftover.len() == 0,
    ensures
        feed(d, mux_output(m, p)) == with_stream(
            d,
            stream_pid(p.media_type),
            media_pes(p),
            close_stream(stream_buf(d, stream_pid(p.media_type)), stream_frames(d, stream_pid(p.media_type))),
        ),
        feed_faults(d, mux_output(m, p)) == (stream_buf(d, stream_pid(p.media_type)).len() > 0
            && pes_range_reversed(stream_buf(d, stream_pid(p.media_type)))),
{
    let out = mux_output(m, p);
    let pid = stream_pid(p.media_type);
    let d0 = DemuxView { leftover: Seq::empty(), ..d };
    assert(d.leftover =~= Seq::<u8>::empty());
    assert(d0 == d);
    assert(d.leftover + out =~= out);
    lemma_mux_output_is_aligned(m, p);
    assert(out.skip(0) =~= out);
    lemma_scan_aligned(d0, out, 0);
    lemma_media_pes(p);
    let body = packetize(pid, media_pes(p), true, carries_pcr(p), p.pts_90khz, stream_cc(m, p.media_type));
    lemma_packetize_starts(d0, pid, media_pes(p), carries_pcr(p), p.pts_90khz, stream_cc(m, p.media_type));
    if injects_tables(m, p) {
        let tables = pat_packet(m.pat_cc) + pmt_packet(m.pmt_cc);
        lemma_tables_aligned(m);
        lemma_psi_shape(PID_PAT, m.pat_cc, pat_section());
        lemma_process_all_concat(d0, tables, body);
        lemma_process_all_concat(d0, pat_packet(m.pat_cc), pmt_packet(m.pmt_cc));
        lemma_psi_ignored(d0, PID_PAT, m.pat_cc, pat_section());
        lemma_psi_ignored(d0, PID_PMT, m.pmt_cc, pmt_section());
    } else {
        assert(out =~= body);
    }
}

// ---------------------------------------------------------------------------
// A whole session.
// ---------------------------------------------------------------------------

/// Multiplexes `ps` in order, feeding each packet's output to the
/// demultiplexer as it is produced.
pub open spec fn session(m: MuxerView, d: DemuxView, ps: Seq<MediaPacket>) -> (MuxerView, DemuxView)
    decreases ps.len(),
{
    if ps.len() == 0 {
        (m, d)
    } else {
        let (m1, d1) = session(m, d, ps.drop_last());
        (mux_next(m1, ps.last()), feed(d1, mux_output(m1, ps.last())))
    }
}

/// True when some feed of the session would meet a PES packet whose payload
/// range runs backwards.
pub open spec fn session_faults(m: MuxerView, d: DemuxView, ps: Seq<MediaPacket>) -> bool
    decreases ps.len(),
{
    if ps.len() == 0 {
        false
    } else {
        let (m1, d1) = session(m, d, ps.drop_last());
        session_faults(m, d, ps.drop_last()) || feed_faults(d1, mux_output(m1, ps.last()))
    }
}

/// The payloads of the packets of type `t`, in order.
pub open spec fn payloads_of(ps: Seq<MediaPacket>, t: MediaType) -> Seq<Seq<u8>>
    decreases ps.len(),
{
    if ps.len() == 0 {
        Seq::empty()
    } else {
        payloads_of(ps.drop_last(), t) + (if ps.last().media_type == t {
            seq![ps.last().payload@]
        } else {
            Seq::empty()
        })
    }
}

pub open spec fn is_fresh(d: DemuxView) -> bool {
    &&& d.video_buf.len() == 0
    &&& d.video_frames.len() == 0
    &&& d.audio_buf.len() == 0
    &&& d.audio_frames.len() == 0
    &&& d.leftover.len() == 0
}

/// One stream of the demultiplexer holds, as completed frames, all payloads
/// but the last, and buffers the PES packet of the last.
spec fn stream_holds(buf: Seq<u8>, frames: Seq<Seq<u8>>, payloads: Seq<Seq<u8>>) -> bool {
    if payloads.len() == 0 {
        buf.len() == 0 && frames.len() == 0
    } else {
        &&& buf.len() > 0
        &&& !pes_range_reversed(buf)
        &&& extract_pes(buf) == Some(payloads.last())
        &&& frames == payloads.drop_last()
    }
}

proof fn lemma_stream_step(
    buf: Seq<u8>,
    frames: Seq<Seq<u8>>,
    payloads: Seq<Seq<u8>>,
    p: MediaPacket,
)
    requires
        stream_holds(buf, frames, payloads),
    ensures
        stream_holds(media_pes(p), close_stream(buf, frames), payloads.push(p.payload@)),
{
    lemma_media_pes(p);
    if payloads.len() == 0 {
        assert(payloads.push(p.payload@).drop_last() =~= frames);
    } else {
        assert(payloads.push(p.payload@).drop_last() =~= frames.push(payloads.last()));
    }
}

proof fn lemma_session(m: MuxerView, d: DemuxView, ps: Seq<MediaPacket>)
    requires
        is_fresh(d),
    ensures
        session(m, d, ps).1.leftover.len() == 0,
        stream_holds(
            session(m, d, ps).1.video_buf,
            session(m, d, ps).1.video_frames,
            payloads_of(ps, MediaType::VideoH264),
        ),
        stream_holds(
            session(m, d, ps).1.audio_buf,
            session(m, d, ps).1.audio_frames,
            payloads_of(ps, MediaType::AudioAac),
        ),
        !session_faults(m, d, ps),
    decreases ps.len(),
{
    if ps.len() > 0 {
        lemma_session(m, d, ps.drop_last());
        let (m1, d1) = session(m, d, ps.drop_last());
        let p = ps.last();
        lemma_mux_feed(m1, d1, p);
        let vp = payloads_of(ps.drop_last(), MediaType::VideoH264);
        let ap = payloads_of(ps.drop_last(), MediaType::AudioAac);
        if p.media_type == MediaType::VideoH264 {
            lemma_stream_step(d1.video_buf, d1.video_frames, vp, p);
            assert(payloads_of(ps, MediaType::VideoH264) =~= vp.push(p.payload@));
            assert(payloads_of(ps, MediaType::AudioAac) =~= ap);
        } else {
            lemma_stream_step(d1.audio_buf, d1.audio_frames, ap, p);
            assert(payloads_of(ps, MediaType::AudioAac) =~= ap.push(p.payload@));
            assert(payloads_of(ps, MediaType::VideoH264) =~= vp);
        }
    }
}

proof fn lemma_close_holds(buf: Seq<u8>, frames: Seq<Seq<u8>>, payloads: Seq<Seq<u8>>)
    requires
        stream_holds(buf, frames, payloads),
    ensures
        close_stream(buf, frames) == payloads,
        !(buf.len() > 0 && pes_range_reversed(buf)),
{
    if payloads.len() > 0 {
        assert(frames.push(payloads.last()) =~= payloads);
    } else {
        assert(frames =~= payloads);
    }
}

/// The transport round trip. Multiplex any sequence of video and audio
/// packets, from any multiplexer state, feed each packet's TS bytes to a
/// fresh demultiplexer as they are produced, then flush it: no feed and no
/// flush meets a malformed PES packet, and the demultiplexer holds, per
/// stream and in order, exactly the payloads that went in.
pub proof fn law_demux_returns_what_was_muxed(m: MuxerView, d: DemuxView, ps: Seq<MediaPacket>)
    requires
        is_fresh(d),
    ensures
        !session_faults(m, d, ps),
        !flush_faults(session(m, d, ps).1),
        flush_state(session(m, d, ps).1).video_frames == payloads_of(ps, MediaType::VideoH264),
        flush_state(session(m, d, ps).1).audio_frames == payloads_of(ps, MediaType::AudioAac),
{
    lemma_session(m, d, ps);
    let d2 = session(m, d, ps).1;
    lemma_close_holds(d2.video_buf, d2.video_frames, payloads_of(ps, MediaType::VideoH264));
    lemma_close_holds(d2.audio_buf, d2.audio_frames, payloads_of(ps, MediaType::AudioAac));
}


// ---------------------------------------------------------------------------
// Runs of multiplexer calls: continuity counters and the table schedule.
// ---------------------------------------------------------------------------

/// The 188-byte packets of a byte stream, in order (a shorter tail is not a
/// packet).
pub open spec fn ts_packets(s: Seq<u8>) -> Seq<Seq<u8>>
    decreases s.len(),
{
    if s.len() < 188 {
        Seq::empty()
    } else {
        seq![s.take(188)] + ts_packets(s.skip(188))
    }
}

/// The continuity counters of the packets on `pid`, in order.
pub open spec fn pid_counters(pkts: Seq<Seq<u8>>, pid: u16) -> Seq<u8>
    decreases pkts.len(),
{
    if pkts.len() == 0 {
        Seq::empty()
    } else {
        pid_counters(pkts.drop_last(), pid) + (if packet_pid(pkts.last()) == pid {
            seq![pkts.last()[3] & 0x0Fu8]
        } else {
            Seq::empty()
        })
    }
}

/// `n` counters counting up from `c`, modulo 16.
pub open spec fn counter_run(c: int, n: nat) -> Seq<u8> {
    Seq::new(n, |k: int| ((c + k) % 16) as u8)
}

/// The multiplexer's counter for `pid`.
pub open spec fn counter_of(m: MuxerView, pid: u16) -> u8 {
    if pid == PID_PAT {
        m.pat_cc
    } else if pid == PID_PMT {
        m.pmt_cc
    } else if pid == PID_VIDEO {
        m.video_cc
    } else {
        m.audio_cc
    }
}

/// A state the multiplexer can be in: 4-bit counters, and a table countdown
/// of at most 30.
pub open spec fn muxer_valid(m: MuxerView) -> bool {
    &&& m.pat_cc < 16
    &&& m.pmt_cc < 16
    &&& m.video_cc < 16
    &&& m.audio_cc < 16
    &&& m.frames_since_pat <= 30
}

/// The multiplexer's states over a run of calls: entry `i` is the state
/// before call `i`, the last entry the state after the run.
pub open spec fn mux_states(m: MuxerView, ps: Seq<MediaPacket>) -> Seq<MuxerView>
    decreases ps.len(),
{
    if ps.len() == 0 {
        seq![m]
    } else {
        let st = mux_states(m, ps.drop_last());
        st.push(mux_next(st.last(), ps.last()))
    }
}

/// Every byte a run of calls emits, in order.
pub open spec fn mux_stream(m: MuxerView, ps: Seq<MediaPacket>) -> Seq<u8>
    decreases ps.len(),
{
    if ps.len() == 0 {
        Seq::empty()
    } else {
        mux_stream(m, ps.drop_last()) + mux_output(mux_states(m, ps.drop_last()).last(), ps.last())
    }
}

/// The output of call `i` of a run.
pub open spec fn run_output(m: MuxerView, ps: Seq<MediaPacket>, i: int) -> Seq<u8> {
    mux_output(mux_states(m, ps)[i], ps[i])
}

/// An output that opens with the PAT and then the PMT.
pub open spec fn opens_with_tables(out: Seq<u8>) -> bool {
    &&& ts_packets(out).len() >= 2
    &&& packet_pid(ts_packets(out)[0]) == PID_PAT
    &&& packet_pid(ts_packets(out)[1]) == PID_PMT
}

/// Some output among calls `i` to `i + 30` of a run opens with the tables.
pub open spec fn tables_among_next_31(m: MuxerView, ps: Seq<MediaPacket>, i: int) -> bool {
    exists|k: int| i <= k <= i + 30 && opens_with_tables(#[trigger] run_output(m, ps, k))
}

proof fn lemma_ts_packets_concat(a: Seq<u8>, b: Seq<u8>)
    requires
        aligned(a),
    ensures
        ts_packets(a + b) == ts_packets(a) + ts_packets(b),
    decreases a.len(),
{
    if a.len() == 0 {
        assert(a + b =~= b);
        assert(ts_packets(a) + ts_packets(b) =~= ts_packets(b));
    } else {
        assert((a + b).take(188) =~= a.take(188));
        assert((a + b).skip(188) =~= a.skip(188) + b);
        lemma_ts_packets_concat(a.skip(188), b);
        assert(ts_packets(a + b) =~= ts_packets(a) + ts_packets(b));
    }
}

proof fn lemma_ts_packets_one(pkt: Seq<u8>)
    requires
        pkt.len() == 188,
    ensures
        ts_packets(pkt) == seq![pkt],
{
    assert(pkt.take(188) =~= pkt);
    assert(ts_packets(pkt.skip(188)).len() == 0);
    assert(ts_packets(pkt) =~= seq![pkt]);
}

proof fn lemma_pid_counters_concat(x: Seq<Seq<u8>>, y: Seq<Seq<u8>>, pid: u16)
    ensures
        pid_counters(x + y, pid) == pid_counters(x, pid) + pid_counters(y, pid),
    decreases y.len(),
{
    if y.len() == 0 {
        assert(x + y =~= x);
        assert(pid_counters(x, pid) + pid_counters(y, pid) =~= pid_counters(x, pid));
    } else {
        assert((x + y).drop_last() =~= x + y.drop_last());
        lemma_pid_counters_concat(x, y.drop_last(), pid);
        assert(pid_counters(x + y, pid) =~= pid_counters(x, pid) + pid_counters(y, pid));
    }
}

proof fn lemma_mod16_step(c: int, n1: int, n2: int)
    requires
        0 <= c,
        0 <= n1,
        0 <= n2,
    ensures
        ((c + n1) % 16 + n2) % 16 == (c + n1 + n2) % 16,
{
    vstd::arithmetic::div_mod::lemma_add_mod_noop(c + n1, n2, 16);
    vstd::arithmetic::div_mod::lemma_mod_twice(c + n1, 16);
    vstd::arithmetic::div_mod::lemma_add_mod_noop((c + n1) % 16, n2, 16);
}

proof fn lemma_counter_run_concat(c: int, n1: nat, n2: nat)
    requires
        0 <= c,
    ensures
        counter_run(c, n1) + counter_run((c + n1) % 16, n2) == counter_run(c, n1 + n2),
{
    assert forall|k: int| 0 <= k < n2 implies #[trigger] counter_run((c + n1) % 16, n2)[k] == counter_run(
        c,
        n1 + n2,
    )[n1 + k] by {
        lemma_mod16_step(c, n1 as int, k);
    }
    assert(counter_run(c, n1) + counter_run((c + n1) % 16, n2) =~= counter_run(c, n1 + n2));
}

/// The PID and counter bits of a header written for one of the four PIDs.
proof fn lemma_header_counter(pusi: bool, pid: u16, afc: u8, cc: u8)
    requires
        pid == PID_VIDEO || pid == PID_AUDIO || pid == PID_PAT || pid == PID_PMT,
        afc == 0x10 || afc == 0x30,
    ensures
        packet_pid(ts_header(pusi, pid, afc, cc)) == pid,
        ts_header(pusi, pid, afc, cc)[3] & 0x0Fu8 == cc % 16,
{
    lemma_header_bits(pid, pusi, afc, cc);
    assert((afc | (cc & 0x0Fu8)) & 0x0Fu8 == cc % 16) by (bit_vector)
        requires
            afc == 0x10u8 || afc == 0x30u8,
    ;
}

proof fn lemma_next_cc(cc: u8)
    ensures
        next_cc(cc) == (cc + 1) % 16,
{
    assert((if cc == 255 { 0u8 } else { (cc + 1) as u8 }) & 0x0Fu8 == (cc + 1) % 16) by (bit_vector);
}

proof fn lemma_pid_counters_one(pkt: Seq<u8>, q: u16)
    ensures
        pid_counters(seq![pkt], q) == (if packet_pid(pkt) == q {
            seq![pkt[3] & 0x0Fu8]
        } else {
            Seq::empty()
        }),
{
    let one = seq![pkt];
    assert(one.drop_last() =~= Seq::<Seq<u8>>::empty());
    assert(one.last() == pkt);
    assert(pid_counters(Seq::<Seq<u8>>::empty(), q) == Seq::<u8>::empty());
    assert(pid_counters(one, q) == pid_counters(one.drop_last(), q) + (if packet_pid(one.last()) == q {
        seq![one.last()[3] & 0x0Fu8]
    } else {
        Seq::empty()
    }));
    assert(pid_counters(seq![pkt], q) =~= (if packet_pid(pkt) == q {
        seq![pkt[3] & 0x0Fu8]
    } else {
        Seq::empty()
    }));
}

proof fn lemma_ts_packet_counter(pid: u16, pusi: bool, cc: u8, pcr: Option<u64>, chunk: Seq<u8>)
    requires
        pid == PID_VIDEO || pid == PID_AUDIO,
        1 <= chunk.len() <= 184,
        pcr is Some ==> chunk.len() <= 176,
    ensures
        ts_packet(pid, pusi, cc, pcr, chunk).len() == 188,
        aligned(ts_packet(pid, pusi, cc, pcr, chunk)),
        packet_pid(ts_packet(pid, pusi, cc, pcr, chunk)) == pid,
        ts_packet(pid, pusi, cc, pcr, chunk)[3] & 0x0Fu8 == cc % 16,
{
    let pkt = ts_packet(pid, pusi, cc, pcr, chunk);
    lemma_ts_packet_shape(pid, pusi, cc, pcr, chunk);
    let afc: u8 = if pcr is None && chunk.len() >= 184 { 0x10u8 } else { 0x30u8 };
    lemma_header_counter(pusi, pid, afc, cc);
    let h = ts_header(pusi, pid, afc, cc);
    assert(pkt[1] == h[1] && pkt[2] == h[2] && pkt[3] == h[3]);
}

proof fn lemma_psi_counter(pid: u16, cc: u8, section: Seq<u8>)
    requires
        pid == PID_PAT || pid == PID_PMT,
        section.len() <= 179,
    ensures
        psi_packet(pid, cc, section).len() == 188,
        aligned(psi_packet(pid, cc, section)),
        packet_pid(psi_packet(pid, cc, section)) == pid,
        psi_packet(pid, cc, section)[3] & 0x0Fu8 == cc % 16,
{
    let pkt = psi_packet(pid, cc, section);
    lemma_psi_shape(pid, cc, section);
    lemma_header_counter(true, pid, 0x10u8, cc);
    let h = ts_header(true, pid, 0x10u8, cc);
    assert(pkt[1] == h[1] && pkt[2] == h[2] && pkt[3] == h[3]);
}

/// The packets that carry a PES packet are all on its PID and count up from
/// `cc`; the counter left behind is the next one.
#[verifier::spinoff_prover]
#[verifier::rlimit(60)]
proof fn lemma_packetize_counters(pid: u16, pes: Seq<u8>, first: bool, insert_pcr: bool, pcr: u64, cc: u8, q: u16)
    requires
        pid == PID_VIDEO || pid == PID_AUDIO,
        cc < 16,
    ensures
        pid_counters(ts_packets(packetize(pid, pes, first, insert_pcr, pcr, cc)), q) == (if q == pid {
            counter_run(cc as int, ts_packets(packetize(pid, pes, first, insert_pcr, pcr, cc)).len())
        } else {
            Seq::empty()
        }),
        packetize_cc(pes, first, insert_pcr, cc) as int == (cc + ts_packets(
            packetize(pid, pes, first, insert_pcr, pcr, cc),
        ).len()) % 16,
        forall|j: int|
            0 <= j < ts_packets(packetize(pid, pes, first, insert_pcr, pcr, cc)).len() ==> packet_pid(
                #[trigger] ts_packets(packetize(pid, pes, first, insert_pcr, pcr, cc))[j],
            ) == pid,
    decreases pes.len(),
{
    let all = packetize(pid, pes, first, insert_pcr, pcr, cc);
    if pes.len() == 0 {
        assert(ts_packets(all).len() == 0);
        assert(pid_counters(ts_packets(all), q) =~= counter_run(cc as int, 0));
    } else {
        let with_pcr = first && insert_pcr;
        let n = chunk_len(pes.len() as int, with_pcr);
        let pcr_opt = if with_pcr { Some(pcr) } else { None };
        lemma_chunk_bounds(pes.len() as int, with_pcr);
        let pkt = ts_packet(pid, first, cc, pcr_opt, pes.take(n));
        let rest = packetize(pid, pes.skip(n), false, insert_pcr, pcr, next_cc(cc));
        lemma_ts_packet_counter(pid, first, cc, pcr_opt, pes.take(n));
        lemma_next_cc(cc);
        lemma_packetize_counters(pid, pes.skip(n), false, insert_pcr, pcr, next_cc(cc), q);
        lemma_ts_packets_concat(pkt, rest);
        lemma_ts_packets_one(pkt);
        lemma_pid_counters_concat(seq![pkt], ts_packets(rest), q);
        lemma_pid_counters_one(pkt, q);
        let nr = ts_packets(rest).len();
        if q == pid {
            lemma_counter_run_concat(cc as int, 1, nr);
            assert(counter_run(cc as int, 1) =~= seq![(cc % 16) as u8]);
        }
        assert(ts_packets(all) == seq![pkt] + ts_packets(rest));
        assert forall|j: int| 0 <= j < ts_packets(all).len() implies packet_pid(#[trigger] ts_packets(all)[j])
            == pid by {
            if j > 0 {
                assert(ts_packets(all)[j] == ts_packets(rest)[j - 1]);
            }
        }
        if pes.skip(n).len() == 0 {
            assert(nr == 0);
        }
    }
}

/// One call of the multiplexer: per PID, the packets it emits count up from
/// the state's counter, and the state keeps the next one.
#[verifier::spinoff_prover]
#[verifier::rlimit(60)]
proof fn lemma_mux_output_counters(m: MuxerView, p: MediaPacket, q: u16)
    requires
        muxer_valid(m),
    ensures
        muxer_valid(mux_next(m, p)),
        pid_counters(ts_packets(mux_output(m, p)), q) == counter_run(
            counter_of(m, q) as int,
            pid_counters(ts_packets(mux_output(m, p)), q).len(),
        ),
        (q == PID_PAT || q == PID_PMT || q == PID_VIDEO || q == PID_AUDIO) ==> counter_of(mux_next(m, p), q) as int
            == (counter_of(m, q) + pid_counters(ts_packets(mux_output(m, p)), q).len()) % 16,
        ts_packets(mux_output(m, p)).len() >= 1,
        injects_tables(m, p) ==> ts_packets(mux_output(m, p)).len() >= 3,
        forall|j: int|
            0 <= j < ts_packets(mux_output(m, p)).len() ==> packet_pid(#[trigger] ts_packets(mux_output(m, p))[j])
                == (if injects_tables(m, p) && j == 0 {
                PID_PAT
            } else if injects_tables(m, p) && j == 1 {
                PID_PMT
            } else {
                stream_pid(p.media_type)
            }),
{
    let pid = stream_pid(p.media_type);
    let cc = stream_cc(m, p.media_type);
    let body = packetize(pid, media_pes(p), true, carries_pcr(p), p.pts_90khz, cc);
    let out = mux_output(m, p);
    lemma_packetize_counters(pid, media_pes(p), true, carries_pcr(p), p.pts_90khz, cc, q);
    lemma_media_pes(p);
    lemma_packetize_aligned(pid, media_pes(p), true, carries_pcr(p), p.pts_90khz, cc);
    assert(ts_packets(body).len() >= 1) by {
        let n = chunk_len(media_pes(p).len() as int, carries_pcr(p));
        lemma_chunk_bounds(media_pes(p).len() as int, carries_pcr(p));
        let pcr_opt = if carries_pcr(p) { Some(p.pts_90khz) } else { None };
        let pkt = ts_packet(pid, true, cc, pcr_opt, media_pes(p).take(n));
        lemma_ts_packet_shape(pid, true, cc, pcr_opt, media_pes(p).take(n));
        lemma_ts_packets_concat(pkt, packetize(pid, media_pes(p).skip(n), false, carries_pcr(p), p.pts_90khz, next_cc(cc)));
        lemma_ts_packets_one(pkt);
    }
    lemma_next_cc(m.pat_cc);
    lemma_next_cc(m.pmt_cc);
    if injects_tables(m, p) {
        let pat = pat_packet(m.pat_cc);
        let pmt = pmt_packet(m.pmt_cc);
        lemma_tables_aligned(m);
        lemma_psi_counter(PID_PAT, m.pat_cc, pat_section());
        lemma_psi_counter(PID_PMT, m.pmt_cc, pmt_section());
        lemma_ts_packets_concat(pat + pmt, body);
        lemma_ts_packets_concat(pat, pmt);
        lemma_ts_packets_one(pat);
        lemma_ts_packets_one(pmt);
        let tp = seq![pat, pmt];
        assert(ts_packets(pat + pmt) =~= tp);
        assert(ts_packets(out) == tp + ts_packets(body));
        lemma_pid_counters_concat(tp, ts_packets(body), q);
        assert(tp =~= seq![pat] + seq![pmt]);
        lemma_pid_counters_concat(seq![pat], seq![pmt], q);
        lemma_pid_counters_one(pat, q);
        lemma_pid_counters_one(pmt, q);
        let tc = pid_counters(tp, q);
        let bc = pid_counters(ts_packets(body), q);
        if q == PID_PAT {
            assert(tc =~= counter_run(m.pat_cc as int, 1));
            assert(bc.len() == 0);
            assert(tc + bc =~= tc);
        } else if q == PID_PMT {
            assert(tc =~= counter_run(m.pmt_cc as int, 1));
            assert(tc + bc =~= tc);
        } else {
            assert(tc =~= Seq::<u8>::empty());
            assert(tc + bc =~= bc);
        }
        assert forall|j: int| 0 <= j < ts_packets(out).len() implies packet_pid(#[trigger] ts_packets(out)[j])
            == (if j == 0 { PID_PAT } else if j == 1 { PID_PMT } else { pid }) by {
            if j >= 2 {
                assert(ts_packets(out)[j] == ts_packets(body)[j - 2]);
            }
        }
    } else {
        assert(out =~= body);
        if q != pid {
            assert(pid_counters(ts_packets(out), q) =~= counter_run(counter_of(m, q) as int, 0));
        }
    }
}

proof fn lemma_mux_states_step(m: MuxerView, ps: Seq<MediaPacket>)
    ensures
        mux_states(m, ps).len() == ps.len() + 1,
        mux_states(m, ps)[0] == m,
        forall|i: int| 0 <= i < ps.len() ==> #[trigger] mux_states(m, ps)[i + 1] == mux_next(mux_states(m, ps)[i], ps[i]),
    decreases ps.len(),
{
    if ps.len() > 0 {
        let pre = ps.drop_last();
        lemma_mux_states_step(m, pre);
        let st = mux_states(m, ps);
        assert forall|i: int| 0 <= i < ps.len() implies #[trigger] st[i + 1] == mux_next(st[i], ps[i]) by {
            if i < ps.len() - 1 {
                assert(pre[i] == ps[i]);
                assert(mux_states(m, pre)[i + 1] == mux_next(mux_states(m, pre)[i], pre[i]));
            }
        }
    }
}

#[verifier::spinoff_prover]
#[verifier::rlimit(60)]
proof fn lemma_mux_run_counters(m: MuxerView, ps: Seq<MediaPacket>, q: u16)
    requires
        muxer_valid(m),
        q == PID_PAT || q == PID_PMT || q == PID_VIDEO || q == PID_AUDIO,
    ensures
        aligned(mux_stream(m, ps)),
        muxer_valid(mux_states(m, ps).last()),
        pid_counters(ts_packets(mux_stream(m, ps)), q) == counter_run(
            counter_of(m, q) as int,
            pid_counters(ts_packets(mux_stream(m, ps)), q).len(),
        ),
        counter_of(mux_states(m, ps).last(), q) as int == (counter_of(m, q) + pid_counters(
            ts_packets(mux_stream(m, ps)),
            q,
        ).len()) % 16,
    decreases ps.len(),
{
    if ps.len() == 0 {
        assert(ts_packets(Seq::<u8>::empty()).len() == 0);
        assert(pid_counters(ts_packets(mux_stream(m, ps)), q) =~= counter_run(counter_of(m, q) as int, 0));
    } else {
        let pre = ps.drop_last();
        lemma_mux_run_counters(m, pre, q);
        let st = mux_states(m, pre).last();
        let a = mux_stream(m, pre);
        let out = mux_output(st, ps.last());
        lemma_mux_output_counters(st, ps.last(), q);
        lemma_mux_output_is_aligned(st, ps.last());
        lemma_aligned_concat(a, out);
        lemma_ts_packets_concat(a, out);
        lemma_pid_counters_concat(ts_packets(a), ts_packets(out), q);
        let n1 = pid_counters(ts_packets(a), q).len();
        let n2 = pid_counters(ts_packets(out), q).len();
        lemma_counter_run_concat(counter_of(m, q) as int, n1, n2);
        lemma_mod16_step(counter_of(m, q) as int, n1 as int, n2 as int);
    }
}

/// One continuity counter per PID, across any run of calls: on each of the
/// PAT, PMT, video and audio PIDs the packets carry consecutive counters
/// modulo 16 from the one the run started with (from a new multiplexer the
/// `k`-th packet of a PID carries `k % 16`), and the multiplexer keeps the
/// next counter for the following call.
pub proof fn law_continuity_counter_per_pid(m: MuxerView, ps: Seq<MediaPacket>, pid: u16)
    requires
        muxer_valid(m),
        pid == PID_PAT || pid == PID_PMT || pid == PID_VIDEO || pid == PID_AUDIO,
    ensures
        forall|k: int|
            0 <= k < pid_counters(ts_packets(mux_stream(m, ps)), pid).len() ==> #[trigger] pid_counters(
                ts_packets(mux_stream(m, ps)),
                pid,
            )[k] as int == (counter_of(m, pid) + k) % 16,
        counter_of(mux_states(m, ps).last(), pid) as int == (counter_of(m, pid) + pid_counters(
            ts_packets(mux_stream(m, ps)),
            pid,
        ).len()) % 16,
{
    lemma_mux_run_counters(m, ps, pid);
}

proof fn lemma_countdown(m: MuxerView, ps: Seq<MediaPacket>, i: int, k: int)
    requires
        muxer_valid(m),
        0 <= i,
        0 <= k,
        i + k <= ps.len(),
        forall|j: int| i <= j < i + k ==> !injects_tables(#[trigger] mux_states(m, ps)[j], ps[j]),
    ensures
        mux_states(m, ps)[i + k].frames_since_pat == mux_states(m, ps)[i].frames_since_pat - k,
    decreases k,
{
    lemma_mux_states_step(m, ps);
    if k > 0 {
        lemma_countdown(m, ps, i, k - 1);
        let st = mux_states(m, ps);
        assert(!injects_tables(st[i + k - 1], ps[i + k - 1]));
        assert(st[i + k - 1 + 1] == mux_next(st[i + k - 1], ps[i + k - 1]));
    }
}

proof fn lemma_states_valid(m: MuxerView, ps: Seq<MediaPacket>, i: int)
    requires
        muxer_valid(m),
        0 <= i <= ps.len(),
    ensures
        muxer_valid(mux_states(m, ps)[i]),
    decreases i,
{
    lemma_mux_states_step(m, ps);
    if i > 0 {
        lemma_states_valid(m, ps, i - 1);
        lemma_mux_output_counters(mux_states(m, ps)[i - 1], ps[i - 1], PID_PAT);
        assert(mux_states(m, ps)[i - 1 + 1] == mux_next(mux_states(m, ps)[i - 1], ps[i - 1]));
    }
}

/// The PAT/PMT schedule over any run of calls. An output opens with the PAT
/// and then the PMT on the first call of a new multiplexer and before every
/// key frame (every audio packet is one); of any 31 consecutive outputs at
/// least one opens so; and the tables appear nowhere else: every other
/// packet of an output is on the media packet's own PID.
#[verifier::spinoff_prover]
#[verifier::rlimit(60)]
pub proof fn law_psi_table_schedule(m: MuxerView, ps: Seq<MediaPacket>)
    requires
        muxer_valid(m),
    ensures
        ps.len() > 0 && m.frames_since_pat == 0 ==> opens_with_tables(run_output(m, ps, 0)),
        forall|i: int| 0 <= i < ps.len() && ps[i].is_keyframe ==> opens_with_tables(#[trigger] run_output(m, ps, i)),
        forall|i: int| 0 <= i && i + 30 < ps.len() ==> #[trigger] tables_among_next_31(m, ps, i),
        forall|i: int, j: int|
            0 <= i < ps.len() && 0 <= j < ts_packets(run_output(m, ps, i)).len() ==> packet_pid(
                #[trigger] ts_packets(run_output(m, ps, i))[j],
            ) == (if opens_with_tables(run_output(m, ps, i)) && j == 0 {
                PID_PAT
            } else if opens_with_tables(run_output(m, ps, i)) && j == 1 {
                PID_PMT
            } else {
                stream_pid(ps[i].media_type)
            }),
{
    lemma_mux_states_step(m, ps);
    assert forall|i: int| 0 <= i < ps.len() implies (opens_with_tables(#[trigger] run_output(m, ps, i))
        <==> injects_tables(mux_states(m, ps)[i], ps[i])) by {
        lemma_states_valid(m, ps, i);
        lemma_mux_output_counters(mux_states(m, ps)[i], ps[i], PID_PAT);
        let pk = ts_packets(run_output(m, ps, i));
        if !injects_tables(mux_states(m, ps)[i], ps[i]) {
            assert(packet_pid(pk[0]) == stream_pid(ps[i].media_type));
        }
    }
    assert forall|i: int| 0 <= i && i + 30 < ps.len() implies #[trigger] tables_among_next_31(m, ps, i) by {
        if forall|j: int| i <= j < i + 30 ==> !injects_tables(#[trigger] mux_states(m, ps)[j], ps[j]) {
            lemma_states_valid(m, ps, i);
            lemma_countdown(m, ps, i, 30);
            assert(injects_tables(mux_states(m, ps)[i + 30], ps[i + 30]));
            assert(opens_with_tables(run_output(m, ps, i + 30)));
        } else {
            let j = choose|j: int| i <= j < i + 30 && injects_tables(#[trigger] mux_states(m, ps)[j], ps[j]);
            assert(opens_with_tables(run_output(m, ps, j)));
        }
    }
    assert forall|i: int, j: int|
        0 <= i < ps.len() && 0 <= j < ts_packets(run_output(m, ps, i)).len() implies packet_pid(
        #[trigger] ts_packets(run_output(m, ps, i))[j],
    ) == (if opens_with_tables(run_output(m, ps, i)) && j == 0 {
        PID_PAT
    } else if opens_with_tables(run_output(m, ps, i)) && j == 1 {
        PID_PMT
    } else {
        stream_pid(ps[i].media_type)
    }) by {
        lemma_states_valid(m, ps, i);
        lemma_mux_output_counters(mux_states(m, ps)[i], ps[i], PID_PAT);
    }
}

} // verus!
