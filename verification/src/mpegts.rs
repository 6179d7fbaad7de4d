//! ISO/IEC 13818-1 MPEG-2 Transport Stream multiplexer and demultiplexer.
//!
//! Packs H.264 video and PCM audio PES packets into standard 188-byte TS
//! packets with a Program Association Table (PAT), a Program Map Table (PMT)
//! and PCR clock references, and reassembles the elementary frames on the
//! receiving side.
use vstd::prelude::*;
use crate::crc::{crc32_mpeg, spec_crc32_mpeg};
use crate::media::{MediaPacket, MediaType};

verus! {

pub const TS_PACKET_SIZE: usize = 188;
pub const TS_SYNC_BYTE: u8 = 0x47;

pub const PID_PAT: u16 = 0x0000;
pub const PID_PMT: u16 = 0x1000;
pub const PID_VIDEO: u16 = 0x0100;
pub const PID_AUDIO: u16 = 0x0101;

// ---------------------------------------------------------------------------
// The byte layout, as mathematical sequences.
// ---------------------------------------------------------------------------

/// `n` stuffing bytes (0xFF).
pub open spec fn stuffing(n: int) -> Seq<u8> {
    Seq::new(n as nat, |_i: int| 0xFFu8)
}

/// The 4-byte TS header: sync byte, PUSI flag and PID, adaptation field
/// control and continuity counter.
pub open spec fn ts_header(pusi: bool, pid: u16, afc: u8, cc: u8) -> Seq<u8> {
    seq![
        TS_SYNC_BYTE,
        (if pusi { 0x40u8 } else { 0x00u8 }) | (((pid >> 8u16) & 0x1Fu16) as u8),
        (pid & 0xFFu16) as u8,
        afc | (cc & 0x0Fu8),
    ]
}

/// The 6-byte PCR field: a 33-bit base in the 90 kHz scale, reserved bits,
/// and a zero extension.
pub open spec fn pcr_field(base: u64) -> Seq<u8> {
    seq![
        ((base >> 25u64) & 0xFFu64) as u8,
        ((base >> 17u64) & 0xFFu64) as u8,
        ((base >> 9u64) & 0xFFu64) as u8,
        ((base >> 1u64) & 0xFFu64) as u8,
        (((base & 0x01u64) << 7u64) | 0x7Eu64) as u8,
        0x00u8,
    ]
}

/// One 188-byte TS packet carrying `chunk` (1 to 184 bytes; at most 176 with
/// a PCR). Short chunks are right-aligned behind an adaptation field whose
/// spare room is stuffed with 0xFF.
pub open spec fn ts_packet(pid: u16, pusi: bool, cc: u8, pcr: Option<u64>, chunk: Seq<u8>) -> Seq<u8> {
    let adapt_len = 183 - chunk.len();
    match pcr {
        Some(base) => ts_header(pusi, pid, 0x30u8, cc) + seq![adapt_len as u8, 0x10u8] + pcr_field(base)
            + stuffing(adapt_len - 7) + chunk,
        None => if chunk.len() >= 184 {
            ts_header(pusi, pid, 0x10u8, cc) + chunk
        } else if chunk.len() == 183 {
            ts_header(pusi, pid, 0x30u8, cc) + seq![0x00u8] + chunk
        } else {
            ts_header(pusi, pid, 0x30u8, cc) + seq![adapt_len as u8, 0x00u8] + stuffing(adapt_len - 1)
                + chunk
        },
    }
}

/// How many PES bytes the next TS packet carries.
pub open spec fn chunk_len(remaining: int, with_pcr: bool) -> int {
    if with_pcr {
        if remaining < 176 { remaining } else { 176 }
    } else if remaining >= 184 {
        184
    } else {
        remaining
    }
}

/// The 4-bit continuity counter after one more packet.
pub open spec fn next_cc(cc: u8) -> u8 {
    (if cc == 255 { 0u8 } else { (cc + 1) as u8 }) & 0x0Fu8
}

/// The TS packets that carry `pes` on `pid`, starting with counter `cc`.
/// The first packet carries the PUSI flag, and the PCR when asked.
pub open spec fn packetize(pid: u16, pes: Seq<u8>, first: bool, insert_pcr: bool, pcr: u64, cc: u8) -> Seq<u8>
    decreases pes.len(),
{
    if pes.len() == 0 {
        Seq::empty()
    } else {
        let with_pcr = first && insert_pcr;
        let n = chunk_len(pes.len() as int, with_pcr);
        ts_packet(pid, first, cc, if with_pcr { Some(pcr) } else { None }, pes.take(n))
            + packetize(pid, pes.skip(n), false, insert_pcr, pcr, next_cc(cc))
    }
}

/// The continuity counter after [`packetize`] has emitted its packets.
pub open spec fn packetize_cc(pes: Seq<u8>, first: bool, insert_pcr: bool, cc: u8) -> u8
    decreases pes.len(),
{
    if pes.len() == 0 {
        cc
    } else {
        let n = chunk_len(pes.len() as int, first && insert_pcr);
        packetize_cc(pes.skip(n), false, insert_pcr, next_cc(cc))
    }
}

/// A 33-bit timestamp in the 5-byte PES layout, with its 4-bit prefix and
/// marker bits.
pub open spec fn timestamp_field(ts: u64, prefix: u8) -> Seq<u8> {
    let hi = ((ts >> 30u64) & 0x07u64) as u8;
    let mid = ((ts >> 15u64) & 0x7FFFu64) as u16;
    let lo = (ts & 0x7FFFu64) as u16;
    seq![
        (prefix << 4u8) | (hi << 1u8) | 0x01u8,
        ((mid >> 7u16) & 0xFFu16) as u8,
        (((mid & 0x7Fu16) << 1u16) | 0x01u16) as u8,
        ((lo >> 7u16) & 0xFFu16) as u8,
        (((lo & 0x7Fu16) << 1u16) | 0x01u16) as u8,
    ]
}

/// A DTS is written only when it differs from the PTS and is not zero.
pub open spec fn has_dts(pts: u64, dts: u64) -> bool {
    pts != dts && dts > 0
}

/// The PES optional-header length: 5 for PTS only, 10 for PTS and DTS.
pub open spec fn pes_header_data_len(pts: u64, dts: u64) -> int {
    if has_dts(pts, dts) { 10 } else { 5 }
}

/// The PES packet length field; 0 (unbounded) when it does not fit 16 bits.
pub open spec fn pes_length_field(payload_len: int, header_data_len: int) -> int {
    if payload_len + 3 + header_data_len > 65535 { 0 } else { payload_len + 3 + header_data_len }
}

/// A complete PES packet: start code, stream id, length, flags, PTS, the
/// optional DTS, then the payload.
pub open spec fn pes_packet(stream_id: u8, pts: u64, dts: u64, payload: Seq<u8>) -> Seq<u8> {
    let hdr = pes_header_data_len(pts, dts);
    let len = pes_length_field(payload.len() as int, hdr);
    seq![
        0x00u8,
        0x00u8,
        0x01u8,
        stream_id,
        (len / 256) as u8,
        (len % 256) as u8,
        0x80u8,
        if has_dts(pts, dts) { 0xC0u8 } else { 0x80u8 },
        hdr as u8,
    ] + timestamp_field(pts, if has_dts(pts, dts) { 0x03u8 } else { 0x02u8 }) + (if has_dts(pts, dts) {
        timestamp_field(dts, 0x01u8)
    } else {
        Seq::empty()
    }) + payload
}

/// Big-endian bytes of a 32-bit value.
pub open spec fn be32(v: u32) -> Seq<u8> {
    seq![
        ((v >> 24u32) & 0xFFu32) as u8,
        ((v >> 16u32) & 0xFFu32) as u8,
        ((v >> 8u32) & 0xFFu32) as u8,
        (v & 0xFFu32) as u8,
    ]
}

/// The PAT section: table id 0, transport stream 1, program 1 mapped to the
/// PMT PID.
pub open spec fn pat_section() -> Seq<u8> {
    seq![
        0x00u8, 0xB0u8, 0x0Du8, 0x00u8, 0x01u8, 0xC1u8, 0x00u8, 0x00u8, 0x00u8, 0x01u8,
        0xE0u8 | (((PID_PMT >> 8u16) & 0x1Fu16) as u8),
        (PID_PMT & 0xFFu16) as u8,
    ]
}

/// The PMT section: program 1, PCR on the video PID, H.264 video (0x1B) and
/// ADTS AAC audio (0x0F).
pub open spec fn pmt_section() -> Seq<u8> {
    seq![
        0x02u8, 0xB0u8, 0x17u8, 0x00u8, 0x01u8, 0xC1u8, 0x00u8, 0x00u8,
        0xE0u8 | (((PID_VIDEO >> 8u16) & 0x1Fu16) as u8),
        (PID_VIDEO & 0xFFu16) as u8,
        0xF0u8, 0x00u8,
        0x1Bu8,
        0xE0u8 | (((PID_VIDEO >> 8u16) & 0x1Fu16) as u8),
        (PID_VIDEO & 0xFFu16) as u8,
        0xF0u8, 0x00u8,
        0x0Fu8,
        0xE0u8 | (((PID_AUDIO >> 8u16) & 0x1Fu16) as u8),
        (PID_AUDIO & 0xFFu16) as u8,
        0xF0u8, 0x00u8,
    ]
}

/// A PSI table in one TS packet: header, zero pointer field, the section,
/// its CRC-32 and stuffing.
pub open spec fn psi_packet(pid: u16, cc: u8, section: Seq<u8>) -> Seq<u8> {
    ts_header(true, pid, 0x10u8, cc) + seq![0x00u8] + section + be32(spec_crc32_mpeg(section))
        + stuffing(183 - section.len() - 4)
}

pub open spec fn pat_packet(cc: u8) -> Seq<u8> {
    psi_packet(PID_PAT, cc, pat_section())
}

pub open spec fn pmt_packet(cc: u8) -> Seq<u8> {
    psi_packet(PID_PMT, cc, pmt_section())
}


// ---------------------------------------------------------------------------
// Byte writers.
// ---------------------------------------------------------------------------

fn push_stuffing(out: &mut Vec<u8>, n: usize)
    ensures
        final(out)@ == old(out)@ + stuffing(n as int),
{
    let ghost start = out@;
    let mut i: usize = 0;
    while i < n
        invariant
            i <= n,
            out@ == start + stuffing(i as int),
        decreases n - i,
    {
        out.push(0xFFu8);
        proof {
            assert(start + stuffing(i + 1) =~= (start + stuffing(i as int)).push(0xFFu8));
        }
        i += 1;
    }
}

fn push_range(out: &mut Vec<u8>, src: &[u8], from: usize, to: usize)
    requires
        from <= to <= src@.len(),
    ensures
        final(out)@ == old(out)@ + src@.subrange(from as int, to as int),
{
    let ghost start = out@;
    let mut i: usize = from;
    while i < to
        invariant
            from <= i <= to,
            to <= src@.len(),
            out@ == start + src@.subrange(from as int, i as int),
        decreases to - i,
    {
        out.push(src[i]);
        proof {
            assert(start + src@.subrange(from as int, i + 1) =~= (start + src@.subrange(
                from as int,
                i as int,
            )).push(src@[i as int]));
        }
        i += 1;
    }
}

fn push_header(out: &mut Vec<u8>, pusi: bool, pid: u16, afc: u8, cc: u8)
    ensures
        final(out)@ == old(out)@ + ts_header(pusi, pid, afc, cc),
{
    let ghost start = out@;
    out.push(TS_SYNC_BYTE);
    out.push((if pusi { 0x40u8 } else { 0x00u8 }) | (((pid >> 8u16) & 0x1Fu16) as u8));
    out.push((pid & 0xFFu16) as u8);
    out.push(afc | (cc & 0x0Fu8));
    proof {
        assert(out@ =~= start + ts_header(pusi, pid, afc, cc));
    }
}

fn push_pcr(out: &mut Vec<u8>, base: u64)
    ensures
        final(out)@ == old(out)@ + pcr_field(base),
{
    let ghost start = out@;
    out.push(((base >> 25u64) & 0xFFu64) as u8);
    out.push(((base >> 17u64) & 0xFFu64) as u8);
    out.push(((base >> 9u64) & 0xFFu64) as u8);
    out.push(((base >> 1u64) & 0xFFu64) as u8);
    out.push((((base & 0x01u64) << 7u64) | 0x7Eu64) as u8);
    out.push(0x00u8);
    proof {
        assert(out@ =~= start + pcr_field(base));
    }
}

/// Writes one TS packet carrying `data[from..to]`.
fn push_ts_packet(
    out: &mut Vec<u8>,
    pid: u16,
    pusi: bool,
    cc: u8,
    pcr: Option<u64>,
    data: &[u8],
    from: usize,
    to: usize,
)
    requires
        from < to <= data@.len(),
        to - from <= 184,
        pcr is Some ==> to - from <= 176,
    ensures
        final(out)@ == old(out)@ + ts_packet(pid, pusi, cc, pcr, data@.subrange(from as int, to as int)),
{
    let ghost start = out@;
    let ghost chunk = data@.subrange(from as int, to as int);
    let len = to - from;
    match pcr {
        Some(base) => {
            let adapt_len = 183 - len;
            push_header(out, pusi, pid, 0x30u8, cc);
            out.push(adapt_len as u8);
            out.push(0x10u8);
            push_pcr(out, base);
            push_stuffing(out, adapt_len - 7);
            push_range(out, data, from, to);
            proof {
                assert(out@ =~= start + ts_packet(pid, pusi, cc, pcr, chunk));
            }
        },
        None => {
            if len >= 184 {
                push_header(out, pusi, pid, 0x10u8, cc);
                push_range(out, data, from, to);
                proof {
                    assert(out@ =~= start + ts_packet(pid, pusi, cc, pcr, chunk));
                }
            } else if len == 183 {
                push_header(out, pusi, pid, 0x30u8, cc);
                out.push(0x00u8);
                push_range(out, data, from, to);
                proof {
                    assert(out@ =~= start + ts_packet(pid, pusi, cc, pcr, chunk));
                }
            } else {
                let adapt_len = 183 - len;
                push_header(out, pusi, pid, 0x30u8, cc);
                out.push(adapt_len as u8);
                out.push(0x00u8);
                push_stuffing(out, adapt_len - 1);
                push_range(out, data, from, to);
                proof {
                    assert(out@ =~= start + ts_packet(pid, pusi, cc, pcr, chunk));
                }
            }
        },
    }
}

fn push_timestamp(dest: &mut Vec<u8>, ts: u64, prefix: u8)
    ensures
        final(dest)@ == old(dest)@ + timestamp_field(ts, prefix),
{
    let ghost start = dest@;
    let hi = ((ts >> 30u64) & 0x07u64) as u8;
    let mid = ((ts >> 15u64) & 0x7FFFu64) as u16;
    let lo = (ts & 0x7FFFu64) as u16;
    dest.push((prefix << 4u8) | (hi << 1u8) | 0x01u8);
    dest.push(((mid >> 7u16) & 0xFFu16) as u8);
    dest.push((((mid & 0x7Fu16) << 1u16) | 0x01u16) as u8);
    dest.push(((lo >> 7u16) & 0xFFu16) as u8);
    dest.push((((lo & 0x7Fu16) << 1u16) | 0x01u16) as u8);
    proof {
        assert(dest@ =~= start + timestamp_field(ts, prefix));
    }
}


// ---------------------------------------------------------------------------
// The multiplexer.
// ---------------------------------------------------------------------------

/// The multiplexer's state: one continuity counter per PID, and how many more
/// packets may go out before the PAT and PMT are repeated.
pub struct MuxerView {
    pub pat_cc: u8,
    pub pmt_cc: u8,
    pub video_cc: u8,
    pub audio_cc: u8,
    pub frames_since_pat: u32,
}

pub open spec fn stream_pid(t: MediaType) -> u16 {
    match t {
        MediaType::VideoH264 => PID_VIDEO,
        MediaType::AudioAac => PID_AUDIO,
    }
}

pub open spec fn stream_id(t: MediaType) -> u8 {
    match t {
        MediaType::VideoH264 => 0xE0u8,
        MediaType::AudioAac => 0xC0u8,
    }
}

/// The PES packet that carries a media packet.
pub open spec fn media_pes(p: MediaPacket) -> Seq<u8> {
    pes_packet(stream_id(p.media_type), p.pts_90khz, p.dts_90khz, p.payload@)
}

/// The PAT and PMT are repeated when the countdown has run out, and before
/// every key frame.
pub open spec fn injects_tables(m: MuxerView, p: MediaPacket) -> bool {
    m.frames_since_pat == 0 || p.is_keyframe
}

/// Video key frames carry the PCR in their first TS packet.
pub open spec fn carries_pcr(p: MediaPacket) -> bool {
    p.media_type == MediaType::VideoH264 && p.is_keyframe
}

pub open spec fn stream_cc(m: MuxerView, t: MediaType) -> u8 {
    match t {
        MediaType::VideoH264 => m.video_cc,
        MediaType::AudioAac => m.audio_cc,
    }
}

/// The bytes that multiplexing `p` emits in state `m`.
pub open spec fn mux_output(m: MuxerView, p: MediaPacket) -> Seq<u8> {
    (if injects_tables(m, p) {
        pat_packet(m.pat_cc) + pmt_packet(m.pmt_cc)
    } else {
        Seq::empty()
    }) + packetize(
        stream_pid(p.media_type),
        media_pes(p),
        true,
        carries_pcr(p),
        p.pts_90khz,
        stream_cc(m, p.media_type),
    )
}

/// The multiplexer's state after multiplexing `p` in state `m`.
pub open spec fn mux_next(m: MuxerView, p: MediaPacket) -> MuxerView {
    let cc = packetize_cc(media_pes(p), true, carries_pcr(p), stream_cc(m, p.media_type));
    let inject = injects_tables(m, p);
    MuxerView {
        pat_cc: if inject { next_cc(m.pat_cc) } else { m.pat_cc },
        pmt_cc: if inject { next_cc(m.pmt_cc) } else { m.pmt_cc },
        video_cc: if p.media_type == MediaType::VideoH264 { cc } else { m.video_cc },
        audio_cc: if p.media_type == MediaType::AudioAac { cc } else { m.audio_cc },
        frames_since_pat: if inject { 30 } else { (m.frames_since_pat - 1) as u32 },
    }
}

pub struct MpegTsMuxer {
    pat_continuity: u8,
    pmt_continuity: u8,
    video_continuity: u8,
    audio_continuity: u8,
    frames_since_pat: u32,
}

impl View for MpegTsMuxer {
    type V = MuxerView;

    closed spec fn view(&self) -> MuxerView {
        MuxerView {
            pat_cc: self.pat_continuity,
            pmt_cc: self.pmt_continuity,
            video_cc: self.video_continuity,
            audio_cc: self.audio_continuity,
            frames_since_pat: self.frames_since_pat,
        }
    }
}

impl Default for MpegTsMuxer {
    /// A muxer that has sent nothing yet, as [`MpegTsMuxer::new`] makes it.
    fn default() -> (m: Self)
        ensures
            m@ == (MuxerView { pat_cc: 0, pmt_cc: 0, video_cc: 0, audio_cc: 0, frames_since_pat: 0 }),
    {
        Self::new()
    }
}

impl MpegTsMuxer {
    pub fn new() -> (m: Self)
        ensures
            m@ == (MuxerView { pat_cc: 0, pmt_cc: 0, video_cc: 0, audio_cc: 0, frames_since_pat: 0 }),
    {
        MpegTsMuxer {
            pat_continuity: 0,
            pmt_continuity: 0,
            video_continuity: 0,
            audio_continuity: 0,
            frames_since_pat: 0,
        }
    }

    /// Multiplexes a media packet into a run of 188-byte TS packets, preceded
    /// by the PAT and PMT when they are due.
    pub fn mux_packet(&mut self, packet: &MediaPacket) -> (output: Vec<u8>)
        ensures
            output@ == mux_output(old(self)@, *packet),
            final(self)@ == mux_next(old(self)@, *packet),
    {
        let mut output: Vec<u8> = Vec::new();
        let ghost m0 = self@;

        if self.frames_since_pat == 0 || packet.is_keyframe {
            self.inject_pat(&mut output);
            self.inject_pmt(&mut output);
            self.frames_since_pat = 30;
        } else {
            self.frames_since_pat = self.frames_since_pat.saturating_sub(1);
        }
        let ghost tables = output@;

        let (pid, sid, is_video) = match packet.media_type {
            MediaType::VideoH264 => (PID_VIDEO, 0xE0u8, true),
            MediaType::AudioAac => (PID_AUDIO, 0xC0u8, false),
        };

        let pes_data = Self::create_pes_packet(
            sid,
            packet.pts_90khz,
            packet.dts_90khz,
            packet.payload.as_slice(),
        );

        self.packetize_pes(pid, pes_data.as_slice(), is_video && packet.is_keyframe, packet.pts_90khz, &mut output);
        proof {
            assert(tables == (if injects_tables(m0, *packet) {
                pat_packet(m0.pat_cc) + pmt_packet(m0.pmt_cc)
            } else {
                Seq::<u8>::empty()
            }));
        }
        output
    }

    /// Builds a PES packet with its PTS (and DTS when it differs) header.
    fn create_pes_packet(stream_id: u8, pts: u64, dts: u64, payload: &[u8]) -> (pes: Vec<u8>)
        ensures
            pes@ == pes_packet(stream_id, pts, dts, payload@),
    {
        let has_dts = pts != dts && dts > 0;
        let header_data_len: usize = if has_dts { 10 } else { 5 };
        let pes_packet_length: usize = if payload.len() > 65535 || payload.len() + 3 + header_data_len > 65535 {
            0
        } else {
            payload.len() + 3 + header_data_len
        };

        let mut pes: Vec<u8> = Vec::new();
        pes.push(0x00u8);
        pes.push(0x00u8);
        pes.push(0x01u8);
        pes.push(stream_id);
        pes.push((pes_packet_length / 256) as u8);
        pes.push((pes_packet_length % 256) as u8);
        pes.push(0x80u8);
        pes.push(if has_dts { 0xC0u8 } else { 0x80u8 });
        pes.push(header_data_len as u8);
        let ghost fixed = pes@;

        push_timestamp(&mut pes, pts, if has_dts { 0x03u8 } else { 0x02u8 });
        let ghost with_pts = pes@;
        if has_dts {
            push_timestamp(&mut pes, dts, 0x01u8);
        }
        let ghost with_ts = pes@;
        push_range(&mut pes, payload, 0, payload.len());
        proof {
            assert(payload@.subrange(0, payload@.len() as int) =~= payload@);
            assert(with_ts =~= with_pts + (if has_dts {
                timestamp_field(dts, 0x01u8)
            } else {
                Seq::<u8>::empty()
            }));
            assert(pes@ =~= pes_packet(stream_id, pts, dts, payload@));
        }
        pes
    }

    /// Slices a PES packet into consecutive TS packets on `pid`.
    fn packetize_pes(&mut self, pid: u16, pes_data: &[u8], insert_pcr: bool, pts: u64, output: &mut Vec<u8>)
        ensures
            final(output)@ == old(output)@ + packetize(
                pid,
                pes_data@,
                true,
                insert_pcr,
                pts,
                if pid == PID_VIDEO { old(self)@.video_cc } else { old(self)@.audio_cc },
            ),
            final(self)@.video_cc == (if pid == PID_VIDEO {
                packetize_cc(pes_data@, true, insert_pcr, old(self)@.video_cc)
            } else {
                old(self)@.video_cc
            }),
            final(self)@.audio_cc == (if pid == PID_VIDEO {
                old(self)@.audio_cc
            } else {
                packetize_cc(pes_data@, true, insert_pcr, old(self)@.audio_cc)
            }),
            final(self)@.pat_cc == old(self)@.pat_cc,
            final(self)@.pmt_cc == old(self)@.pmt_cc,
            final(self)@.frames_since_pat == old(self)@.frames_since_pat,
    {
        let ghost out0 = output@;
        let ghost pes = pes_data@;
        let mut cc: u8 = if pid == PID_VIDEO { self.video_continuity } else { self.audio_continuity };
        let ghost cc0 = cc;
        let mut offset: usize = 0;
        let total = pes_data.len();
        let mut is_first = true;
        proof {
            assert(pes.skip(0) =~= pes);
        }

        while offset < total
            invariant
                total == pes.len(),
                pes == pes_data@,
                offset <= total,
                output@ + packetize(pid, pes.skip(offset as int), is_first, insert_pcr, pts, cc)
                    == out0 + packetize(pid, pes, true, insert_pcr, pts, cc0),
                packetize_cc(pes.skip(offset as int), is_first, insert_pcr, cc)
                    == packetize_cc(pes, true, insert_pcr, cc0),
            decreases total - offset,
        {
            let ghost rest = pes.skip(offset as int);
            let needs_pcr = is_first && insert_pcr;
            let remaining = total - offset;
            let chunk_len: usize = if needs_pcr {
                if remaining < 176 { remaining } else { 176 }
            } else if remaining >= 184 {
                184
            } else {
                remaining
            };
            let ghost before = output@;
            push_ts_packet(
                output,
                pid,
                is_first,
                cc,
                if needs_pcr { Some(pts) } else { None },
                pes_data,
                offset,
                offset + chunk_len,
            );
            proof {
                assert(rest.take(chunk_len as int) =~= pes.subrange(offset as int, offset + chunk_len));
                assert(rest.skip(chunk_len as int) =~= pes.skip(offset + chunk_len));
                assert(packetize(pid, rest, is_first, insert_pcr, pts, cc) == ts_packet(
                    pid,
                    is_first,
                    cc,
                    if needs_pcr { Some(pts) } else { None },
                    rest.take(chunk_len as int),
                ) + packetize(pid, rest.skip(chunk_len as int), false, insert_pcr, pts, next_cc(cc)));
                assert(output@ + packetize(pid, pes.skip(offset + chunk_len), false, insert_pcr, pts, next_cc(cc))
                    =~= before + packetize(pid, rest, is_first, insert_pcr, pts, cc));
                assert(packetize_cc(rest, is_first, insert_pcr, cc) == packetize_cc(
                    pes.skip(offset + chunk_len),
                    false,
                    insert_pcr,
                    next_cc(cc),
                ));
            }
            cc = cc.wrapping_add(1) & 0x0Fu8;
            offset += chunk_len;
            is_first = false;
        }
        proof {
            assert(pes.skip(offset as int) =~= Seq::<u8>::empty());
            assert(output@ + Seq::<u8>::empty() =~= output@);
        }
        if pid == PID_VIDEO {
            self.video_continuity = cc;
        } else {
            self.audio_continuity = cc;
        }
    }

    /// Appends the Program Association Table.
    fn inject_pat(&mut self, output: &mut Vec<u8>)
        ensures
            final(output)@ == old(output)@ + pat_packet(old(self)@.pat_cc),
            final(self)@ == (MuxerView { pat_cc: next_cc(old(self)@.pat_cc), ..old(self)@ }),
    {
        let ghost start = output@;
        let mut section: Vec<u8> = Vec::new();
        section.push(0x00u8);
        section.push(0xB0u8);
        section.push(0x0Du8);
        section.push(0x00u8);
        section.push(0x01u8);
        section.push(0xC1u8);
        section.push(0x00u8);
        section.push(0x00u8);
        section.push(0x00u8);
        section.push(0x01u8);
        section.push(0xE0u8 | (((PID_PMT >> 8u16) & 0x1Fu16) as u8));
        section.push((PID_PMT & 0xFFu16) as u8);
        proof {
            assert(section@ =~= pat_section());
        }
        let cc = self.pat_continuity;
        Self::push_psi(output, PID_PAT, cc, &section);
        self.pat_continuity = self.pat_continuity.wrapping_add(1) & 0x0Fu8;
    }

    /// Appends the Program Map Table declaring H.264 video and AAC audio.
    fn inject_pmt(&mut self, output: &mut Vec<u8>)
        ensures
            final(output)@ == old(output)@ + pmt_packet(old(self)@.pmt_cc),
            final(self)@ == (MuxerView { pmt_cc: next_cc(old(self)@.pmt_cc), ..old(self)@ }),
    {
        let mut section: Vec<u8> = Vec::new();
        section.push(0x02u8);
        section.push(0xB0u8);
        section.push(0x17u8);
        section.push(0x00u8);
        section.push(0x01u8);
        section.push(0xC1u8);
        section.push(0x00u8);
        section.push(0x00u8);
        section.push(0xE0u8 | (((PID_VIDEO >> 8u16) & 0x1Fu16) as u8));
        section.push((PID_VIDEO & 0xFFu16) as u8);
        section.push(0xF0u8);
        section.push(0x00u8);
        section.push(0x1Bu8);
        section.push(0xE0u8 | (((PID_VIDEO >> 8u16) & 0x1Fu16) as u8));
        section.push((PID_VIDEO & 0xFFu16) as u8);
        section.push(0xF0u8);
        section.push(0x00u8);
        section.push(0x0Fu8);
        section.push(0xE0u8 | (((PID_AUDIO >> 8u16) & 0x1Fu16) as u8));
        section.push((PID_AUDIO & 0xFFu16) as u8);
        section.push(0xF0u8);
        section.push(0x00u8);
        proof {
            assert(section@ =~= pmt_section());
        }
        let cc = self.pmt_continuity;
        Self::push_psi(output, PID_PMT, cc, &section);
        self.pmt_continuity = self.pmt_continuity.wrapping_add(1) & 0x0Fu8;
    }

    /// Writes a PSI section in one TS packet, closed by its CRC-32.
    fn push_psi(output: &mut Vec<u8>, pid: u16, cc: u8, section: &Vec<u8>)
        requires
            section@.len() <= 179,
        ensures
            final(output)@ == old(output)@ + psi_packet(pid, cc, section@),
    {
        let ghost start = output@;
        push_header(output, true, pid, 0x10u8, cc);
        output.push(0x00u8);
        push_range(output, section.as_slice(), 0, section.len());
        let crc = crc32_mpeg(section.as_slice());
        output.push(((crc >> 24u32) & 0xFFu32) as u8);
        output.push(((crc >> 16u32) & 0xFFu32) as u8);
        output.push(((crc >> 8u32) & 0xFFu32) as u8);
        output.push((crc & 0xFFu32) as u8);
        push_stuffing(output, 183 - section.len() - 4);
        proof {
            assert(section@.subrange(0, section@.len() as int) =~= section@);
            assert(output@ =~= start + psi_packet(pid, cc, section@));
        }
    }
}


// ---------------------------------------------------------------------------
// The demultiplexer.
// ---------------------------------------------------------------------------

/// The demultiplexer's state: per elementary stream, the PES packet being
/// reassembled and the frames completed so far; and the bytes of an
/// incomplete TS packet kept for the next feed.
pub struct DemuxView {
    pub video_buf: Seq<u8>,
    pub video_frames: Seq<Seq<u8>>,
    pub audio_buf: Seq<u8>,
    pub audio_frames: Seq<Seq<u8>>,
    pub leftover: Seq<u8>,
}

/// The PID field of a TS packet.
pub open spec fn packet_pid(pkt: Seq<u8>) -> u16 {
    (((pkt[1] & 0x1Fu8) as u16) << 8u16) | (pkt[2] as u16)
}

/// For a 188-byte TS packet on the video or audio PID that carries a payload:
/// its PUSI flag, its PID and its payload bytes. `None` for every other
/// packet, which the demultiplexer ignores.
pub open spec fn ts_payload(pkt: Seq<u8>) -> Option<(bool, u16, Seq<u8>)> {
    let pusi = (pkt[1] & 0x40u8) != 0;
    let pid = packet_pid(pkt);
    let afc = (pkt[3] >> 4u8) & 0x03u8;
    if pid != PID_VIDEO && pid != PID_AUDIO {
        None
    } else if afc == 2 || afc == 0 {
        None
    } else {
        let off = if afc == 3 { 5 + pkt[4] as int } else { 4 };
        if off >= 188 {
            None
        } else {
            Some((pusi, pid, pkt.subrange(off, 188)))
        }
    }
}

/// The PES packet length field of a buffered PES packet.
pub open spec fn pes_declared_len(pes: Seq<u8>) -> int {
    pes[4] as int * 256 + pes[5] as int
}

pub open spec fn pes_payload_start(pes: Seq<u8>) -> int {
    9 + pes[8] as int
}

/// True when the buffered bytes look like a PES packet: long enough, with the
/// start code, and with the whole optional header present.
pub open spec fn pes_well_framed(pes: Seq<u8>) -> bool {
    &&& pes.len() >= 9
    &&& pes[0] == 0 && pes[1] == 0 && pes[2] == 1
    &&& pes_payload_start(pes) <= pes.len()
}

/// A well-framed PES packet whose declared length ends inside its own header:
/// the payload range would run backwards. Extraction of such a packet is a
/// slicing fault, so the demultiplexer requires never to meet one.
pub open spec fn pes_range_reversed(pes: Seq<u8>) -> bool {
    &&& pes_well_framed(pes)
    &&& pes_declared_len(pes) > 0
    &&& pes_declared_len(pes) + 6 <= pes.len()
    &&& pes_payload_start(pes) > pes_declared_len(pes) + 6
}

/// The elementary payload of a buffered PES packet: after the optional
/// header, up to the declared length when the buffer holds all of it, to the
/// end of the buffer otherwise.
pub open spec fn extract_pes(pes: Seq<u8>) -> Option<Seq<u8>> {
    if !pes_well_framed(pes) {
        None
    } else if pes_declared_len(pes) > 0 && pes_declared_len(pes) + 6 <= pes.len() {
        Some(pes.subrange(pes_payload_start(pes), pes_declared_len(pes) + 6))
    } else {
        Some(pes.skip(pes_payload_start(pes)))
    }
}

/// One stream's reassembly step: a PUSI packet closes the PES packet being
/// buffered (emitting its payload when it has one) and starts a new one.
pub open spec fn absorb(buf: Seq<u8>, frames: Seq<Seq<u8>>, pusi: bool, payload: Seq<u8>) -> (Seq<u8>, Seq<Seq<u8>>) {
    if pusi && buf.len() > 0 {
        (payload, match extract_pes(buf) {
            Some(f) => frames.push(f),
            None => frames,
        })
    } else {
        (buf + payload, frames)
    }
}

pub open spec fn absorb_faults(buf: Seq<u8>, pusi: bool) -> bool {
    pusi && buf.len() > 0 && pes_range_reversed(buf)
}

/// The demultiplexer after one 188-byte TS packet.
pub open spec fn process_packet(d: DemuxView, pkt: Seq<u8>) -> DemuxView {
    match ts_payload(pkt) {
        None => d,
        Some((pusi, pid, payload)) => if pid == PID_VIDEO {
            let (b, f) = absorb(d.video_buf, d.video_frames, pusi, payload);
            DemuxView { video_buf: b, video_frames: f, ..d }
        } else {
            let (b, f) = absorb(d.audio_buf, d.audio_frames, pusi, payload);
            DemuxView { audio_buf: b, audio_frames: f, ..d }
        },
    }
}

pub open spec fn process_faults(d: DemuxView, pkt: Seq<u8>) -> bool {
    match ts_payload(pkt) {
        None => false,
        Some((pusi, pid, _payload)) => if pid == PID_VIDEO {
            absorb_faults(d.video_buf, pusi)
        } else {
            absorb_faults(d.audio_buf, pusi)
        },
    }
}

/// Walks `stream` from `off`: a sync byte starts a 188-byte packet, any other
/// byte is skipped; the tail shorter than a packet is kept as leftover.
pub open spec fn scan(d: DemuxView, stream: Seq<u8>, off: int) -> DemuxView
    decreases stream.len() - off,
{
    if 0 <= off && off + 188 <= stream.len() {
        if stream[off] != TS_SYNC_BYTE {
            scan(d, stream, off + 1)
        } else {
            scan(process_packet(d, stream.subrange(off, off + 188)), stream, off + 188)
        }
    } else {
        DemuxView { leftover: stream.skip(off), ..d }
    }
}

pub open spec fn scan_faults(d: DemuxView, stream: Seq<u8>, off: int) -> bool
    decreases stream.len() - off,
{
    if 0 <= off && off + 188 <= stream.len() {
        if stream[off] != TS_SYNC_BYTE {
            scan_faults(d, stream, off + 1)
        } else {
            process_faults(d, stream.subrange(off, off + 188)) || scan_faults(
                process_packet(d, stream.subrange(off, off + 188)),
                stream,
                off + 188,
            )
        }
    } else {
        false
    }
}

/// The demultiplexer after `data` arrives.
pub open spec fn feed(d: DemuxView, data: Seq<u8>) -> DemuxView {
    scan(DemuxView { leftover: Seq::empty(), ..d }, d.leftover + data, 0)
}

/// True when feeding `data` would meet a PES packet whose payload range runs
/// backwards.
pub open spec fn feed_faults(d: DemuxView, data: Seq<u8>) -> bool {
    scan_faults(DemuxView { leftover: Seq::empty(), ..d }, d.leftover + data, 0)
}

/// Closes one stream's pending PES packet.
pub open spec fn close_stream(buf: Seq<u8>, frames: Seq<Seq<u8>>) -> Seq<Seq<u8>> {
    if buf.len() > 0 {
        match extract_pes(buf) {
            Some(f) => frames.push(f),
            None => frames,
        }
    } else {
        frames
    }
}

/// The demultiplexer after a flush: both pending PES packets are closed.
pub open spec fn flush_state(d: DemuxView) -> DemuxView {
    DemuxView {
        video_buf: Seq::empty(),
        video_frames: close_stream(d.video_buf, d.video_frames),
        audio_buf: Seq::empty(),
        audio_frames: close_stream(d.audio_buf, d.audio_frames),
        leftover: d.leftover,
    }
}

pub open spec fn flush_faults(d: DemuxView) -> bool {
    (d.video_buf.len() > 0 && pes_range_reversed(d.video_buf)) || (d.audio_buf.len() > 0
        && pes_range_reversed(d.audio_buf))
}

pub open spec fn frames_view(frames: Seq<Vec<u8>>) -> Seq<Seq<u8>> {
    frames.map_values(|f: Vec<u8>| f@)
}

/// MPEG-2 Transport Stream demultiplexer.
///
/// Reassembles 188-byte TS packets from the network, demultiplexes the video
/// (PID 0x0100) and audio (PID 0x0101) PES streams, and hands out complete
/// frame payloads in arrival order.
pub struct MpegTsDemuxer {
    video_pes_buffer: Vec<u8>,
    completed_video_frames: Vec<Vec<u8>>,
    audio_pes_buffer: Vec<u8>,
    completed_audio_frames: Vec<Vec<u8>>,
    leftover: Vec<u8>,
}

impl View for MpegTsDemuxer {
    type V = DemuxView;

    closed spec fn view(&self) -> DemuxView {
        DemuxView {
            video_buf: self.video_pes_buffer@,
            video_frames: frames_view(self.completed_video_frames@),
            audio_buf: self.audio_pes_buffer@,
            audio_frames: frames_view(self.completed_audio_frames@),
            leftover: self.leftover@,
        }
    }
}

fn absorb_payload(
    buf: &mut Vec<u8>,
    frames: &mut Vec<Vec<u8>>,
    pusi: bool,
    stream: &[u8],
    from: usize,
    to: usize,
)
    requires
        from <= to <= stream@.len(),
        !absorb_faults(old(buf)@, pusi),
    ensures
        (final(buf)@, frames_view(final(frames)@)) == absorb(
            old(buf)@,
            frames_view(old(frames)@),
            pusi,
            stream@.subrange(from as int, to as int),
        ),
{
    if pusi && buf.len() > 0 {
        let extracted = MpegTsDemuxer::extract_pes_payload(buf.as_slice());
        match extracted {
            Some(frame) => {
                let ghost before = frames@;
                frames.push(frame);
                proof {
                    assert(frames_view(frames@) =~= frames_view(before).push(frame@));
                }
            },
            None => {},
        }
        buf.clear();
    }
    push_range(buf, stream, from, to);
    proof {
        assert(Seq::<u8>::empty() + stream@.subrange(from as int, to as int) =~= stream@.subrange(
            from as int,
            to as int,
        ));
    }
}

impl Default for MpegTsDemuxer {
    /// A demuxer that has received nothing yet, as [`MpegTsDemuxer::new`]
    /// makes it.
    fn default() -> (d: Self)
        ensures
            d@.video_buf.len() == 0,
            d@.video_frames.len() == 0,
            d@.audio_buf.len() == 0,
            d@.audio_frames.len() == 0,
            d@.leftover.len() == 0,
    {
        Self::new()
    }
}

impl MpegTsDemuxer {
    pub fn new() -> (d: Self)
        ensures
            d@.video_buf.len() == 0,
            d@.video_frames.len() == 0,
            d@.audio_buf.len() == 0,
            d@.audio_frames.len() == 0,
            d@.leftover.len() == 0,
    {
        let d = MpegTsDemuxer {
            video_pes_buffer: Vec::new(),
            completed_video_frames: Vec::new(),
            audio_pes_buffer: Vec::new(),
            completed_audio_frames: Vec::new(),
            leftover: Vec::new(),
        };
        proof {
            assert(frames_view(d.completed_video_frames@) =~= Seq::<Seq<u8>>::empty());
            assert(frames_view(d.completed_audio_frames@) =~= Seq::<Seq<u8>>::empty());
        }
        d
    }

    /// Feeds raw bytes from the network into the demultiplexer.
    pub fn feed_ts_bytes(&mut self, data: &[u8])
        requires
            !feed_faults(old(self)@, data@),
        ensures
            final(self)@ == feed(old(self)@, data@),
    {
        let ghost d0 = self@;
        let mut stream: Vec<u8> = Vec::new();
        push_range(&mut stream, self.leftover.as_slice(), 0, self.leftover.len());
        push_range(&mut stream, data, 0, data.len());
        self.leftover.clear();
        proof {
            assert(d0.leftover.subrange(0, d0.leftover.len() as int) =~= d0.leftover);
            assert(data@.subrange(0, data@.len() as int) =~= data@);
            assert(self@ == DemuxView { leftover: Seq::empty(), ..d0 });
        }

        let mut offset: usize = 0;
        while stream.len() - offset >= TS_PACKET_SIZE
            invariant
                offset <= stream@.len(),
                self.leftover@.len() == 0,
                scan(self@, stream@, offset as int) == feed(d0, data@),
                !scan_faults(self@, stream@, offset as int),
            decreases stream@.len() - offset,
        {
            if stream[offset] != TS_SYNC_BYTE {
                offset += 1;
            } else {
                self.process_ts_packet(stream.as_slice(), offset);
                offset += TS_PACKET_SIZE;
            }
        }

        if offset < stream.len() {
            push_range(&mut self.leftover, stream.as_slice(), offset, stream.len());
        }
        proof {
            assert(Seq::<u8>::empty() + stream@.subrange(offset as int, stream@.len() as int)
                =~= stream@.skip(offset as int));
            assert(self.leftover@ =~= stream@.skip(offset as int));
        }
    }

    /// Demultiplexes the TS packet at `stream[start..start + 188]`.
    fn process_ts_packet(&mut self, stream: &[u8], start: usize)
        requires
            start + 188 <= stream@.len(),
            !process_faults(old(self)@, stream@.subrange(start as int, start + 188)),
        ensures
            final(self)@ == process_packet(old(self)@, stream@.subrange(start as int, start + 188)),
    {
        let ghost pkt = stream@.subrange(start as int, start + 188);
        let _n = stream.len();
        let b1 = stream[start + 1];
        let b2 = stream[start + 2];
        let b3 = stream[start + 3];
        let pusi = (b1 & 0x40u8) != 0;
        let pid = (((b1 & 0x1Fu8) as u16) << 8u16) | (b2 as u16);
        let adapt_ctrl = (b3 >> 4u8) & 0x03u8;

        if pid != PID_VIDEO && pid != PID_AUDIO {
            return;
        }
        let mut payload_offset: usize = 4;
        if adapt_ctrl == 2 {
            return;
        } else if adapt_ctrl == 3 {
            let adapt_len = stream[start + 4] as usize;
            payload_offset = 5 + adapt_len;
            if payload_offset >= TS_PACKET_SIZE {
                return;
            }
        } else if adapt_ctrl == 0 {
            return;
        }
        proof {
            assert(stream@.subrange(start + payload_offset, start + 188) =~= pkt.subrange(
                payload_offset as int,
                188,
            ));
        }
        if pid == PID_VIDEO {
            absorb_payload(
                &mut self.video_pes_buffer,
                &mut self.completed_video_frames,
                pusi,
                stream,
                start + payload_offset,
                start + TS_PACKET_SIZE,
            );
        } else {
            absorb_payload(
                &mut self.audio_pes_buffer,
                &mut self.completed_audio_frames,
                pusi,
                stream,
                start + payload_offset,
                start + TS_PACKET_SIZE,
            );
        }
    }

    /// The payload of a buffered PES packet, if it is framed as one.
    fn extract_pes_payload(pes: &[u8]) -> (r: Option<Vec<u8>>)
        requires
            !pes_range_reversed(pes@),
        ensures
            match r {
                Some(f) => extract_pes(pes@) == Some(f@),
                None => extract_pes(pes@) is None,
            },
    {
        if pes.len() < 9 {
            return None;
        }
        if pes[0] != 0x00 || pes[1] != 0x00 || pes[2] != 0x01 {
            return None;
        }
        let pes_packet_len = (pes[4] as usize) * 256 + (pes[5] as usize);
        let header_data_len = pes[8] as usize;
        let payload_start = 9 + header_data_len;
        if payload_start > pes.len() {
            return None;
        }
        let mut out: Vec<u8> = Vec::new();
        if pes_packet_len > 0 && pes_packet_len + 6 <= pes.len() {
            push_range(&mut out, pes, payload_start, 6 + pes_packet_len);
        } else {
            push_range(&mut out, pes, payload_start, pes.len());
        }
        proof {
            assert(pes@.subrange(payload_start as int, pes@.len() as int) =~= pes@.skip(payload_start as int));
            assert(Seq::<u8>::empty() + pes@.subrange(payload_start as int, pes@.len() as int)
                =~= pes@.subrange(payload_start as int, pes@.len() as int));
        }
        Some(out)
    }

    /// Takes the oldest completed video frame.
    pub fn next_video_frame(&mut self) -> (r: Option<Vec<u8>>)
        ensures
            match r {
                Some(f) => {
                    &&& old(self)@.video_frames.len() > 0
                    &&& f@ == old(self)@.video_frames[0]
                    &&& final(self)@ == DemuxView { video_frames: old(self)@.video_frames.drop_first(), ..old(self)@ }
                },
                None => old(self)@.video_frames.len() == 0 && final(self)@ == old(self)@,
            },
    {
        if !self.completed_video_frames.is_empty() {
            let ghost before = self.completed_video_frames@;
            let f = self.completed_video_frames.remove(0);
            proof {
                assert(frames_view(self.completed_video_frames@) =~= frames_view(before).drop_first());
            }
            Some(f)
        } else {
            None
        }
    }

    /// Takes the oldest completed audio frame (interleaved i16 LE PCM).
    pub fn next_audio_frame(&mut self) -> (r: Option<Vec<u8>>)
        ensures
            match r {
                Some(f) => {
                    &&& old(self)@.audio_frames.len() > 0
                    &&& f@ == old(self)@.audio_frames[0]
                    &&& final(self)@ == DemuxView { audio_frames: old(self)@.audio_frames.drop_first(), ..old(self)@ }
                },
                None => old(self)@.audio_frames.len() == 0 && final(self)@ == old(self)@,
            },
    {
        if !self.completed_audio_frames.is_empty() {
            let ghost before = self.completed_audio_frames@;
            let f = self.completed_audio_frames.remove(0);
            proof {
                assert(frames_view(self.completed_audio_frames@) =~= frames_view(before).drop_first());
            }
            Some(f)
        } else {
            None
        }
    }

    /// Closes the PES packets still being reassembled.
    pub fn flush(&mut self)
        requires
            !flush_faults(old(self)@),
        ensures
            final(self)@ == flush_state(old(self)@),
    {
        if !self.video_pes_buffer.is_empty() {
            let extracted = Self::extract_pes_payload(self.video_pes_buffer.as_slice());
            match extracted {
                Some(frame) => {
                    let ghost before = self.completed_video_frames@;
                    self.completed_video_frames.push(frame);
                    proof {
                        assert(frames_view(self.completed_video_frames@) =~= frames_view(before).push(frame@));
                    }
                },
                None => {},
            }
            self.video_pes_buffer.clear();
        }
        if !self.audio_pes_buffer.is_empty() {
            let extracted = Self::extract_pes_payload(self.audio_pes_buffer.as_slice());
            match extracted {
                Some(frame) => {
                    let ghost before = self.completed_audio_frames@;
                    self.completed_audio_frames.push(frame);
                    proof {
                        assert(frames_view(self.completed_audio_frames@) =~= frames_view(before).push(frame@));
                    }
                },
                None => {},
            }
            self.audio_pes_buffer.clear();
        }
        proof {
            assert(self.video_pes_buffer@ =~= Seq::<u8>::empty());
            assert(self.audio_pes_buffer@ =~= Seq::<u8>::empty());
        }
    }

    /// True when feeding `data` would meet a buffered PES packet whose
    /// declared length ends inside its own header, which `feed_ts_bytes`
    /// cannot extract.
    pub fn feed_would_fault(&self, data: &[u8]) -> (f: bool)
        ensures
            f == feed_faults(self@, data@),
    {
        let mut stream: Vec<u8> = Vec::new();
        push_range(&mut stream, self.leftover.as_slice(), 0, self.leftover.len());
        push_range(&mut stream, data, 0, data.len());
        let mut video: Vec<u8> = Vec::new();
        push_range(&mut video, self.video_pes_buffer.as_slice(), 0, self.video_pes_buffer.len());
        let mut audio: Vec<u8> = Vec::new();
        push_range(&mut audio, self.audio_pes_buffer.as_slice(), 0, self.audio_pes_buffer.len());
        let mut probe = MpegTsDemuxer {
            video_pes_buffer: video,
            completed_video_frames: Vec::new(),
            audio_pes_buffer: audio,
            completed_audio_frames: Vec::new(),
            leftover: Vec::new(),
        };
        proof {
            assert(self@.leftover.subrange(0, self@.leftover.len() as int) =~= self@.leftover);
            assert(data@.subrange(0, data@.len() as int) =~= data@);
            assert(probe@.video_buf =~= self@.video_buf);
            assert(probe@.audio_buf =~= self@.audio_buf);
            lemma_scan_faults_reads_buffers(
                probe@,
                DemuxView { leftover: Seq::empty(), ..self@ },
                stream@,
                0,
            );
        }
        let mut offset: usize = 0;
        while stream.len() - offset >= TS_PACKET_SIZE
            invariant
                offset <= stream@.len(),
                scan_faults(probe@, stream@, offset as int) == feed_faults(self@, data@),
            decreases stream@.len() - offset,
        {
            if stream[offset] != TS_SYNC_BYTE {
                offset += 1;
            } else {
                if probe.packet_would_fault(stream.as_slice(), offset) {
                    return true;
                }
                probe.process_ts_packet(stream.as_slice(), offset);
                offset += TS_PACKET_SIZE;
            }
        }
        false
    }

    /// True when `flush` would meet a buffered PES packet whose declared
    /// length ends inside its own header.
    pub fn flush_would_fault(&self) -> (f: bool)
        ensures
            f == flush_faults(self@),
    {
        (!self.video_pes_buffer.is_empty() && range_reversed(self.video_pes_buffer.as_slice()))
            || (!self.audio_pes_buffer.is_empty() && range_reversed(self.audio_pes_buffer.as_slice()))
    }

    /// Whether demultiplexing the TS packet at `stream[start..start + 188]`
    /// would meet a PES packet that cannot be extracted.
    fn packet_would_fault(&self, stream: &[u8], start: usize) -> (f: bool)
        requires
            start + 188 <= stream@.len(),
        ensures
            f == process_faults(self@, stream@.subrange(start as int, start + 188)),
    {
        let ghost pkt = stream@.subrange(start as int, start + 188);
        let _n = stream.len();
        let b1 = stream[start + 1];
        let b2 = stream[start + 2];
        let b3 = stream[start + 3];
        let pusi = (b1 & 0x40u8) != 0;
        let pid = (((b1 & 0x1Fu8) as u16) << 8u16) | (b2 as u16);
        let adapt_ctrl = (b3 >> 4u8) & 0x03u8;
        if pid != PID_VIDEO && pid != PID_AUDIO {
            return false;
        }
        if adapt_ctrl == 2 || adapt_ctrl == 0 {
            return false;
        }
        if adapt_ctrl == 3 {
            let adapt_len = stream[start + 4] as usize;
            if 5 + adapt_len >= TS_PACKET_SIZE {
                return false;
            }
        }
        if !pusi {
            return false;
        }
        if pid == PID_VIDEO {
            !self.video_pes_buffer.is_empty() && range_reversed(self.video_pes_buffer.as_slice())
        } else {
            !self.audio_pes_buffer.is_empty() && range_reversed(self.audio_pes_buffer.as_slice())
        }
    }
}

/// Whether a buffered PES packet's declared length ends inside its own
/// header.
fn range_reversed(pes: &[u8]) -> (r: bool)
    ensures
        r == pes_range_reversed(pes@),
{
    if pes.len() < 9 || pes[0] != 0x00 || pes[1] != 0x00 || pes[2] != 0x01 {
        return false;
    }
    let declared = (pes[4] as usize) * 256 + (pes[5] as usize);
    let payload_start = 9 + pes[8] as usize;
    payload_start <= pes.len() && declared > 0 && declared + 6 <= pes.len() && payload_start > declared + 6
}

/// Whether the stream faults depends on the PES buffers alone, not on the
/// frames completed so far nor on the leftover bytes.
proof fn lemma_scan_faults_reads_buffers(a: DemuxView, b: DemuxView, s: Seq<u8>, off: int)
    requires
        a.video_buf == b.video_buf,
        a.audio_buf == b.audio_buf,
    ensures
        scan_faults(a, s, off) == scan_faults(b, s, off),
    decreases s.len() - off,
{
    if 0 <= off && off + 188 <= s.len() {
        if s[off] != TS_SYNC_BYTE {
            lemma_scan_faults_reads_buffers(a, b, s, off + 1);
        } else {
            let pkt = s.subrange(off, off + 188);
            lemma_scan_faults_reads_buffers(process_packet(a, pkt), process_packet(b, pkt), s, off + 188);
        }
    }
}

/// The scan does not read the leftover it starts with: it sets it at the end.
proof fn lemma_scan_ignores_leftover(d: DemuxView, leftover: Seq<u8>, s: Seq<u8>, off: int)
    ensures
        scan(d, s, off) == scan(DemuxView { leftover, ..d }, s, off),
    decreases s.len() - off,
{
    let e = DemuxView { leftover, ..d };
    if 0 <= off && off + 188 <= s.len() {
        if s[off] != TS_SYNC_BYTE {
            lemma_scan_ignores_leftover(d, leftover, s, off + 1);
        } else {
            let pkt = s.subrange(off, off + 188);
            assert(process_packet(e, pkt) == DemuxView { leftover, ..process_packet(d, pkt) });
            lemma_scan_ignores_leftover(process_packet(d, pkt), leftover, s, off + 188);
        }
    }
}

/// Bytes in front of the scan position are never looked at again.
proof fn lemma_scan_drops_prefix(d: DemuxView, x: Seq<u8>, y: Seq<u8>, j: int)
    requires
        0 <= j <= y.len(),
    ensures
        scan(d, x + y, x.len() + j) == scan(d, y, j),
        scan_faults(d, x + y, x.len() + j) == scan_faults(d, y, j),
    decreases y.len() - j,
{
    let s = x + y;
    let off = x.len() + j;
    if off + 188 <= s.len() {
        assert(s[off] == y[j]);
        if y[j] != TS_SYNC_BYTE {
            lemma_scan_drops_prefix(d, x, y, j + 1);
        } else {
            assert(s.subrange(off, off + 188) =~= y.subrange(j, j + 188));
            lemma_scan_drops_prefix(process_packet(d, y.subrange(j, j + 188)), x, y, j + 188);
        }
    } else {
        assert(s.skip(off) =~= y.skip(j));
    }
}

/// Scanning `s1 + b` from `off` is scanning `s1`, then scanning what it left
/// over followed by `b`.
proof fn lemma_scan_concat(d: DemuxView, s1: Seq<u8>, b: Seq<u8>, off: int)
    requires
        0 <= off <= s1.len(),
    ensures
        scan(d, s1 + b, off) == scan(
            DemuxView { leftover: Seq::empty(), ..scan(d, s1, off) },
            scan(d, s1, off).leftover + b,
            0,
        ),
        scan_faults(d, s1 + b, off) == (scan_faults(d, s1, off) || scan_faults(
            DemuxView { leftover: Seq::empty(), ..scan(d, s1, off) },
            scan(d, s1, off).leftover + b,
            0,
        )),
    decreases s1.len() - off,
{
    let s = s1 + b;
    if off + 188 <= s1.len() {
        assert(s[off] == s1[off]);
        if s1[off] != TS_SYNC_BYTE {
            lemma_scan_concat(d, s1, b, off + 1);
        } else {
            assert(s.subrange(off, off + 188) =~= s1.subrange(off, off + 188));
            lemma_scan_concat(process_packet(d, s1.subrange(off, off + 188)), s1, b, off + 188);
        }
    } else {
        let x = s1.take(off);
        let y = s1.skip(off) + b;
        assert(x + y =~= s);
        lemma_scan_drops_prefix(d, x, y, 0);
        lemma_scan_ignores_leftover(d, Seq::empty(), y, 0);
        lemma_scan_faults_reads_buffers(d, DemuxView { leftover: Seq::empty(), ..d }, y, 0);
    }
}

/// Where the byte stream is cut does not matter: feeding `a` and then `b`
/// leaves the demultiplexer as feeding `a + b` at once does, and faults on
/// exactly the same inputs.
pub proof fn law_feed_split_is_invisible(d: DemuxView, a: Seq<u8>, b: Seq<u8>)
    ensures
        feed(feed(d, a), b) == feed(d, a + b),
        feed_faults(d, a + b) == (feed_faults(d, a) || feed_faults(feed(d, a), b)),
{
    let d0 = DemuxView { leftover: Seq::empty(), ..d };
    assert(d.leftover + (a + b) =~= (d.leftover + a) + b);
    lemma_scan_concat(d0, d.leftover + a, b, 0);
}

/// The 33-bit time stamp that the 5-byte PES timestamp field at `at`
/// holds: bits 32..30 in the first byte, 29..15 over the next two, 14..0
/// over the last two, each group followed by a marker bit.
pub open spec fn read_timestamp(b: Seq<u8>, at: int) -> u64 {
    ((((b[at] >> 1u8) & 0x07u8) as u64) << 30u64) | ((b[at + 1] as u64) << 22u64) | (((b[at + 2] >> 1u8) as u64)
        << 15u64) | ((b[at + 3] as u64) << 7u64) | ((b[at + 4] >> 1u8) as u64)
}

/// A timestamp field reads back as the time stamp modulo 2^33, under its
/// 4-bit prefix, with the three marker bits set.
pub proof fn law_timestamp_field_reads_back(ts: u64, prefix: u8)
    ensures
        timestamp_field(ts, prefix).len() == 5,
        read_timestamp(timestamp_field(ts, prefix), 0) == ts % 0x2_0000_0000,
        timestamp_field(ts, prefix)[0] >> 4u8 == prefix % 16,
        timestamp_field(ts, prefix)[0] & 1 == 1,
        timestamp_field(ts, prefix)[2] & 1 == 1,
        timestamp_field(ts, prefix)[4] & 1 == 1,
{
    let f = timestamp_field(ts, prefix);
    let hi = ((ts >> 30u64) & 0x07u64) as u8;
    let mid = ((ts >> 15u64) & 0x7FFFu64) as u16;
    let lo = (ts & 0x7FFFu64) as u16;
    let b0 = (prefix << 4u8) | (hi << 1u8) | 0x01u8;
    let b1 = ((mid >> 7u16) & 0xFFu16) as u8;
    let b2 = (((mid & 0x7Fu16) << 1u16) | 0x01u16) as u8;
    let b3 = ((lo >> 7u16) & 0xFFu16) as u8;
    let b4 = (((lo & 0x7Fu16) << 1u16) | 0x01u16) as u8;
    assert(f[0] == b0 && f[1] == b1 && f[2] == b2 && f[3] == b3 && f[4] == b4);
    assert(((((b0 >> 1u8) & 0x07u8) as u64) << 30u64) | ((b1 as u64) << 22u64) | (((b2 >> 1u8) as u64) << 15u64)
        | ((b3 as u64) << 7u64) | ((b4 >> 1u8) as u64) == ts % 0x2_0000_0000) by (bit_vector)
        requires
            hi == ((ts >> 30u64) & 0x07u64) as u8,
            mid == ((ts >> 15u64) & 0x7FFFu64) as u16,
            lo == (ts & 0x7FFFu64) as u16,
            b0 == (prefix << 4u8) | (hi << 1u8) | 0x01u8,
            b1 == ((mid >> 7u16) & 0xFFu16) as u8,
            b2 == (((mid & 0x7Fu16) << 1u16) | 0x01u16) as u8,
            b3 == ((lo >> 7u16) & 0xFFu16) as u8,
            b4 == (((lo & 0x7Fu16) << 1u16) | 0x01u16) as u8,
    ;
    assert(b0 >> 4u8 == prefix % 16 && b0 & 1 == 1 && b2 & 1 == 1 && b4 & 1 == 1) by (bit_vector)
        requires
            hi == ((ts >> 30u64) & 0x07u64) as u8,
            mid == ((ts >> 15u64) & 0x7FFFu64) as u16,
            lo == (ts & 0x7FFFu64) as u16,
            b0 == (prefix << 4u8) | (hi << 1u8) | 0x01u8,
            b2 == (((mid & 0x7Fu16) << 1u16) | 0x01u16) as u8,
            b4 == (((lo & 0x7Fu16) << 1u16) | 0x01u16) as u8,
    ;
}

/// The PES packet of a media packet carries its PTS at bytes 9..14 (prefix
/// 0b0011 with a DTS, 0b0010 without) and, when it has one, its DTS at bytes
/// 14..19 (prefix 0b0001); each reads back modulo 2^33.
pub proof fn law_pes_packet_carries_its_time_stamps(stream_id: u8, pts: u64, dts: u64, payload: Seq<u8>)
    ensures
        read_timestamp(pes_packet(stream_id, pts, dts, payload), 9) == pts % 0x2_0000_0000,
        pes_packet(stream_id, pts, dts, payload)[9] >> 4u8 == (if has_dts(pts, dts) { 3u8 } else { 2u8 }),
        has_dts(pts, dts) ==> read_timestamp(pes_packet(stream_id, pts, dts, payload), 14) == dts % 0x2_0000_0000
            && pes_packet(stream_id, pts, dts, payload)[14] >> 4u8 == 1,
        pes_packet(stream_id, pts, dts, payload)[7] == (if has_dts(pts, dts) { 0xC0u8 } else { 0x80u8 }),
{
    let pes = pes_packet(stream_id, pts, dts, payload);
    let pf = timestamp_field(pts, if has_dts(pts, dts) { 0x03u8 } else { 0x02u8 });
    law_timestamp_field_reads_back(pts, if has_dts(pts, dts) { 0x03u8 } else { 0x02u8 });
    assert forall|i: int| 0 <= i < 5 implies pes[9 + i] == #[trigger] pf[i] by {}
    assert(read_timestamp(pes, 9) == read_timestamp(pf, 0));
    if has_dts(pts, dts) {
        let df = timestamp_field(dts, 0x01u8);
        law_timestamp_field_reads_back(dts, 0x01u8);
        assert forall|i: int| 0 <= i < 5 implies pes[14 + i] == #[trigger] df[i] by {}
        assert(read_timestamp(pes, 14) == read_timestamp(df, 0));
    }
}

} // verus!