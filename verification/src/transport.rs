//! Errors of the TCP stream link.
use vstd::prelude::*;

verus! {

#[verifier::external_type_specification]
#[verifier::external_body]
pub struct ExIoError(std::io::Error);

/// Why the receiver could not start listening.
#[derive(Debug)]
pub enum ReceiverError {
    /// Socket bind failed.
    Io(std::io::Error),
}

/// Why the sender could not reach the receiver.
#[derive(Debug)]
pub enum NetworkError {
    /// Socket error.
    Io(std::io::Error),
    /// Target unreachable.
    Unreachable(String),
}

/// The number of TS packets a transfer of `n` bytes is counted as: whole
/// 188-byte packets, and at least one.
pub open spec fn spec_ts_packet_count(n: usize) -> int {
    if n / 188 == 0 { 1 } else { (n / 188) as int }
}

/// Counts a transfer of `n` stream bytes in TS packets, as the link
/// statistics do.
pub fn ts_packet_count(n: usize) -> (c: u64)
    ensures
        c == spec_ts_packet_count(n),
{
    let whole = n / 188;
    if whole == 0 {
        1
    } else {
        whole as u64
    }
}

/// `a + b` on a 64-bit counter that wraps around, as the link's atomic
/// counters do.
pub open spec fn wrapping_sum(a: u64, b: u64) -> u64 {
    if a + b > u64::MAX { (a + b - 0x1_0000_0000_0000_0000int) as u64 } else { (a + b) as u64 }
}

/// Byte and packet tallies of the stream link: bytes since the last
/// throughput sample, and totals since the link was made.
pub struct LinkCounters {
    pub window_bytes: u64,
    pub total_bytes: u64,
    pub total_packets: u64,
}

/// What one throughput sample reports: the bytes moved over the sampling
/// window of `elapsed_ms`, and the totals so far.
pub struct LinkSample {
    pub window_bytes: u64,
    pub elapsed_ms: u64,
    pub total_bytes: u64,
    pub total_packets: u64,
}

/// The throughput figure is refreshed at most every half second.
pub const STATS_INTERVAL_MS: u64 = 500;

impl LinkCounters {
    pub fn new() -> (c: Self)
        ensures
            c.window_bytes == 0,
            c.total_bytes == 0,
            c.total_packets == 0,
    {
        LinkCounters { window_bytes: 0, total_bytes: 0, total_packets: 0 }
    }

    /// Counts a transfer of `n` bytes: in the window and in the total, and as
    /// [`spec_ts_packet_count`] packets.
    pub fn record(&mut self, n: usize)
        ensures
            final(self).window_bytes == wrapping_sum(old(self).window_bytes, n as u64),
            final(self).total_bytes == wrapping_sum(old(self).total_bytes, n as u64),
            final(self).total_packets == wrapping_sum(old(self).total_packets, spec_ts_packet_count(n) as u64),
    {
        let b = n as u64;
        self.window_bytes = self.window_bytes.wrapping_add(b);
        self.total_bytes = self.total_bytes.wrapping_add(b);
        self.total_packets = self.total_packets.wrapping_add(ts_packet_count(n));
    }

    /// When at least [`STATS_INTERVAL_MS`] have passed since the last sample,
    /// takes a sample and starts a new window; otherwise nothing changes.
    pub fn sample(&mut self, elapsed_ms: u64) -> (r: Option<LinkSample>)
        ensures
            elapsed_ms < STATS_INTERVAL_MS ==> r is None && final(self).window_bytes == old(self).window_bytes,
            elapsed_ms >= STATS_INTERVAL_MS ==> (r matches Some(s) && s.window_bytes == old(self).window_bytes
                && s.elapsed_ms == elapsed_ms && s.total_bytes == old(self).total_bytes
                && s.total_packets == old(self).total_packets && final(self).window_bytes == 0),
            final(self).total_bytes == old(self).total_bytes,
            final(self).total_packets == old(self).total_packets,
    {
        if elapsed_ms < STATS_INTERVAL_MS {
            return None;
        }
        let window = self.window_bytes;
        self.window_bytes = 0;
        Some(LinkSample {
            window_bytes: window,
            elapsed_ms,
            total_bytes: self.total_bytes,
            total_packets: self.total_packets,
        })
    }
}

/// Reconnection attempts are at least a second apart, so a missing receiver
/// does not spin the sender.
pub const RECONNECT_INTERVAL_MS: u64 = 1000;

/// Whether the sender should try to connect now: it is not connected, it has
/// a target, and it never tried or last tried at least
/// [`RECONNECT_INTERVAL_MS`] ago.
pub fn should_attempt_connect(connected: bool, has_target: bool, since_last_attempt_ms: Option<u64>) -> (go: bool)
    ensures
        go == (!connected && has_target && match since_last_attempt_ms {
            None => true,
            Some(ms) => ms >= RECONNECT_INTERVAL_MS,
        }),
{
    if connected || !has_target {
        return false;
    }
    match since_last_attempt_ms {
        None => true,
        Some(ms) => ms >= RECONNECT_INTERVAL_MS,
    }
}

} // verus!
