use castscreen::transport::{should_attempt_connect, ts_packet_count, LinkCounters};

#[test]
fn transfers_count_whole_ts_packets_and_at_least_one() {
    assert_eq!(ts_packet_count(0), 1);
    assert_eq!(ts_packet_count(187), 1);
    assert_eq!(ts_packet_count(188), 1);
    assert_eq!(ts_packet_count(376), 2);
    assert_eq!(ts_packet_count(1316), 7);
}

#[test]
fn link_counters_sample_at_most_every_half_second() {
    let mut c = LinkCounters::new();
    c.record(1316);
    c.record(100);
    assert_eq!(c.total_bytes, 1416);
    assert_eq!(c.total_packets, 8);
    assert!(c.sample(499).is_none());
    assert_eq!(c.window_bytes, 1416);
    let s = c.sample(500).unwrap();
    assert_eq!(s.window_bytes, 1416);
    assert_eq!(s.elapsed_ms, 500);
    assert_eq!(s.total_bytes, 1416);
    assert_eq!(s.total_packets, 8);
    assert_eq!(c.window_bytes, 0);
    c.record(188);
    assert_eq!(c.sample(600).unwrap().window_bytes, 188);
    assert_eq!(c.total_bytes, 1604);
}

#[test]
fn link_counters_wrap_like_atomics() {
    let mut c = LinkCounters { window_bytes: u64::MAX, total_bytes: u64::MAX - 1, total_packets: u64::MAX };
    c.record(2);
    assert_eq!(c.window_bytes, 1);
    assert_eq!(c.total_bytes, 0);
    assert_eq!(c.total_packets, 0);
}

#[test]
fn reconnects_are_throttled_to_one_per_second() {
    assert!(should_attempt_connect(false, true, None));
    assert!(!should_attempt_connect(false, true, Some(999)));
    assert!(should_attempt_connect(false, true, Some(1000)));
    assert!(!should_attempt_connect(true, true, None));
    assert!(!should_attempt_connect(false, false, None));
}
