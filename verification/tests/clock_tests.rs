use castscreen::clock::QpcClock;

#[test]
fn test_audio_samples_to_pts() {
    let pts = QpcClock::audio_samples_to_pts_90khz(48_000, 48_000);
    assert_eq!(pts, 90_000);

    let pts_frame = QpcClock::audio_samples_to_pts_90khz(1024, 48_000);
    assert_eq!(pts_frame, 1920);
}

#[test]
fn one_second_of_counter_is_ninety_thousand_ticks() {
    let clock = QpcClock::from_counter(10_000_000, 5_000);
    assert_eq!(clock.ticks_to_pts_90khz(5_000), 0);
    assert_eq!(clock.ticks_to_pts_90khz(10_005_000), 90_000);
    assert_eq!(clock.current_pts_90khz(5_005_000), 45_000);
    assert_eq!(clock.elapsed_millis(10_005_000), 1000);
}

#[test]
fn clock_never_runs_backwards_past_its_baseline() {
    let clock = QpcClock::from_counter(1_000, 1_000);
    assert_eq!(clock.ticks_to_pts_90khz(0), 0);
    assert_eq!(clock.elapsed_millis(0), 0);
    assert_eq!(clock.elapsed_millis(i64::MIN), 0);
}

#[test]
fn clock_without_frequency_assumes_ten_megahertz() {
    let clock = QpcClock::from_counter(0, 0);
    assert_eq!(clock.ticks_to_pts_90khz(10_000_000), 90_000);
    let negative = QpcClock::from_counter(-5, 0);
    assert_eq!(negative.elapsed_millis(10_000_000), 1000);
}

#[test]
fn pts_wraps_at_thirty_three_bits() {
    // 2^33 ticks at 90 kHz wrap to zero.
    let clock = QpcClock::from_counter(90_000, 0);
    assert_eq!(clock.ticks_to_pts_90khz(8_589_934_592), 0);
    assert_eq!(clock.ticks_to_pts_90khz(8_589_934_593), 1);
    assert_eq!(QpcClock::audio_samples_to_pts_90khz(8_589_934_592 + 5, 90_000), 5);
}

#[test]
fn reset_baseline_restarts_the_time_stamps() {
    let mut clock = QpcClock::from_counter(1_000, 0);
    assert_eq!(clock.elapsed_millis(2_000), 2_000);
    clock.reset_baseline(2_000);
    assert_eq!(clock.elapsed_millis(2_000), 0);
    assert_eq!(clock.current_pts_90khz(3_000), 90_000);
}

#[test]
fn elapsed_millis_handles_the_widest_span() {
    let clock = QpcClock::from_counter(1, i64::MIN);
    // The span saturates at i64::MAX ticks; at 1 Hz that is more milliseconds
    // than a u64 holds.
    assert_eq!(clock.elapsed_millis(i64::MAX), u64::MAX);
}

#[test]
fn audio_and_video_agree_on_whole_seconds() {
    let freq: i64 = 10_000_000;
    let start: i64 = 123_456_789;
    let clock = QpcClock::from_counter(freq, start);
    for k in [0i64, 1, 7, 3_600] {
        let video = clock.ticks_to_pts_90khz(start + k * freq);
        let audio = QpcClock::audio_samples_to_pts_90khz((k * 48_000) as u64, 48_000);
        assert_eq!(video, audio);
        assert_eq!(video, (k as u64 * 90_000) % 8_589_934_592);
    }
}

#[test]
fn later_readings_never_stamp_earlier_times() {
    let clock = QpcClock::from_counter(3_579_545, 1_000);
    let mut last = 0;
    for t in (0..50_000_000i64).step_by(777_777) {
        let pts = clock.ticks_to_pts_90khz(t);
        assert!(pts >= last);
        last = pts;
    }
}
