use castscreen::pacing::{frame_interval_micros, pacing_delay_micros, RateWindow};

#[test]
fn frame_interval_is_the_whole_microsecond_period() {
    assert_eq!(frame_interval_micros(60), 16_666);
    assert_eq!(frame_interval_micros(120), 8_333);
    assert_eq!(frame_interval_micros(1), 1_000_000);
}

#[test]
fn pacing_sleeps_the_rest_of_the_period() {
    assert_eq!(pacing_delay_micros(16_666, 5_000), 11_666);
    assert_eq!(pacing_delay_micros(16_666, 16_666), 0);
    assert_eq!(pacing_delay_micros(16_666, 40_000), 0);
}

#[test]
fn rate_window_closes_after_a_second() {
    let mut w = RateWindow::new(1_000);
    for _ in 0..59 {
        w.count_frame();
    }
    assert!(w.tick(1_999).is_none());
    assert_eq!(w.frames, 59);
    let s = w.tick(2_010).unwrap();
    assert_eq!(s.frames, 59);
    assert_eq!(s.elapsed_ms, 1_010);
    assert_eq!(w.frames, 0);
    assert_eq!(w.started_ms, 2_010);
    // A clock reading before the window's start counts as no time passed.
    assert!(w.tick(5).is_none());
}
