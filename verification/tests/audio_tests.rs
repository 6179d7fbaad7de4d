use castscreen::audio::{stereo_block, SampleQueue, MAX_QUEUED_SAMPLES};

#[test]
fn stereo_blocks_keep_their_first_two_channels() {
    let six: Vec<i32> = (0..12).collect();
    assert_eq!(stereo_block(2, 6, &six, false, 0), vec![0, 1, 6, 7]);
    let stereo = [1.0f32, -1.0, 0.5, -0.5];
    assert_eq!(stereo_block(2, 2, &stereo, false, 0.0), stereo.to_vec());
}

#[test]
fn mono_blocks_are_duplicated() {
    let mono = [0.25f32, 0.5, 0.75];
    assert_eq!(stereo_block(3, 1, &mono, false, 0.0), vec![0.25, 0.25, 0.5, 0.5, 0.75, 0.75]);
}

#[test]
fn silent_blocks_are_zero_filled() {
    assert_eq!(stereo_block(3, 6, &[], true, 0.0f32), vec![0.0; 6]);
    assert!(stereo_block::<f32>(0, 2, &[], false, 0.0).is_empty());
}

#[test]
fn playback_queue_keeps_the_newest_samples() {
    let mut q: SampleQueue<f32> = SampleQueue::new(4);
    assert_eq!(q.capacity(), 4);
    q.push_samples(&[1.0, 2.0, 3.0]);
    assert_eq!(q.len(), 3);
    q.push_samples(&[4.0, 5.0, 6.0]);
    assert_eq!(q.len(), 4);
    assert_eq!(q.pop_front(), Some(3.0));
    assert_eq!(q.pop_front(), Some(4.0));
    q.push_samples(&[]);
    assert_eq!(q.len(), 2);
    assert_eq!(q.pop_front(), Some(5.0));
    assert_eq!(q.pop_front(), Some(6.0));
    assert_eq!(q.pop_front(), None);
}

#[test]
fn playback_queue_bounds_latency() {
    let mut q: SampleQueue<i16> = SampleQueue::new(MAX_QUEUED_SAMPLES);
    let block: Vec<i16> = (0..1000).map(|i| i as i16).collect();
    for _ in 0..50 {
        q.push_samples(&block);
        assert!(q.len() <= MAX_QUEUED_SAMPLES);
    }
    assert_eq!(q.len(), MAX_QUEUED_SAMPLES);
    // 50 000 samples went in; the oldest 11 600 were dropped.
    assert_eq!(q.pop_front(), Some(600));
}
