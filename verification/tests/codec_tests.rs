use sassytalkie::codec::{AudioFrame, FRAME_DURATION_MS, FRAME_SIZE, SAMPLE_RATE};

#[test]
fn frame_duration_and_silence() {
    let f = AudioFrame::new(FRAME_SIZE);
    assert_eq!(f.samples, vec![0i16; FRAME_SIZE]);
    assert_eq!(f.timestamp, 0);
    assert_eq!(f.duration_ms(), FRAME_DURATION_MS);
    let g = AudioFrame::from_samples(vec![1; 480], 77);
    assert_eq!(g.duration_ms(), 10);
    assert_eq!(g.timestamp, 77);
    assert_eq!(AudioFrame::new(47).duration_ms(), 0);
    assert_eq!(SAMPLE_RATE, 48000);
}
