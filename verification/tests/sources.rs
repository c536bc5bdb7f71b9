use gonk_core::buffer::SamplesBuffer;
use gonk_core::source::{pausable, Done};

#[test]
fn buffer_duration_follows_the_formula() {
    // 44100 stereo samples at 44100 Hz: half a second
    let b = SamplesBuffer::new(2, 44100, vec![0; 44100]);
    assert_eq!(b.total_duration(), 500_000_000);
    assert_eq!(b.channels(), 2);
    assert_eq!(b.sample_rate(), 44100);
    assert_eq!(b.current_frame_len(), None);
}

#[test]
fn buffer_plays_through_and_ends() {
    let mut b = SamplesBuffer::new(1, 1000, vec![5, 6, 7]);
    assert_eq!(b.next(), Some(5));
    assert_eq!(b.next(), Some(6));
    assert_eq!(b.next(), Some(7));
    assert_eq!(b.next(), None);
}

#[test]
fn buffer_seek_clamps_to_the_end() {
    let mut b = SamplesBuffer::new(1, 1000, vec![1, 2, 3, 4]);
    // 1000 Hz mono: 2 ms is 2 samples
    b.seek(2);
    assert_eq!(b.next(), Some(3));
    b.seek(4_000_000_000);
    assert_eq!(b.next(), None);
}

#[test]
fn done_signals_once_at_the_end() {
    let b = SamplesBuffer::new(1, 1000, vec![9]);
    let mut d = Done::new(b);
    assert!(!d.is_done());
    assert_eq!(d.next(), Some(9));
    assert!(!d.is_done());
    assert_eq!(d.next(), None);
    assert!(d.is_done());
    assert_eq!(d.next(), None);
    assert!(d.is_done());
}

#[test]
fn pausable_emits_whole_frames_of_silence() {
    let b = SamplesBuffer::new(2, 1000, vec![1, 2, 3, 4]);
    let mut p = pausable(b, false);
    assert_eq!(p.next(), Some(1));
    p.set_paused(true);
    // a full stereo frame of silence per pull while paused
    assert_eq!(p.next(), Some(0));
    assert_eq!(p.next(), Some(0));
    p.set_paused(false);
    assert_eq!(p.next(), Some(2));
    assert_eq!(p.next(), Some(3));
    assert_eq!(p.next(), Some(4));
    assert_eq!(p.next(), None);
}
