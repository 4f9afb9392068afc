use multitouch::playback::{is_exit_key, Playback};
use multitouch::preprocess::{preprocessing_plan, PixelOp};

#[test]
fn plan_is_the_band_pass_pipeline() {
    assert_eq!(
        preprocessing_plan(),
        vec![
            PixelOp::Subtract { minuend: 0, subtrahend: 1 },
            PixelOp::BoxBlur { source: 2, kernel: 20 },
            PixelOp::Subtract { minuend: 2, subtrahend: 3 },
            PixelOp::BoxBlur { source: 4, kernel: 10 },
            PixelOp::Threshold { source: 5, level: 12, value: 255 },
            PixelOp::BoxBlur { source: 6, kernel: 5 },
        ]
    );
}

#[test]
fn end_of_stream_rewinds_to_index_zero() {
    let mut playback = Playback::new(3);
    for expected in 0..3u64 {
        assert!(!playback.begin_frame());
        assert_eq!(playback.frame_counter(), expected);
        playback.frame_shown();
    }
    assert_eq!(playback.frame_counter(), 3);
    assert!(playback.begin_frame());
    assert_eq!(playback.frame_counter(), 0);
    assert!(!playback.begin_frame());
    assert_eq!(playback.total_frames(), 3);
}

#[test]
fn failed_read_retries_the_same_index() {
    let mut playback = Playback::new(5);
    assert!(!playback.begin_frame());
    playback.frame_shown();
    assert!(!playback.begin_frame());
    assert!(!playback.begin_frame());
    assert_eq!(playback.frame_counter(), 1);
}

#[test]
fn source_without_frames_rewinds_every_time() {
    let mut playback = Playback::new(0);
    assert!(playback.begin_frame());
    assert!(playback.begin_frame());
    playback.frame_shown();
    assert_eq!(playback.frame_counter(), 1);
    assert!(playback.begin_frame());
    assert_eq!(playback.frame_counter(), 0);
}

#[test]
fn escape_ends_the_loop() {
    assert!(is_exit_key(27));
    assert!(!is_exit_key(13));
    assert!(!is_exit_key(-1));
}
