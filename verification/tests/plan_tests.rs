use voice_features::plan::{chunk_plan, frame_starts, period_plan, stride_starts};
use voice_features::AudioError;

#[test]
fn chunk_plan_basic() {
    let plan = chunk_plan(12, 5, 2).unwrap();
    assert_eq!(plan, vec![(0, 7), (5, 12), (10, 12)]);
}

#[test]
fn chunk_plan_exact_multiple() {
    let plan = chunk_plan(10, 5, 0).unwrap();
    assert_eq!(plan, vec![(0, 5), (5, 10)]);
}

#[test]
fn chunk_plan_empty_channel() {
    assert_eq!(chunk_plan(0, 5, 2).unwrap(), vec![]);
}

#[test]
fn chunk_plan_zero_stride_is_refused() {
    assert_eq!(chunk_plan(10, 0, 3).unwrap_err(), AudioError::ZeroChunkStride);
}

#[test]
fn chunk_plan_zero_stride_empty_channel_is_empty() {
    assert_eq!(chunk_plan(0, 0, 0).unwrap(), vec![]);
}

#[test]
fn chunk_plan_overlap_beyond_length_terminates() {
    let plan = chunk_plan(10, 3, 100).unwrap();
    assert_eq!(plan, vec![(0, 10), (3, 10), (6, 10), (9, 10)]);
}

#[test]
fn chunk_plan_single_degenerate_chunk() {
    let plan = chunk_plan(5, 10, 0).unwrap();
    assert_eq!(plan, vec![(0, 5)]);
}

#[test]
fn chunk_plan_five_second_chunks() {
    let samplerate = 16000usize;
    let chunk_samples = 5 * samplerate;
    let overlap = 400;
    let plan = chunk_plan(12 * samplerate, chunk_samples, overlap).unwrap();
    assert_eq!(
        plan,
        vec![(0, 80400), (80000, 160400), (160000, 192000)]
    );
}

#[test]
fn stride_starts_exact() {
    assert_eq!(stride_starts(10, 4), vec![0, 4, 8]);
    assert_eq!(stride_starts(0, 4), vec![]);
    assert_eq!(stride_starts(1, 1), vec![0]);
}

#[test]
fn frame_starts_exact() {
    let starts = frame_starts(100, 25, 10);
    assert_eq!(starts, vec![0, 10, 20, 30, 40, 50, 60, 70]);
}

#[test]
fn frame_starts_frame_longer_than_data() {
    assert_eq!(frame_starts(10, 25, 10), vec![]);
}

#[test]
fn frame_starts_single_frame() {
    assert_eq!(frame_starts(25, 25, 10), vec![0]);
}

#[test]
fn period_plan_boundaries() {
    let periods = period_plan(800, 160);
    assert_eq!(
        periods,
        vec![(0, 160), (160, 320), (320, 480), (480, 640)]
    );
}

#[test]
fn period_plan_strict_end() {
    // A period whose end would land exactly on the window length is not taken.
    assert_eq!(period_plan(320, 160), vec![(0, 160)]);
    assert_eq!(period_plan(321, 160), vec![(0, 160), (160, 320)]);
}

#[test]
fn period_plan_degenerate() {
    assert_eq!(period_plan(100, 0), vec![]);
    assert_eq!(period_plan(100, 100), vec![]);
    assert_eq!(period_plan(100, 200), vec![]);
    assert_eq!(period_plan(0, 10), vec![]);
}
