use pyin::{Framing, PYINExecutor, PadMode};
use voice_features::demux::{demux, has_audio};
use voice_features::executor::plan_channel_frames;
use voice_features::merge::{merge_table, ResultRow};
use voice_features::plan::chunk_plan;

/// A miniature end-to-end run of the verified pipeline components with a
/// deterministic integer kernel standing in for the numeric estimators.
fn run_energy_pipeline(interleaved: &Vec<i32>, channels: usize, sr: usize) -> Vec<Vec<String>> {
    let chans = demux(interleaved, channels).unwrap();
    let mut results: Vec<Vec<ResultRow>> = Vec::new();
    for ch in &chans {
        if !has_audio(ch, 0) {
            results.push(vec![]);
            continue;
        }
        let positions = plan_channel_frames(ch, 0, 300, 25, 25, 10).unwrap();
        let rows: Vec<ResultRow> = positions
            .iter()
            .map(|&p| {
                let end = (p + 25).min(ch.len());
                let frame = &ch[p..end];
                let energy: i64 = frame.iter().map(|&s| (s as i64) * (s as i64)).sum();
                ResultRow {
                    time_cell: format!("{:.4}", p as f64 / sr as f64),
                    value_cells: vec![format!("{}", energy)],
                }
            })
            .collect();
        results.push(rows);
    }
    merge_table(&results, 1, "")
}

#[test]
fn pipeline_is_idempotent() {
    // Two runs over identical input and configuration, byte-identical tables.
    let interleaved: Vec<i32> = (0..2000)
        .map(|i| if i % 2 == 0 { ((i * 37) % 1000) as i32 - 500 } else { 0 })
        .collect();
    let first = run_energy_pipeline(&interleaved, 2, 16000);
    let second = run_energy_pipeline(&interleaved, 2, 16000);
    assert_eq!(first, second);
    // Channel 2 is all zeros: silence-skipped, so its column is always empty.
    assert!(first.len() > 0);
    for row in &first {
        assert_eq!(row.len(), 3);
        assert_eq!(row[2], "");
        assert!(!row[1].is_empty());
    }
}

#[test]
fn sine_tone_pitch_within_two_hz() {
    // A pure 220 Hz tone at 16 kHz, run through the demultiplexer, the chunk
    // planner and the pitch kernel with 25 ms frames.
    let sr = 16000u32;
    let n = 16000usize;
    let interleaved: Vec<i32> = (0..n)
        .map(|i| {
            let x = 0.5 * (2.0 * std::f64::consts::PI * 220.0 * i as f64 / sr as f64).sin();
            (x * i32::MAX as f64) as i32
        })
        .collect();
    let chans = demux(&interleaved, 1).unwrap();
    assert!(has_audio(&chans[0], 0));
    let normalized: Vec<f64> = chans[0].iter().map(|&s| s as f64 / i32::MAX as f64).collect();

    let frame_len = (0.025 * sr as f64) as usize;
    let chunk_samples = 5 * sr as usize;
    let plan = chunk_plan(normalized.len(), chunk_samples, frame_len).unwrap();
    assert_eq!(plan, vec![(0, n)]);

    let mut estimates: Vec<(f64, f64)> = Vec::new();
    for &(start, end) in &plan {
        let chunk = &normalized[start..end];
        let mut executor =
            PYINExecutor::new(60.0, 600.0, sr, frame_len, None, None, None);
        let framing = Framing::Center(PadMode::Constant(0.0));
        let (timestamps, f0, _, _) = executor.pyin(chunk, f64::NAN, framing);
        for (&t, &pitch) in timestamps.iter().zip(f0.iter()) {
            let global_time = t + start as f64 / sr as f64;
            if pitch.is_finite() {
                estimates.push((global_time, pitch));
            }
        }
    }
    // Frames fully inside the tone: away from the padded edges.
    let interior: Vec<&(f64, f64)> = estimates
        .iter()
        .filter(|(t, _)| *t > 0.1 && *t < 0.9)
        .collect();
    assert!(interior.len() > 50);
    for (_, pitch) in &interior {
        assert!(
            (pitch - 220.0).abs() <= 2.0,
            "pitch estimate {} Hz is more than 2 Hz from 220 Hz",
            pitch
        );
    }
}
