use voice_features::signal::{count_sign_changes, next_pow2};

#[test]
fn sign_changes_alternating() {
    let signs = vec![true, false, true, false];
    assert_eq!(count_sign_changes(&signs), 3);
}

#[test]
fn sign_changes_constant_frame() {
    assert_eq!(count_sign_changes(&vec![true; 10]), 0);
    assert_eq!(count_sign_changes(&vec![false; 10]), 0);
}

#[test]
fn sign_changes_short_frames() {
    assert_eq!(count_sign_changes(&vec![]), 0);
    assert_eq!(count_sign_changes(&vec![true]), 0);
}

#[test]
fn sign_changes_of_square_wave() {
    // One sign change per half-period boundary: 16 samples, period 8.
    let signs: Vec<bool> = (0..16).map(|i| (i / 4) % 2 == 0).collect();
    assert_eq!(count_sign_changes(&signs), 3);
}

#[test]
fn next_pow2_values() {
    assert_eq!(next_pow2(0), 1);
    assert_eq!(next_pow2(1), 1);
    assert_eq!(next_pow2(2), 2);
    assert_eq!(next_pow2(3), 4);
    assert_eq!(next_pow2(400), 512);
    assert_eq!(next_pow2(512), 512);
    assert_eq!(next_pow2(513), 1024);
}
