use voice_features::AudioError;

#[test]
fn error_descriptions() {
    assert_eq!(
        AudioError::InvalidAudio.describe(),
        "invalid audio: zero channels or zero sample rate"
    );
    assert_eq!(
        AudioError::ZeroChunkStride.describe(),
        "invalid chunk plan: chunk stride is zero"
    );
}

#[test]
fn errors_compare_and_clone() {
    let e = AudioError::ZeroChunkStride;
    let f = e;
    assert_eq!(e, f);
    assert_ne!(AudioError::InvalidAudio, AudioError::ZeroChunkStride);
}
