use voice_features::headers::feature_headers;

#[test]
fn headers_single_column_feature() {
    let cols = vec!["pitch_hz".to_string()];
    let headers = feature_headers(2, &cols);
    assert_eq!(headers, vec!["time_sec", "chan1_pitch_hz", "chan2_pitch_hz"]);
}

#[test]
fn headers_channels_outermost() {
    let cols = vec!["rms".to_string(), "energy".to_string()];
    let headers = feature_headers(2, &cols);
    assert_eq!(
        headers,
        vec!["time_sec", "chan1_rms", "chan1_energy", "chan2_rms", "chan2_energy"]
    );
}

#[test]
fn headers_two_digit_channel_numbers() {
    let cols = vec!["f0_hz".to_string()];
    let headers = feature_headers(12, &cols);
    assert_eq!(headers.len(), 13);
    assert_eq!(headers[10], "chan10_f0_hz");
    assert_eq!(headers[12], "chan12_f0_hz");
}

#[test]
fn headers_no_channels() {
    let cols = vec!["rms".to_string()];
    assert_eq!(feature_headers(0, &cols), vec!["time_sec"]);
}
