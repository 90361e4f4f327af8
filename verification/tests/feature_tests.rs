use voice_features::feature::FeatureKind;
use voice_features::headers::feature_headers;
use voice_features::merge::{merge_table, ResultRow};

#[test]
fn arity_per_feature() {
    assert_eq!(FeatureKind::Pitch.arity(), 1);
    assert_eq!(FeatureKind::Formant.arity(), 4);
    assert_eq!(FeatureKind::Spectral.arity(), 5);
    assert_eq!(FeatureKind::JitterShimmerHnr.arity(), 6);
    assert_eq!(FeatureKind::RmsEnergy.arity(), 2);
}

#[test]
fn column_names_match_arity() {
    for kind in [
        FeatureKind::Pitch,
        FeatureKind::Formant,
        FeatureKind::Spectral,
        FeatureKind::JitterShimmerHnr,
        FeatureKind::RmsEnergy,
    ] {
        assert_eq!(kind.column_names().len(), kind.arity());
    }
}

#[test]
fn column_names_exact() {
    assert_eq!(FeatureKind::Pitch.column_names(), vec!["pitch_hz"]);
    assert_eq!(
        FeatureKind::JitterShimmerHnr.column_names(),
        vec![
            "f0_hz",
            "jitter_local_percent",
            "jitter_ppq5_percent",
            "shimmer_local_percent",
            "shimmer_apq5_percent",
            "hnr_db"
        ]
    );
    assert_eq!(FeatureKind::RmsEnergy.column_names(), vec!["rms", "energy"]);
}

#[test]
fn fill_cell_only_pitch_marks_missing_rows() {
    assert_eq!(FeatureKind::Pitch.fill_cell(), "no data");
    assert_eq!(FeatureKind::Formant.fill_cell(), "");
    assert_eq!(FeatureKind::Spectral.fill_cell(), "");
    assert_eq!(FeatureKind::JitterShimmerHnr.fill_cell(), "");
    assert_eq!(FeatureKind::RmsEnergy.fill_cell(), "");
}

#[test]
fn feature_shapes_drive_headers_and_merge() {
    let kind = FeatureKind::Formant;
    let headers = feature_headers(2, &kind.column_names());
    assert_eq!(headers.len(), 1 + 2 * kind.arity());
    assert_eq!(headers[1], "chan1_f1_hz");
    assert_eq!(headers[8], "chan2_f4_hz");

    let chans = vec![
        vec![ResultRow {
            time_cell: "0.0000".to_string(),
            value_cells: vec!["700.00".to_string(), "1200.00".to_string(), "".to_string(), "".to_string()],
        }],
        vec![],
    ];
    let table = merge_table(&chans, kind.arity(), kind.fill_cell());
    assert_eq!(table[0].len(), headers.len());
}
