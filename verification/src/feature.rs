//! The closed set of feature kernels and the fixed shape of their output.
//!
//! Every kernel contributes the same number of value columns for every
//! channel of a run — one for pitch, four for formants, five for spectral
//! shape, six for the perturbation measures, two for level — and one fill
//! sentinel for rows where a channel has no entry. The numeric estimators
//! themselves work on floating-point windows outside this crate; what is
//! fixed here is the tabular shape their results are merged into.

use vstd::prelude::*;

verus! {

/// One of the per-frame feature kernels the pipeline can run.
#[derive(Clone, Copy, Debug, PartialEq, Eq, Structural)]
pub enum FeatureKind {
    /// Fundamental frequency per analysis frame.
    Pitch,
    /// Up to four ascending formant frequencies per frame.
    Formant,
    /// Centroid, rolloff, bandwidth, flatness and zero-crossing rate.
    Spectral,
    /// F0, jitter, shimmer and harmonics-to-noise ratio per window.
    JitterShimmerHnr,
    /// Root-mean-square amplitude and sum-of-squares energy per frame.
    RmsEnergy,
}

impl FeatureKind {
    /// The fixed number of value columns each channel contributes.
    pub open spec fn spec_arity(self) -> usize {
        match self {
            FeatureKind::Pitch => 1,
            FeatureKind::Formant => 4,
            FeatureKind::Spectral => 5,
            FeatureKind::JitterShimmerHnr => 6,
            FeatureKind::RmsEnergy => 2,
        }
    }

    /// The fixed number of value columns each channel contributes per row.
    pub fn arity(&self) -> (r: usize)
        ensures
            r == self.spec_arity(),
            r > 0,
    {
        match self {
            FeatureKind::Pitch => 1,
            FeatureKind::Formant => 4,
            FeatureKind::Spectral => 5,
            FeatureKind::JitterShimmerHnr => 6,
            FeatureKind::RmsEnergy => 2,
        }
    }

    /// The cell written into a channel's columns at a row where that channel
    /// has no entry.
    pub fn fill_cell(&self) -> (r: &'static str)
        ensures
            *self == FeatureKind::Pitch ==> r@ == "no data"@,
            *self != FeatureKind::Pitch ==> r@ == ""@,
    {
        match self {
            FeatureKind::Pitch => "no data",
            _ => "",
        }
    }

    /// The names of this feature's value columns, in output order; their
    /// number is the feature's arity.
    pub fn column_names(&self) -> (r: Vec<String>)
        ensures
            r@.len() == self.spec_arity(),
            *self == FeatureKind::Pitch ==> r.deep_view() == seq!["pitch_hz"@],
            *self == FeatureKind::Formant ==> r.deep_view() == seq![
                "f1_hz"@,
                "f2_hz"@,
                "f3_hz"@,
                "f4_hz"@,
            ],
            *self == FeatureKind::Spectral ==> r.deep_view() == seq![
                "spectral_centroid"@,
                "spectral_rolloff"@,
                "spectral_bandwidth"@,
                "spectral_flatness"@,
                "zero_crossing_rate"@,
            ],
            *self == FeatureKind::JitterShimmerHnr ==> r.deep_view() == seq![
                "f0_hz"@,
                "jitter_local_percent"@,
                "jitter_ppq5_percent"@,
                "shimmer_local_percent"@,
                "shimmer_apq5_percent"@,
                "hnr_db"@,
            ],
            *self == FeatureKind::RmsEnergy ==> r.deep_view() == seq!["rms"@, "energy"@],
    {
        let mut names: Vec<String> = Vec::new();
        match self {
            FeatureKind::Pitch => {
                let c: &str = "pitch_hz";
                names.push(c.to_owned());
                proof {
                    assert(names.deep_view() =~= seq!["pitch_hz"@]);
                }
            },
            FeatureKind::Formant => {
                let c1: &str = "f1_hz";
                let c2: &str = "f2_hz";
                let c3: &str = "f3_hz";
                let c4: &str = "f4_hz";
                names.push(c1.to_owned());
                names.push(c2.to_owned());
                names.push(c3.to_owned());
                names.push(c4.to_owned());
                proof {
                    assert(names.deep_view() =~= seq!["f1_hz"@, "f2_hz"@, "f3_hz"@, "f4_hz"@]);
                }
            },
            FeatureKind::Spectral => {
                let c1: &str = "spectral_centroid";
                let c2: &str = "spectral_rolloff";
                let c3: &str = "spectral_bandwidth";
                let c4: &str = "spectral_flatness";
                let c5: &str = "zero_crossing_rate";
                names.push(c1.to_owned());
                names.push(c2.to_owned());
                names.push(c3.to_owned());
                names.push(c4.to_owned());
                names.push(c5.to_owned());
                proof {
                    assert(names.deep_view() =~= seq![
                        "spectral_centroid"@,
                        "spectral_rolloff"@,
                        "spectral_bandwidth"@,
                        "spectral_flatness"@,
                        "zero_crossing_rate"@,
                    ]);
                }
            },
            FeatureKind::JitterShimmerHnr => {
                let c1: &str = "f0_hz";
                let c2: &str = "jitter_local_percent";
                let c3: &str = "jitter_ppq5_percent";
                let c4: &str = "shimmer_local_percent";
                let c5: &str = "shimmer_apq5_percent";
                let c6: &str = "hnr_db";
                names.push(c1.to_owned());
                names.push(c2.to_owned());
                names.push(c3.to_owned());
                names.push(c4.to_owned());
                names.push(c5.to_owned());
                names.push(c6.to_owned());
                proof {
                    assert(names.deep_view() =~= seq![
                        "f0_hz"@,
                        "jitter_local_percent"@,
                        "jitter_ppq5_percent"@,
                        "shimmer_local_percent"@,
                        "shimmer_apq5_percent"@,
                        "hnr_db"@,
                    ]);
                }
            },
            FeatureKind::RmsEnergy => {
                let c1: &str = "rms";
                let c2: &str = "energy";
                names.push(c1.to_owned());
                names.push(c2.to_owned());
                proof {
                    assert(names.deep_view() =~= seq!["rms"@, "energy"@]);
                }
            },
        }
        names
    }
}

} // verus!
