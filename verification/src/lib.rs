//! Chunked, parallel, multi-feature acoustic analysis engine.
//!
//! The library covers the structural core of a per-frame feature pipeline:
//! splitting an interleaved sample stream into channel buffers, planning
//! overlap-aware chunks and analysis frames over a channel, restoring the
//! temporal order of per-chunk results computed in parallel, and merging
//! per-channel result sequences into one positional output table.
//!
//! Numeric kernel evaluation (pitch, formant, spectral, perturbation
//! statistics) works on floating-point windows and lives with the caller;
//! this crate plans every window the kernels see and assembles everything
//! they return.

pub mod demux;
pub mod errors;
pub mod executor;
pub mod feature;
pub mod headers;
pub mod merge;
pub mod plan;
pub mod signal;

pub use errors::AudioError;
