//! Batch conversion of an image tree: bounded-depth collection of files,
//! output path mirroring, the per-file fallback decision and the run-wide
//! reduction of per-file results.
pub mod stats;
pub mod tree;
pub mod paths;
pub mod encoder;
pub mod engine;
pub mod format;
pub mod logging;
