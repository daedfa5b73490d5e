//! Tails nginx access logs and aggregates request durations into
//! Prometheus histograms.
//!
//! The crate holds the engine only: the registry of watched files with
//! rotation detection, the framing of appended bytes into lines, the
//! derivation of label keys, the aggregation of samples, and the rendering
//! of the exposition text. Reading files, decoding a line's JSON and all
//! floating-point arithmetic are left to the caller, who hands the results
//! in as plain values.

pub mod histogram;
pub mod ingest;
pub mod lines;
pub mod metrics;
pub mod registry;
pub mod render;
pub mod sample;
pub mod scrape;
pub mod state;
pub mod status;
