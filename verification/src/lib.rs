//! A command-line benchmarking library: parsing of a raw command string
//! (honoring double-quoted arguments), resolution of run configuration
//! from flag tokens, aggregation of per-run wall-clock durations with
//! attribution of the extremes, and formatting of the report lines.

pub mod config;
pub mod parser;
pub mod report;
pub mod stats;
