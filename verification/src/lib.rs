//! A personal exercise tracker: it records repetitions of named exercise
//! categories in an append-only, human-readable log and produces weighted
//! per-day reports over arbitrary date ranges.
//!
//! This crate holds the verified core: the category registry with alias
//! resolution, the line-oriented activity and category file codecs, the
//! calendar arithmetic, the aggregation engine and the report renderers.
//! File and terminal I/O live outside, in the accompanying binary.

pub mod cli;
pub mod date;
pub mod error;
pub mod model;
pub mod report;
pub mod storage;
pub mod text;
