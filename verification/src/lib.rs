//! Verified core of two line-oriented text utilities: a stream metrics
//! accumulator that counts lines, words, bytes and characters, and an
//! adjacent-duplicate line collapser, together with the formatting and
//! batch-aggregation logic that drives them over several inputs.
//!
//! All functions work on plain values: a line source is handed over as a
//! vector of raw lines, each keeping its original terminator bytes, so
//! the counting and collapsing rules can be stated and proved exactly.

pub mod batch;
pub mod collapse;
pub mod format;
pub mod lines;
pub mod metrics;
pub mod text;
