//! A find-and-replace engine over byte buffers.
//!
//! A pattern (literal text or pattern language) is compiled once under a set
//! of single-letter flags; the resulting replacer applies a capped,
//! non-overlapping, left-to-right substitution pass over a buffer, renders a
//! highlighted preview of the same substitutions, and reports per-file
//! failures as one aggregate outcome.

pub mod driver;
pub mod engine;
pub mod flags;
pub mod model;
pub mod outcome;
pub mod pattern;
pub mod replacer;
