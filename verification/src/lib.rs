//! Core of a zero-shot multi-label text classification service.
//!
//! The pipeline turns an arbitrarily long input text and a candidate label set
//! into a deduplicated, thresholded label list: the input is whitespace-normalized,
//! segmented into chunks that respect the inference model's token budget, each
//! chunk is scored against every candidate label by an inference backend, and the
//! per-chunk scores are merged into one result set.

pub mod aggregate;
pub mod backend;
pub mod segment;
pub mod session;
pub mod text;
