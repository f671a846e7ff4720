//! A verified core for a file-combining pipeline.
//!
//! The pipeline enumerates files under a set of root directories, filters
//! them by a regular expression, optionally lets a user pick a subset, and
//! concatenates the chosen files' contents into one text artifact, each
//! file preceded by a marker line naming its path.
//!
//! This crate holds the pipeline's logic over plain values: parsing the
//! directory option, filtering and selecting path lists, deciding how a run
//! ends, and producing the combined artifact. The filesystem walk, the
//! interactive prompt and all file I/O live outside, and hand this library
//! strings and lists of strings.

pub mod combine;
pub mod dirs;
pub mod pattern;
pub mod pipeline;
pub mod subseq;
