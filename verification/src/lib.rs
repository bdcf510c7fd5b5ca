//! Core logic of a chunked file-copy tool with progress reporting.
//!
//! The crate holds the pure, verified parts: path normalization, copy
//! planning (mapping source entries to destination paths), chunked copy
//! semantics, and progress accounting. All filesystem and terminal work
//! is left to callers, which hand plain values in and take plain values
//! back.

pub mod chunk;
pub mod orchestrate;
pub mod path;
pub mod plan;
pub mod progress;
pub mod scan;
