//! Scans text for terminal escape sequences and decides what to do with them.
//!
//! [`scan`] walks a string and classifies every escape sequence it finds.
//! With [`Policy::strict`] (the default), only plain SGR sequences (colors
//! and text attributes, e.g. `\x1b[1;31m`) are let through; everything else
//! is reported as a [`Violation`] and dropped from the sanitized output.
//! With [`Policy::lenient`], any well-formed sequence is passed through -
//! but sequences that are simply broken (an escape with no valid body, or a
//! string sequence with no terminator) are always dropped, in both modes.
pub mod grammar;
pub mod laws;
pub mod model;
pub mod report;
pub mod scanner;
pub mod text;

pub use model::{Policy, ScanResult, SequenceKind, Violation};
pub use scanner::scan;
