//! A macro-preprocessor for operator-based esoteric languages.
//!
//! The preprocessor scans a character stream, recognizes operators, numeric
//! repeat counts, bracket-delimited groups and single-character macros, and
//! re-emits an expanded operator stream, optionally wrapped to a fixed line
//! width.

pub mod config;
pub mod laws;
pub mod lex;
pub mod pre;
