//! Byte-level comparison of two finite sources.
//!
//! The engine walks two byte sequences in lockstep, optionally skipping a
//! common leading prefix, and reports either the first position where they
//! disagree or every such position, together with a verdict about the
//! sources' lengths and the process exit status that the outcome maps to.

pub mod config;
pub mod engine;
pub mod glyph;
pub mod outcome;
pub mod width;
