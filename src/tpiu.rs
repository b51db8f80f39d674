//! The trace port formatter layer: 16-byte frames that interleave the bytes
//! of several trace sources.

pub mod heuristics;
pub mod parser;
pub mod properties;
pub mod types;
