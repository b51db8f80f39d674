//! The instrumentation / data watchpoint packet layer.

pub mod heuristics;
pub mod parser;
pub mod properties;
pub mod types;
