//! Decoders for the ARM CoreSight trace formats: the trace port formatter
//! frames and the instrumentation / watchpoint packet stream.

pub mod bittuple;
pub mod readpos;
pub mod itm;
pub mod tpiu;
pub mod parseriterator;
pub mod score;
