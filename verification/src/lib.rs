//! Building blocks for grid-based search problems: a dense two-dimensional
//! coordinate-addressed container with neighbor enumeration, and a max-priority
//! queue built on a binary heap, both with machine-checked contracts.

pub mod grid;
pub mod heap;
pub mod matrix;
pub mod parsing;
pub mod point;
pub mod priority;
pub mod queue;
