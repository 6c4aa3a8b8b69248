//! Code graph: symbols, edges, indices, and operations.

pub mod impact;
pub mod ops;
pub mod types;
