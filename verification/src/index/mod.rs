//! Persistent index state.

pub mod cache;
pub mod indexer;
pub mod watcher;
