//! Code-graph retrieval, cascade analysis and test attribution core.

pub mod assoc;
pub mod config;
pub mod strings;
pub mod edit;
pub mod graph;
pub mod index;
pub mod sorting;
pub mod parse;
pub mod paths;
pub mod lexical;
pub mod mcp;
pub mod runner;
pub mod search;
pub mod session;
