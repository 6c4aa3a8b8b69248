//! Tool and resource handlers of the MCP server.

pub mod apply_change;
pub mod run_tests;
pub mod status;
