//! The `apply_change` tool: text edits, symbol diffs and the context
//! bundled into the response.

pub mod diff;
pub mod apply;
pub mod context;
pub mod request;

pub use apply::{apply_change, apply_delete};
pub use request::{ApplyChangeRequest, ApplyChangeResponse, ApplyStatus, BundledContext, Change};
