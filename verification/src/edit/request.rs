//! Request and response records of the `apply_change` tool.

use vstd::prelude::*;

use crate::graph::impact::Warning;

verus! {

/// One text replacement: `old_text` must occur exactly once in the file.
#[derive(Debug, Clone)]
pub struct Change {
    /// The exact text to find in the file.
    pub old_text: String,
    /// The replacement text.
    pub new_text: String,
}

/// Input to the `apply_change` tool.
#[derive(Debug, Clone)]
pub struct ApplyChangeRequest {
    /// Path of the file to edit.
    pub file: String,
    /// Ordered replacements to apply to `file`.
    pub changes: Vec<Change>,
    /// Create the file (it must not exist yet).
    pub create_file: bool,
    /// Delete the file (it must exist).
    pub delete_file: bool,
}

/// Outcome category of an applied change.
#[derive(Debug, Clone, Copy, PartialEq, Eq, Structural)]
pub enum ApplyStatus {
    /// An in-place edit landed.
    Applied,
    /// A new file was created.
    Created,
    /// A file was deleted.
    Deleted,
    /// No material change (whitespace or comments only).
    NoOp,
}

/// Follow-up data bundled with the response.
#[derive(Debug, Clone)]
pub struct BundledContext {
    /// `"file:line — signature"` for callers of the changed symbols.
    pub callers: Vec<String>,
    /// Test files importing the edited file.
    pub tests: Vec<String>,
}

impl Default for BundledContext {
    /// No callers and no tests.
    fn default() -> (r: Self)
        ensures
            r.callers@.len() == 0,
            r.tests@.len() == 0,
    {
        BundledContext { callers: Vec::new(), tests: Vec::new() }
    }
}

/// Response of a successful `apply_change` call.
#[derive(Debug)]
pub struct ApplyChangeResponse {
    /// Outcome category.
    pub status: ApplyStatus,
    /// One-line summary of the change and its warnings.
    pub summary: String,
    /// Cascade warnings for the changed symbols.
    pub warnings: Vec<Warning>,
    /// Pre-fetched follow-up context.
    pub context: BundledContext,
    /// Per-change minimal unified diff; empty for created and deleted files.
    pub diff_snippet: String,
}

} // verus!
