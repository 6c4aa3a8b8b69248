//! The `apply_change` tool handler.

use vstd::prelude::*;

use crate::edit::apply::{apply_change, apply_delete, change_applied, file_deleted};
use crate::index::indexer::centrality_room;
use crate::edit::{ApplyChangeRequest, ApplyChangeResponse};
use crate::graph::types::CodeGraph;
use crate::parse::resolve::{opt_tc, FileSet, TsConfig};
use crate::parse::ParseOutput;
use crate::session::SessionState;

verus! {

/// What was done on disk for a request.
#[derive(Debug)]
pub enum DiskOutcome {
    /// The file was removed.
    Removed,
    /// The file was written; `parsed` is its new parse (`None` when its
    /// language has no parser) and `diff_snippet` the hunks of its changes.
    Written { parsed: Option<ParseOutput>, diff_snippet: String },
}

/// Answer an `apply_change` request once its file operation is done.
pub fn handle(
    graph: &mut CodeGraph,
    session: &mut SessionState,
    project_root: &str,
    request: &ApplyChangeRequest,
    outcome: DiskOutcome,
    tsconfig: Option<&TsConfig>,
    files: &FileSet,
) -> (r: ApplyChangeResponse)
    requires
        old(graph).wf(),
        outcome matches DiskOutcome::Written { parsed: Some(out), .. } ==> centrality_room(old(graph), out.edges@.len()),
    ensures
        match outcome {
            DiskOutcome::Removed => file_deleted(*old(graph), *final(graph), *old(session), *final(session), request.file@, r),
            DiskOutcome::Written { parsed, diff_snippet } => change_applied(
                *old(graph),
                *final(graph),
                *old(session),
                *final(session),
                project_root@,
                *request,
                parsed,
                diff_snippet@,
                opt_tc(tsconfig),
                *files,
                r,
            ),
        },
{
    match outcome {
        DiskOutcome::Removed => apply_delete(graph, session, &request.file),
        DiskOutcome::Written { parsed, diff_snippet } => apply_change(
            graph,
            session,
            project_root,
            request,
            parsed,
            diff_snippet,
            tsconfig,
            files,
        ),
    }
}

} // verus!
