//! The `run_tests` tool handler.

use vstd::prelude::*;

use crate::graph::types::CodeGraph;
use crate::runner::{run_tests, tests_run, ExecOutcome, RunTestsError, RunTestsRequest, RunTestsResponse, Runner};
use crate::session::SessionState;

verus! {

/// Answer a `run_tests` request: no detected runner and a runner that could
/// not be run are errors; otherwise the run's outcome is parsed, attributed
/// and recorded.
pub fn handle(
    graph: &CodeGraph,
    session: &mut SessionState,
    runner: Option<Runner>,
    request: &RunTestsRequest,
    exec: Result<ExecOutcome, String>,
) -> (r: Result<RunTestsResponse, RunTestsError>)
    requires
        graph.wf(),
    ensures
        runner is None ==> (r matches Err(RunTestsError::NoTestRunner)) && *final(session) == *old(session),
        runner is Some ==> match exec {
            Err(stderr) => (r matches Err(RunTestsError::TestCrashed { stderr: s }) && s == stderr) && *final(session) == *old(session),
            Ok(e) => tests_run(graph, *old(session), *final(session), runner.unwrap(), *request, e, r),
        },
{
    let runner = match runner {
        Some(r) => r,
        None => return Err(RunTestsError::NoTestRunner),
    };
    match exec {
        Err(stderr) => Err(RunTestsError::TestCrashed { stderr }),
        Ok(e) => run_tests(graph, session, runner, request, &e),
    }
}

} // verus!
