//! Test runner results and their attribution to recent edits.

pub mod attribute;
pub mod detect;
pub mod execute;
pub mod json;
pub mod parse;
pub mod request;

use vstd::prelude::*;

use crate::graph::types::CodeGraph;
use crate::session::SessionState;

pub use request::{RunTestsRequest, RunTestsResponse};

verus! {

/// One failing test case extracted from runner output.
#[derive(Debug, Clone)]
pub struct TestFailure {
    pub test_name: String,
    pub file: String,
    pub line: u32,
    pub message: String,
    /// `(file, line)` pairs lifted from the stack trace, in call order.
    pub stack: Vec<(String, u32)>,
}

/// A failure as plain text: name, location, message and stack frames.
pub struct FailureView {
    pub test_name: Seq<char>,
    pub file: Seq<char>,
    pub line: u32,
    pub message: Seq<char>,
    pub stack: Seq<(Seq<char>, u32)>,
}

/// The frames of a stack as plain text.
pub open spec fn frames_view(stack: Seq<(String, u32)>) -> Seq<(Seq<char>, u32)> {
    stack.map_values(|p: (String, u32)| (p.0@, p.1))
}

impl View for TestFailure {
    type V = FailureView;

    open spec fn view(&self) -> FailureView {
        FailureView {
            test_name: self.test_name@,
            file: self.file@,
            line: self.line,
            message: self.message@,
            stack: frames_view(self.stack@),
        }
    }
}

/// Aggregate result of one test run.
#[derive(Debug, Clone)]
pub struct TestResults {
    pub passed: u32,
    pub failed: u32,
    pub skipped: u32,
    pub duration_ms: u64,
    pub failures: Vec<TestFailure>,
}

/// A run's counts and failures as plain values.
pub struct ResultsView {
    pub passed: u32,
    pub failed: u32,
    pub skipped: u32,
    pub duration_ms: u64,
    pub failures: Seq<FailureView>,
}

/// The failures of a run as plain values.
pub open spec fn failures_view(fs: Seq<TestFailure>) -> Seq<FailureView> {
    fs.map_values(|f: TestFailure| f@)
}

impl View for TestResults {
    type V = ResultsView;

    open spec fn view(&self) -> ResultsView {
        ResultsView {
            passed: self.passed,
            failed: self.failed,
            skipped: self.skipped,
            duration_ms: self.duration_ms,
            failures: failures_view(self.failures@),
        }
    }
}

/// The test runners the project knows.
#[derive(Debug, Clone, Copy, PartialEq, Eq, Structural)]
pub enum Runner {
    Jest,
    Vitest,
    Pytest,
    CargoTest,
}

/// What running the test command produced.
#[derive(Debug, Clone)]
pub struct ExecOutcome {
    /// The command's standard output.
    pub stdout: Vec<u8>,
    /// The command ran past its time budget and was stopped.
    pub timed_out: bool,
    /// Wall-clock time of the run, in milliseconds.
    pub elapsed_ms: u128,
}

/// Why a `run_tests` call produced no results.
#[derive(Debug, Clone)]
pub enum RunTestsError {
    /// No runner could be detected for the project.
    NoTestRunner,
    /// The runner exceeded its budget of `seconds`.
    TestTimeout { seconds: u64 },
    /// The runner could not be started or waited for.
    TestCrashed { stderr: String },
}

/// What the output of `runner` says, as its parser reads it.
pub open spec fn report_of(runner: Runner, stdout: Seq<u8>) -> ResultsView {
    match runner {
        Runner::Jest | Runner::Vitest => parse::jest_report(json::json_document(stdout)),
        Runner::Pytest => parse::pytest_report(json::json_document(stdout)),
        Runner::CargoTest => parse::cargo_report(parse::cargo_events(parse::output_text(stdout))),
    }
}

/// `n` as a `u64`, saturating.
pub open spec fn saturated_u64(n: u128) -> u64 {
    if n <= u64::MAX {
        n as u64
    } else {
        u64::MAX
    }
}

/// `rep` with its duration set to `elapsed_ms` and each failure message
/// attributed to the session's edits in `log`.
pub open spec fn attributed_report(
    graph: &CodeGraph,
    log: Seq<(Seq<char>, Seq<char>, crate::graph::types::SymbolKind)>,
    rep: ResultsView,
    elapsed_ms: u128,
) -> ResultsView {
    ResultsView {
        passed: rep.passed,
        failed: rep.failed,
        skipped: rep.skipped,
        duration_ms: saturated_u64(elapsed_ms),
        failures: rep.failures.map_values(
            |f: FailureView|
                FailureView {
                    test_name: f.test_name,
                    file: f.file,
                    line: f.line,
                    message: attribute::annotated_text(graph, log, f),
                    stack: f.stack,
                },
        ),
    }
}

/// Detect the project's runner and the command that runs it.
pub fn plan_run(signals: &detect::ProjectSignals, request: &RunTestsRequest) -> (r: Result<(Runner, execute::CommandLine), RunTestsError>)
    ensures
        match detect::detected(*signals) {
            None => r matches Err(RunTestsError::NoTestRunner),
            Some(run) => r matches Ok((run2, cmd)) && run2 == run && cmd.program@ == execute::program_of(run)
                && cmd.args@.map_values(|a: String| a@) == execute::base_args(run) + match request.filter {
                Some(f) => execute::filter_args(run, f@),
                None => Seq::empty(),
            },
        },
{
    let runner = match detect::autodetect(signals) {
        Some(r) => r,
        None => return Err(RunTestsError::NoTestRunner),
    };
    let filter: Option<&str> = match &request.filter {
        Some(f) => Some(f.as_str()),
        None => None,
    };
    Ok((runner, execute::build_command(runner, filter)))
}

/// A copy of `f`.
fn copy_failure(f: &TestFailure) -> (r: TestFailure)
    ensures
        r@ == f@,
{
    let mut stack: Vec<(String, u32)> = Vec::new();
    let mut i: usize = 0;
    while i < f.stack.len()
        invariant
            i <= f.stack@.len(),
            frames_view(stack@) == frames_view(f.stack@).take(i as int),
        decreases f.stack@.len() - i,
    {
        let ghost before = stack@;
        let name = f.stack[i].0.clone();
        let ghost fr = (name@, f.stack@[i as int].1);
        stack.push((name, f.stack[i].1));
        assert(frames_view(stack@) =~= frames_view(before).push(fr));
        assert(frames_view(f.stack@)[i as int] == fr);
        assert(frames_view(f.stack@).take(i + 1) =~= frames_view(f.stack@).take(i as int).push(fr));
        i = i + 1;
    }
    assert(frames_view(f.stack@).take(i as int) =~= frames_view(f.stack@));
    TestFailure {
        test_name: f.test_name.clone(),
        file: f.file.clone(),
        line: f.line,
        message: f.message.clone(),
        stack,
    }
}

/// A copy of `r`.
fn copy_results(r: &TestResults) -> (c: TestResults)
    ensures
        c@ == r@,
{
    let mut failures: Vec<TestFailure> = Vec::new();
    let mut i: usize = 0;
    while i < r.failures.len()
        invariant
            i <= r.failures@.len(),
            failures_view(failures@) == failures_view(r.failures@).take(i as int),
        decreases r.failures@.len() - i,
    {
        let ghost before = failures@;
        let c = copy_failure(&r.failures[i]);
        failures.push(c);
        assert(failures_view(failures@) =~= failures_view(before).push(c@));
        assert(failures_view(r.failures@)[i as int] == c@);
        assert(failures_view(r.failures@).take(i + 1) =~= failures_view(r.failures@).take(i as int).push(c@));
        i = i + 1;
    }
    assert(failures_view(r.failures@).take(i as int) =~= failures_view(r.failures@));
    TestResults { passed: r.passed, failed: r.failed, skipped: r.skipped, duration_ms: r.duration_ms, failures }
}

/// Running `runner` produced `exec`, and `run_tests` took session `old_s`
/// to `new_s` and answered `r`.
pub open spec fn tests_run(
    graph: &CodeGraph,
    old_s: SessionState,
    new_s: SessionState,
    runner: Runner,
    request: RunTestsRequest,
    exec: ExecOutcome,
    r: Result<RunTestsResponse, RunTestsError>,
) -> bool {
    &&& new_s.edit_log() == old_s.edit_log()
    &&& new_s.file_log() == old_s.file_log()
    &&& new_s.started() == old_s.started()
    &&& exec.timed_out ==> {
        &&& r matches Err(RunTestsError::TestTimeout { seconds }) && seconds == request.timeout_seconds
        &&& new_s.last_results() == old_s.last_results()
    }
    &&& !exec.timed_out ==> {
        let expected = attributed_report(graph, old_s.edit_log(), report_of(runner, exec.stdout@), exec.elapsed_ms);
        &&& new_s.last_results() matches Some(t) && t@ == expected
        &&& r matches Ok(resp) && {
            &&& resp.passed == expected.passed
            &&& resp.failed == expected.failed
            &&& resp.skipped == expected.skipped
            &&& resp.duration_ms == expected.duration_ms
            &&& resp.failures@.len() == expected.failures.len()
            &&& forall|i: int| 0 <= i < resp.failures@.len() ==> (#[trigger] resp.failures@[i])@ == request::fail_text(
                expected.failures[i],
            )
        }
    }
}

/// Finish a `run_tests` call once `runner` has run: a run that timed out is
/// an error; otherwise its output is parsed, its duration set to the
/// measured time, each failure attributed to the session's edits, and the
/// results recorded in the session and returned.
pub fn run_tests(
    graph: &CodeGraph,
    session: &mut SessionState,
    runner: Runner,
    request: &RunTestsRequest,
    exec: &ExecOutcome,
) -> (r: Result<RunTestsResponse, RunTestsError>)
    requires
        graph.wf(),
    ensures
        tests_run(graph, *old(session), *final(session), runner, *request, *exec, r),
{
    if exec.timed_out {
        return Err(RunTestsError::TestTimeout { seconds: request.timeout_seconds });
    }
    let parsed = parse::parse(runner, exec.stdout.as_slice());
    let duration_ms: u64 = if exec.elapsed_ms <= 18446744073709551615 {
        exec.elapsed_ms as u64
    } else {
        18446744073709551615
    };
    let TestResults { passed, failed, skipped, duration_ms: _, failures } = parsed;
    let ghost raw = failures@;
    let annotated = attribute::annotate_failures(graph, session, failures);
    let results = TestResults { passed, failed, skipped, duration_ms, failures: annotated };
    let ghost expected = attributed_report(graph, old(session).edit_log(), report_of(runner, exec.stdout@), exec.elapsed_ms);
    proof {
        assert forall|i: int| 0 <= i < results.failures@.len() implies (#[trigger] failures_view(results.failures@)[i]) == expected.failures[i] by {
            attribute::lemma_annotated_view(graph, old(session).edit_log(), raw[i]);
            assert(failures_view(raw)[i] == raw[i]@);
        }
        assert(failures_view(results.failures@) =~= expected.failures);
        assert(results@ == expected);
    }
    let kept = copy_results(&results);
    session.record_test_results(kept);
    let resp = RunTestsResponse::from(results);
    proof {
        assert forall|i: int| 0 <= i < resp.failures@.len() implies (#[trigger] resp.failures@[i])@ == request::fail_text(
            expected.failures[i],
        ) by {
            assert(failures_view(results.failures@)[i] == results.failures@[i]@);
        }
    }
    Ok(resp)
}

} // verus!
