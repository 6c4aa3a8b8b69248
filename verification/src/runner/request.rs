//! Request and response records of the `run_tests` tool.

use vstd::prelude::*;

use crate::runner::{FailureView, TestFailure, TestResults};
use crate::strings::{decimal, push_decimal, push_str};

verus! {

broadcast use vstd::string::group_string_axioms;

/// Input to the `run_tests` tool.
#[derive(Debug, Clone)]
pub struct RunTestsRequest {
    /// Optional test-name filter passed to the runner; `None` runs the whole suite.
    pub filter: Option<String>,
    /// Wall-clock budget for the runner, in seconds.
    pub timeout_seconds: u64,
}

/// The budget a request that names none gets: 60 seconds.
pub fn default_timeout_seconds() -> (r: u64)
    ensures
        r == 60,
{
    60
}

impl Default for RunTestsRequest {
    /// No filter and a zero budget.
    fn default() -> (r: Self)
        ensures
            r.filter is None,
            r.timeout_seconds == 0,
    {
        RunTestsRequest { filter: None, timeout_seconds: 0 }
    }
}

/// Response of a completed `run_tests` call.
#[derive(Debug, Clone)]
pub struct RunTestsResponse {
    pub passed: u32,
    pub failed: u32,
    pub skipped: u32,
    pub duration_ms: u64,
    pub failures: Vec<String>,
}

/// The line a failure is reported as: `FAIL file:line name — message`.
pub open spec fn fail_text(f: FailureView) -> Seq<char> {
    "FAIL "@ + f.file + seq![':'] + decimal(f.line as nat) + seq![' '] + f.test_name + " — "@ + f.message
}

/// The line failure `f` is reported as.
pub open spec fn fail_line(f: TestFailure) -> Seq<char> {
    fail_text(f@)
}

impl RunTestsResponse {
    /// The response for `r`: its counts, and one `FAIL` line per failure.
    pub fn from(r: TestResults) -> (resp: Self)
        ensures
            resp.passed == r.passed,
            resp.failed == r.failed,
            resp.skipped == r.skipped,
            resp.duration_ms == r.duration_ms,
            resp.failures@.len() == r.failures@.len(),
            forall|i: int| 0 <= i < r.failures@.len() ==> (#[trigger] resp.failures@[i])@ == fail_line(r.failures@[i]),
    {
        let mut lines: Vec<String> = Vec::new();
        let mut i: usize = 0;
        while i < r.failures.len()
            invariant
                i <= r.failures@.len(),
                lines@.len() == i,
                forall|k: int| 0 <= k < i ==> (#[trigger] lines@[k])@ == fail_line(r.failures@[k]),
            decreases r.failures@.len() - i,
        {
            let f = &r.failures[i];
            let mut s = String::new();
            push_str(&mut s, "FAIL ");
            push_str(&mut s, f.file.as_str());
            crate::strings::push_char(&mut s, ':');
            push_decimal(&mut s, f.line as u64);
            crate::strings::push_char(&mut s, ' ');
            push_str(&mut s, f.test_name.as_str());
            push_str(&mut s, " — ");
            push_str(&mut s, f.message.as_str());
            lines.push(s);
            i = i + 1;
        }
        RunTestsResponse {
            passed: r.passed,
            failed: r.failed,
            skipped: r.skipped,
            duration_ms: r.duration_ms,
            failures: lines,
        }
    }
}

} // verus!
