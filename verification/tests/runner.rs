use blastguard::graph::types::CodeGraph;
use blastguard::runner::detect::{autodetect, ProjectSignals};
use blastguard::runner::execute::build_command;
use blastguard::runner::json::JsonValue;
use blastguard::runner::parse::{
    cargo_parse_panic_location, cast_u32, jest_results, parse, parse_cargo, parse_jest, parse_pytest, parse_stack,
    parse_u32_in, parse_vitest, split_pytest_nodeid,
};
use blastguard::runner::{plan_run, run_tests, ExecOutcome, RunTestsError, RunTestsRequest, Runner};
use blastguard::session::SessionState;

fn args_of(runner: Runner, filter: Option<&str>) -> Vec<String> {
    build_command(runner, filter).args
}

fn no_signals() -> ProjectSignals {
    ProjectSignals { package_json: None, has_pytest_ini: false, has_conftest: false, pyproject: None, has_cargo_toml: false }
}

const JEST_FAILING: &str = r#"{
  "numPassedTests": 2,
  "numFailedTests": 1,
  "numPendingTests": 1,
  "testResults": [
    {
      "name": "/tmp/handler.test.js",
      "assertionResults": [
        {"status": "passed", "fullName": "ok path"},
        {
          "status": "failed",
          "fullName": "failing path",
          "location": {"line": 42, "column": 5},
          "failureMessages": ["Error: expected 200 got 500\n    at Object.<anonymous> (/tmp/handler.js:17:9)\n    at run (/tmp/runner.js:3:1)"]
        }
      ]
    }
  ]
}"#;

#[test]
fn jest_passing_parses_counts() {
    let r = parse_jest(br#"{"numPassedTests": 3, "numFailedTests": 0, "numPendingTests": 0, "testResults": []}"#);
    assert_eq!(r.passed, 3);
    assert_eq!(r.failed, 0);
    assert_eq!(r.skipped, 0);
    assert!(r.failures.is_empty());
}

#[test]
fn jest_failing_extracts_failure_file_line() {
    let r = parse_jest(JEST_FAILING.as_bytes());
    assert_eq!(r.passed, 2);
    assert_eq!(r.failed, 1);
    assert_eq!(r.skipped, 1);
    assert_eq!(r.failures.len(), 1);
    let f = &r.failures[0];
    assert_eq!(f.test_name, "failing path");
    assert_eq!(f.file, "/tmp/handler.test.js");
    assert_eq!(f.line, 42);
    assert!(f.message.contains("expected 200"));
    assert_eq!(f.message, "Error: expected 200 got 500");
}

#[test]
fn jest_failure_stack_has_frames() {
    let r = parse_jest(JEST_FAILING.as_bytes());
    let f = &r.failures[0];
    assert!(!f.stack.is_empty(), "stack should have frames");
    assert!(f.stack.iter().any(|(p, _)| p.contains("handler.js")));
    assert_eq!(f.stack, vec![("/tmp/handler.js:17".to_string(), 9), ("/tmp/runner.js:3".to_string(), 1)]);
}

#[test]
fn jest_unparsable_output_reads_as_empty_report() {
    let r = parse_jest(b"this is not json");
    assert_eq!((r.passed, r.failed, r.skipped, r.duration_ms), (0, 0, 0, 0));
    assert!(r.failures.is_empty());
}

#[test]
fn vitest_reads_the_jest_shape() {
    let r = parse_vitest(JEST_FAILING.as_bytes());
    assert_eq!(r.failed, 1);
    assert_eq!(r.failures[0].test_name, "failing path");
}

#[test]
fn jest_counts_saturate_at_u32_max() {
    let r = parse_jest(br#"{"numPassedTests": 99999999999}"#);
    assert_eq!(r.passed, u32::MAX);
    assert_eq!(cast_u32(5), 5);
    assert_eq!(cast_u32(u64::MAX), u32::MAX);
}

#[test]
fn jest_results_on_a_built_document() {
    let doc = JsonValue::Object(vec![
        ("numFailedTests".to_string(), JsonValue::Number(blastguard::runner::json::JsonNumber { as_u64: Some(4), text: "4".to_string() })),
        ("numPassedTests".to_string(), JsonValue::Str("not a number".to_string())),
    ]);
    let r = jest_results(Some(&doc));
    assert_eq!(r.failed, 4);
    assert_eq!(r.passed, 0);
}

const PYTEST_REPORT: &str = r#"{
  "duration": 1.2345,
  "summary": {"passed": 5, "failed": 1, "skipped": 2},
  "tests": [
    {"nodeid": "tests/test_ok.py::test_fine", "outcome": "passed"},
    {
      "nodeid": "tests/test_handler.py::test_status",
      "outcome": "failed",
      "lineno": 12,
      "call": {
        "longrepr": "assert 500 == 200\nmore detail",
        "traceback": [
          {"path": "tests/test_handler.py", "lineno": 14},
          {"path": "src/handler.py"},
          {"path": "src/app.py", "lineno": 7}
        ]
      }
    }
  ]
}"#;

#[test]
fn pytest_report_counts_duration_and_failure() {
    let r = parse_pytest(PYTEST_REPORT.as_bytes());
    assert_eq!((r.passed, r.failed, r.skipped), (5, 1, 2));
    assert_eq!(r.duration_ms, 1234);
    assert_eq!(r.failures.len(), 1);
    let f = &r.failures[0];
    assert_eq!(f.file, "tests/test_handler.py");
    assert_eq!(f.test_name, "test_status");
    assert_eq!(f.line, 12);
    assert_eq!(f.message, "assert 500 == 200");
    assert_eq!(f.stack, vec![("tests/test_handler.py".to_string(), 14), ("src/app.py".to_string(), 7)]);
}

#[test]
fn pytest_duration_edge_forms() {
    assert_eq!(parse_pytest(br#"{"duration": 3}"#).duration_ms, 3000);
    assert_eq!(parse_pytest(br#"{"duration": 0.5}"#).duration_ms, 500);
    assert_eq!(parse_pytest(br#"{"duration": -2.0}"#).duration_ms, 0);
    assert_eq!(parse_pytest(br#"{"duration": "1.0"}"#).duration_ms, 0);
}

#[test]
fn pytest_nodeid_split() {
    assert_eq!(
        split_pytest_nodeid("tests/test_handler.py::test_foo"),
        ("tests/test_handler.py".to_string(), "test_foo".to_string())
    );
    assert_eq!(split_pytest_nodeid("a.py::Cls::test"), ("a.py".to_string(), "Cls::test".to_string()));
    assert_eq!(split_pytest_nodeid("bare_name"), (String::new(), "bare_name".to_string()));
}

#[test]
fn cargo_events_counted_and_failure_located() {
    let out = [
        "{ \"type\": \"suite\", \"event\": \"started\", \"test_count\": 3 }",
        "{ \"type\": \"test\", \"event\": \"ok\", \"name\": \"a\" }",
        "not json at all",
        "{ \"type\": \"test\", \"event\": \"ignored\", \"name\": \"b\" }",
        "{ \"type\": \"test\", \"event\": \"failed\", \"name\": \"tests::c\", \"stdout\": \"thread 'tests::c' panicked at 'boom', src/lib.rs:42:5\\nnote: run with RUST_BACKTRACE=1\" }",
        "{ \"type\": \"suite\", \"event\": \"failed\", \"passed\": 1, \"failed\": 1, \"exec_time\": 0.25 }",
    ]
    .join("\n");
    let r = parse_cargo(out.as_bytes());
    assert_eq!((r.passed, r.failed, r.skipped), (1, 1, 1));
    assert_eq!(r.duration_ms, 250);
    assert_eq!(r.failures.len(), 1);
    let f = &r.failures[0];
    assert_eq!(f.test_name, "tests::c");
    assert_eq!(f.file, "src/lib.rs");
    assert_eq!(f.line, 42);
    assert_eq!(f.message, "thread 'tests::c' panicked at 'boom', src/lib.rs:42:5");
    assert!(f.stack.is_empty());
}

#[test]
fn cargo_output_that_is_not_utf8_reads_as_empty() {
    let r = parse_cargo(&[0xff, 0xfe, b'\n']);
    assert_eq!((r.passed, r.failed, r.skipped, r.duration_ms), (0, 0, 0, 0));
}

#[test]
fn panic_location_forms() {
    assert_eq!(
        cargo_parse_panic_location("thread 'x' panicked at 'msg', src/foo.rs:42:5"),
        ("src/foo.rs".to_string(), 42)
    );
    assert_eq!(cargo_parse_panic_location("thread 'x' panicked at 'msg', src/foo.rs:7"), ("src/foo.rs".to_string(), 7));
    assert_eq!(cargo_parse_panic_location("no panic here, a.rs:1:1"), (String::new(), 0));
    assert_eq!(
        cargo_parse_panic_location("first line\nthread 'y' panicked at 'm',  c:/w/x.rs:3:1"),
        ("c:/w/x.rs".to_string(), 3)
    );
}

#[test]
fn stack_frames_from_parens_and_at_lines() {
    let raw = "Error: boom\n    at handler (/src/a.js:10:4)\n    at /src/b.js:20\n  noise line";
    assert_eq!(parse_stack(raw), vec![("/src/a.js:10".to_string(), 4), ("/src/b.js".to_string(), 20)]);
    assert!(parse_stack("").is_empty());
}

#[test]
fn u32_parsing_follows_str_parse() {
    let chars = |s: &str| s.chars().collect::<Vec<char>>();
    let p = |s: &str| {
        let cs = chars(s);
        parse_u32_in(&cs, 0, cs.len())
    };
    assert_eq!(p("42"), Some(42));
    assert_eq!(p("+7"), Some(7));
    assert_eq!(p("007"), Some(7));
    assert_eq!(p("4294967295"), Some(u32::MAX));
    assert_eq!(p("4294967296"), None);
    assert_eq!(p(""), None);
    assert_eq!(p("+"), None);
    assert_eq!(p("-1"), None);
    assert_eq!(p("1a"), None);
}

#[test]
fn parse_dispatches_by_runner() {
    let r = parse(Runner::Pytest, PYTEST_REPORT.as_bytes());
    assert_eq!(r.passed, 5);
    let r = parse(Runner::Jest, JEST_FAILING.as_bytes());
    assert_eq!(r.passed, 2);
    let r = parse(Runner::CargoTest, b"{\"type\":\"test\",\"event\":\"ok\"}");
    assert_eq!(r.passed, 1);
}

#[test]
fn jest_command_has_json_reporter() {
    let args = args_of(Runner::Jest, None);
    assert!(args.iter().any(|a| a == "--json"));
    assert_eq!(build_command(Runner::Jest, None).program, "npx");
}

#[test]
fn vitest_command_uses_run_and_reporter() {
    let args = args_of(Runner::Vitest, None);
    assert!(args.contains(&"run".to_string()));
    assert!(args.iter().any(|a| a == "--reporter=json"));
}

#[test]
fn pytest_command_json_report() {
    let args = args_of(Runner::Pytest, None);
    assert!(args.contains(&"--json-report".to_string()));
    assert_eq!(build_command(Runner::Pytest, None).program, "python");
}

#[test]
fn cargo_command_uses_json_format() {
    let args = args_of(Runner::CargoTest, None);
    assert!(args.contains(&"--format".to_string()));
    assert!(args.contains(&"json".to_string()));
    assert_eq!(args, vec!["test", "--no-fail-fast", "--", "-Z", "unstable-options", "--format", "json"]);
}

#[test]
fn filter_appended_for_jest_as_dash_t() {
    let args = args_of(Runner::Jest, Some("auth"));
    let t_idx = args.iter().position(|a| a == "-t").expect("missing -t");
    assert_eq!(args[t_idx + 1], "auth");
}

#[test]
fn filter_appended_for_pytest_as_dash_k() {
    let args = args_of(Runner::Pytest, Some("auth"));
    let k_idx = args.iter().position(|a| a == "-k").expect("missing -k");
    assert_eq!(args[k_idx + 1], "auth");
}

#[test]
fn filter_appended_bare_for_cargo() {
    let args = args_of(Runner::CargoTest, Some("auth"));
    assert_eq!(args.last().map(String::as_str), Some("auth"));
}

#[test]
fn detects_cargo() {
    let s = ProjectSignals { has_cargo_toml: true, ..no_signals() };
    assert_eq!(autodetect(&s), Some(Runner::CargoTest));
}

#[test]
fn detects_vitest_before_jest() {
    let s = ProjectSignals {
        package_json: Some("{\"devDependencies\":{\"jest\":\"1\",\"vitest\":\"1\"}}".to_string()),
        ..no_signals()
    };
    assert_eq!(autodetect(&s), Some(Runner::Vitest));
}

#[test]
fn detects_pytest_from_pyproject_table() {
    let s = ProjectSignals { pyproject: Some("[tool.pytest.ini_options]\n".to_string()), has_cargo_toml: true, ..no_signals() };
    assert_eq!(autodetect(&s), Some(Runner::Pytest));
    let s = ProjectSignals { package_json: Some("{}".to_string()), has_conftest: true, ..no_signals() };
    assert_eq!(autodetect(&s), Some(Runner::Pytest));
}

#[test]
fn none_when_no_signals() {
    assert_eq!(autodetect(&no_signals()), None);
}

#[test]
fn no_test_runner_error_when_project_has_none() {
    let req = RunTestsRequest::default();
    let err = plan_run(&no_signals(), &req).expect_err("should error");
    assert!(matches!(err, RunTestsError::NoTestRunner), "got {err:?}");
}

#[test]
fn run_tests_times_out_without_recording() {
    let graph = CodeGraph::new();
    let mut session = SessionState::new();
    let req = RunTestsRequest { filter: None, timeout_seconds: 30 };
    let exec = ExecOutcome { stdout: Vec::new(), timed_out: true, elapsed_ms: 30_000 };
    let err = run_tests(&graph, &mut session, Runner::Jest, &req, &exec).expect_err("timeout");
    assert!(matches!(err, RunTestsError::TestTimeout { seconds: 30 }), "got {err:?}");
    assert!(session.last_test_results().is_none());
}

#[test]
fn run_tests_parses_records_and_renders() {
    let graph = CodeGraph::new();
    let mut session = SessionState::new();
    let req = RunTestsRequest { filter: None, timeout_seconds: 60 };
    let exec = ExecOutcome { stdout: JEST_FAILING.as_bytes().to_vec(), timed_out: false, elapsed_ms: 1500 };
    let resp = run_tests(&graph, &mut session, Runner::Jest, &req, &exec).expect("ok");
    assert_eq!((resp.passed, resp.failed, resp.skipped, resp.duration_ms), (2, 1, 1, 1500));
    assert_eq!(resp.failures, vec!["FAIL /tmp/handler.test.js:42 failing path — Error: expected 200 got 500".to_string()]);
    let recorded = session.last_test_results().expect("recorded");
    assert_eq!(recorded.duration_ms, 1500);
    assert_eq!(recorded.failures.len(), 1);
}

#[test]
fn plan_run_builds_the_command() {
    let s = ProjectSignals { has_cargo_toml: true, ..no_signals() };
    let req = RunTestsRequest { filter: Some("auth".to_string()), timeout_seconds: 60 };
    let (runner, cmd) = plan_run(&s, &req).expect("planned");
    assert_eq!(runner, Runner::CargoTest);
    assert_eq!(cmd.program, "cargo");
    assert_eq!(cmd.args.last().map(String::as_str), Some("auth"));
}
