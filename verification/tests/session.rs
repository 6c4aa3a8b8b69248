use blastguard::graph::types::{CodeGraph, Symbol, SymbolId, SymbolKind, Visibility};
use blastguard::mcp::status::render;
use blastguard::parse::symbols::render_signature;
use blastguard::parse::{detect_language, Language};
use blastguard::runner::attribute::annotate_failures;
use blastguard::runner::request::{RunTestsRequest, RunTestsResponse, default_timeout_seconds};
use blastguard::runner::{TestFailure, TestResults};
use blastguard::session::SessionState;

fn id(name: &str) -> SymbolId {
    SymbolId { file: "a.ts".to_string(), name: name.to_string(), kind: SymbolKind::Function }
}

fn sym(name: &str, file: &str, line_start: u32, line_end: u32) -> Symbol {
    Symbol {
        id: SymbolId { file: file.to_string(), name: name.to_string(), kind: SymbolKind::Function },
        line_start,
        line_end,
        signature: format!("fn {name}()"),
        params: vec![],
        return_type: None,
        visibility: Visibility::Export,
        body_hash: 0,
        is_async: false,
        embedding_id: None,
    }
}

#[test]
fn records_edits_in_order() {
    let mut s = SessionState::new();
    s.record_symbol_edit(id("a"));
    s.record_symbol_edit(id("b"));
    s.record_symbol_edit(id("a"));
    assert_eq!(s.modified_symbols().len(), 3);
}

#[test]
fn edits_ago_returns_zero_for_latest() {
    let mut s = SessionState::new();
    s.record_symbol_edit(id("a"));
    s.record_symbol_edit(id("b"));
    assert_eq!(s.edits_ago(&id("b")), Some(0));
}

#[test]
fn edits_ago_counts_later_edits_and_misses_unedited() {
    let mut s = SessionState::new();
    s.record_symbol_edit(id("a"));
    s.record_symbol_edit(id("b"));
    s.record_symbol_edit(id("c"));
    assert_eq!(s.edits_ago(&id("a")), Some(2));
    assert_eq!(s.edits_ago(&id("z")), None);
    assert!(s.elapsed_ms().is_some());
    assert!(SessionState::default().elapsed_ms().is_none());
}

#[test]
fn render_reports_counts_and_languages() {
    let mut g = CodeGraph::new();
    g.insert_symbol(sym("foo", "src/a.ts", 1, 2));
    g.insert_symbol(sym("bar", "src/b.rs", 1, 2));
    let session = SessionState::new();
    let out = render(&g, &session, "/proj");
    assert!(out.contains("symbols: 2"), "got: {out}");
    assert!(out.contains("ts"), "expected ts in languages; got: {out}");
    assert!(out.contains("rs"), "expected rs in languages; got: {out}");
    assert!(out.contains("session edits: 0"), "got: {out}");
    assert!(out.contains("no test run yet"), "got: {out}");
}

#[test]
fn render_shows_session_edits() {
    let g = CodeGraph::new();
    let mut s = SessionState::new();
    s.record_symbol_edit(SymbolId { file: "src/a.ts".to_string(), name: "doThing".to_string(), kind: SymbolKind::Function });
    s.record_symbol_edit(SymbolId { file: "src/b.rs".to_string(), name: "handle".to_string(), kind: SymbolKind::Function });
    let out = render(&g, &s, "/proj");
    assert!(out.contains("session edits: 2"), "got: {out}");
}

#[test]
fn render_exact_block() {
    let mut g = CodeGraph::new();
    g.insert_symbol(sym("foo", "src/a.ts", 1, 2));
    g.insert_symbol(sym("bar", "src/b.rs", 1, 2));
    g.insert_symbol(sym("baz", "src/c.ts", 1, 2));
    let mut s = SessionState::new();
    s.record_test_results(TestResults { passed: 3, failed: 1, skipped: 2, duration_ms: 40, failures: vec![] });
    assert_eq!(
        render(&g, &s, "/proj"),
        "BlastGuard status\nproject: /proj\nsymbols: 3  edges: 0\nlanguages: rs, ts\nsession edits: 0\nlast test run: 3 passed, 1 failed, 2 skipped (40 ms)\n"
    );
    let empty = render(&CodeGraph::new(), &SessionState::new(), "/p");
    assert!(empty.contains("languages: (none — index empty)"));
}

#[test]
fn detect_language_by_extension() {
    assert_eq!(detect_language("a.ts"), Some(Language::TypeScript));
    assert_eq!(detect_language("a.tsx"), Some(Language::TypeScript));
    assert_eq!(detect_language("a.py"), Some(Language::Python));
    assert_eq!(detect_language("a.rs"), Some(Language::Rust));
    assert_eq!(detect_language("a.md"), None);
    assert_eq!(detect_language("Makefile"), None);
}

#[test]
fn detect_language_edge_cases() {
    assert_eq!(detect_language("src/x.mjs"), Some(Language::JavaScript));
    assert_eq!(detect_language(".rs"), None);
    assert_eq!(detect_language("dir.rs/"), Some(Language::Rust));
}

#[test]
fn render_with_return_type() {
    assert_eq!(render_signature("foo", "(x: number)", Some("string")), "foo(x: number): string");
}

#[test]
fn render_without_return_type() {
    assert_eq!(render_signature("bar", "()", None), "bar()");
    assert_eq!(render_signature("bar", "()", Some("")), "bar()");
}

#[test]
fn failure_pointing_at_modified_symbol_gets_annotation() {
    let mut g = CodeGraph::new();
    let s = sym("processRequest", "src/handler.ts", 5, 20);
    g.insert_symbol(s.clone());
    let mut session = SessionState::new();
    session.record_symbol_edit(s.id.clone());
    let failures = vec![TestFailure {
        test_name: "test_proc".to_string(),
        file: "tests/a.ts".to_string(),
        line: 10,
        message: "AssertionError".to_string(),
        stack: vec![("src/handler.ts".to_string(), 12)],
    }];
    let annotated = annotate_failures(&g, &session, failures);
    assert!(annotated[0].message.contains("YOU MODIFIED processRequest"), "got: {}", annotated[0].message);
    assert!(annotated[0].message.contains("0 edits ago"));
    assert_eq!(annotated[0].message, "AssertionError. YOU MODIFIED processRequest in src/handler.ts:5 (0 edits ago)");
}

#[test]
fn failure_not_matching_any_edit_is_unchanged() {
    let mut g = CodeGraph::new();
    g.insert_symbol(sym("lonely", "src/l.ts", 1, 5));
    let session = SessionState::new();
    let failures = vec![TestFailure {
        test_name: "t".to_string(),
        file: "tests/b.ts".to_string(),
        line: 1,
        message: "Error".to_string(),
        stack: vec![],
    }];
    let annotated = annotate_failures(&g, &session, failures);
    assert_eq!(annotated[0].message, "Error");
}

#[test]
fn annotation_includes_edits_ago_count() {
    let mut g = CodeGraph::new();
    let a = sym("a", "src/a.ts", 1, 10);
    let b = sym("b", "src/b.ts", 1, 10);
    g.insert_symbol(a.clone());
    g.insert_symbol(b.clone());
    let mut session = SessionState::new();
    session.record_symbol_edit(a.id.clone());
    session.record_symbol_edit(b.id.clone());
    let failures = vec![TestFailure {
        test_name: "t".to_string(),
        file: "tests/x.ts".to_string(),
        line: 1,
        message: "E".to_string(),
        stack: vec![("src/a.ts".to_string(), 5)],
    }];
    let annotated = annotate_failures(&g, &session, failures);
    assert!(annotated[0].message.contains("1 edits ago"), "got: {}", annotated[0].message);
}

#[test]
fn response_from_results_renders_fail_lines() {
    let results = TestResults {
        passed: 10,
        failed: 1,
        skipped: 0,
        duration_ms: 250,
        failures: vec![TestFailure {
            test_name: "test_foo".to_string(),
            file: "tests/a.rs".to_string(),
            line: 42,
            message: "assertion failed".to_string(),
            stack: vec![],
        }],
    };
    let resp = RunTestsResponse::from(results);
    assert_eq!(resp.passed, 10);
    assert_eq!(resp.failures.len(), 1);
    assert!(resp.failures[0].starts_with("FAIL tests/a.rs:42"));
    assert_eq!(resp.failures[0], "FAIL tests/a.rs:42 test_foo — assertion failed");
}

#[test]
fn request_defaults() {
    let req = RunTestsRequest::default();
    assert!(req.filter.is_none());
    assert_eq!(default_timeout_seconds(), 60);
}
