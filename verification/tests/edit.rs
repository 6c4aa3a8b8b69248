use blastguard::edit::context::build;
use blastguard::edit::diff::diff;
use blastguard::graph::types::{CodeGraph, Confidence, Edge, EdgeKind, Symbol, SymbolId, SymbolKind, Visibility};

fn sym(name: &str, sig: &str, body_hash: u64, is_async: bool) -> Symbol {
    Symbol {
        id: SymbolId { file: "x.ts".to_string(), name: name.to_string(), kind: SymbolKind::Function },
        line_start: 1,
        line_end: 5,
        signature: sig.to_string(),
        params: vec![],
        return_type: None,
        visibility: Visibility::Export,
        body_hash,
        is_async,
        embedding_id: None,
    }
}

fn located(name: &str, file: &str) -> Symbol {
    Symbol {
        id: SymbolId { file: file.to_string(), name: name.to_string(), kind: SymbolKind::Function },
        line_start: 10,
        line_end: 20,
        signature: format!("fn {name}(x: i32)"),
        params: vec![],
        return_type: None,
        visibility: Visibility::Export,
        body_hash: 0,
        is_async: false,
        embedding_id: None,
    }
}

#[test]
fn diff_detects_added() {
    let old = vec![sym("foo", "foo()", 0, false)];
    let new = vec![sym("foo", "foo()", 0, false), sym("bar", "bar()", 0, false)];
    let d = diff(&old, &new);
    assert_eq!(d.added.len(), 1);
    assert_eq!(d.added[0].id.name, "bar");
    assert!(d.removed.is_empty());
    assert!(d.modified_sig.is_empty());
    assert!(d.modified_body.is_empty());
}

#[test]
fn diff_detects_removed() {
    let old = vec![sym("foo", "foo()", 0, false), sym("bar", "bar()", 0, false)];
    let new = vec![sym("foo", "foo()", 0, false)];
    let d = diff(&old, &new);
    assert_eq!(d.removed.len(), 1);
    assert_eq!(d.removed[0].id.name, "bar");
    assert!(d.added.is_empty());
}

#[test]
fn diff_detects_modified_sig() {
    let old = vec![sym("foo", "foo()", 0, false)];
    let new = vec![sym("foo", "foo(x: i32)", 0, false)];
    let d = diff(&old, &new);
    assert_eq!(d.modified_sig.len(), 1);
    assert!(d.modified_body.is_empty());
    assert_eq!(d.modified_sig[0].0.signature, "foo()");
    assert_eq!(d.modified_sig[0].1.signature, "foo(x: i32)");
}

#[test]
fn diff_detects_modified_body_only() {
    let old = vec![sym("foo", "foo()", 1, false)];
    let new = vec![sym("foo", "foo()", 2, false)];
    let d = diff(&old, &new);
    assert!(d.modified_sig.is_empty());
    assert_eq!(d.modified_body.len(), 1);
}

#[test]
fn diff_detects_async_flip_as_modified_sig() {
    let old = vec![sym("foo", "foo()", 0, false)];
    let new = vec![sym("foo", "foo()", 0, true)];
    let d = diff(&old, &new);
    assert_eq!(d.modified_sig.len(), 1);
    assert!(d.modified_body.is_empty());
}

#[test]
fn diff_empty_when_nothing_changed() {
    let old = vec![sym("foo", "foo()", 1, false)];
    let new = vec![sym("foo", "foo()", 1, false)];
    let d = diff(&old, &new);
    assert!(d.is_empty());
}

#[test]
fn diff_params_and_return_type_are_signature() {
    let old = vec![sym("foo", "foo()", 0, false)];
    let mut changed = sym("foo", "foo()", 0, false);
    changed.params = vec!["x".to_string()];
    let d = diff(&old, &vec![changed]);
    assert_eq!(d.modified_sig.len(), 1);
    let mut ret = sym("foo", "foo()", 0, false);
    ret.return_type = Some("u8".to_string());
    let d = diff(&old, &vec![ret]);
    assert_eq!(d.modified_sig.len(), 1);
    assert!(!d.is_empty());
}

#[test]
fn build_returns_callers_and_skips_absent_tests() {
    let mut g = CodeGraph::new();
    let target = located("processRequest", "src/handler.ts");
    let caller = located("api", "src/api.ts");
    g.insert_symbol(target.clone());
    g.insert_symbol(caller.clone());
    g.insert_edge(Edge { from: caller.id.clone(), to: target.id.clone(), kind: EdgeKind::Calls, line: 5, confidence: Confidence::Certain });
    let ctx = build(&g, "src/handler.ts", &vec![target]);
    assert_eq!(ctx.callers.len(), 1);
    assert!(ctx.callers[0].contains("api.ts"));
    assert!(ctx.tests.is_empty());
}

#[test]
fn build_deduplicates_test_files() {
    let mut g = CodeGraph::new();
    let target_id = SymbolId { file: "src/handler.ts".to_string(), name: "handler".to_string(), kind: SymbolKind::Module };
    let test_id = SymbolId { file: "tests/handler.test.ts".to_string(), name: "t".to_string(), kind: SymbolKind::Module };
    for id in [&target_id, &test_id] {
        let mut s = located(&id.name, &id.file);
        s.id = id.clone();
        g.insert_symbol(s);
    }
    g.insert_edge(Edge { from: test_id.clone(), to: target_id.clone(), kind: EdgeKind::Imports, line: 1, confidence: Confidence::Certain });
    let target = located("handler", "src/handler.ts");
    let ctx = build(&g, "src/handler.ts", &vec![target]);
    assert_eq!(ctx.tests.len(), 1);
    assert!(ctx.tests[0].contains(".test."));
}

#[test]
fn build_caller_line_format_and_cap() {
    let mut g = CodeGraph::new();
    let target = located("t", "t.rs");
    g.insert_symbol(target.clone());
    for i in 0..12u32 {
        let c = located(&format!("c{i}"), "c.rs");
        g.insert_symbol(c.clone());
        g.insert_edge(Edge { from: c.id.clone(), to: target.id.clone(), kind: EdgeKind::Calls, line: i, confidence: Confidence::Certain });
    }
    let ctx = build(&g, "t.rs", &vec![target.clone(), target]);
    assert_eq!(ctx.callers.len(), 10);
    assert_eq!(ctx.callers[0], "c.rs:10 — fn c0(x: i32)");
}
