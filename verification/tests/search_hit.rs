use blastguard::graph::types::{CodeGraph, Symbol, SymbolId, SymbolKind, Visibility};
use blastguard::search::hit::{compact_signature, sort_by_centrality, SearchHit};

fn hit(file: &str, line: u32, signature: Option<&str>, snippet: Option<&str>, context: Option<&str>) -> SearchHit {
    SearchHit {
        file: file.to_string(),
        line,
        signature: signature.map(str::to_string),
        snippet: snippet.map(str::to_string),
        context: context.map(str::to_string),
    }
}

fn sym(name: &str) -> Symbol {
    Symbol {
        id: SymbolId { file: "x.ts".to_string(), name: name.to_string(), kind: SymbolKind::Function },
        line_start: 1,
        line_end: 2,
        signature: format!("fn {name}()"),
        params: vec![],
        return_type: None,
        visibility: Visibility::Export,
        body_hash: 0,
        is_async: false,
        embedding_id: None,
    }
}

#[test]
fn compact_line_uses_relative_path_when_under_project_root() {
    let h = hit(
        "/proj/root/src/graph/ops.rs",
        12,
        Some("callers(graph: &'g CodeGraph, target: &SymbolId): Vec<&'g SymbolId>"),
        None,
        None,
    );
    let line = h.to_compact_line("/proj/root");
    assert!(line.starts_with("src/graph/ops.rs:12"), "got: {line}");
    assert!(!line.contains("/proj/root"), "absolute path leaked: {line}");
    assert!(line.contains("callers"), "signature name should survive: {line}");
}

#[test]
fn compact_line_strips_lifetimes_and_trailing_generics() {
    let h = hit("/p/src/a.rs", 1, Some("fn foo<'a, T: Sized>(x: &'a T) -> Vec<&'a T>"), None, None);
    let line = h.to_compact_line("/p");
    assert!(!line.contains("'a"), "lifetime not stripped: {line}");
    assert!(!line.contains("T: Sized"), "generic bound not stripped: {line}");
    assert!(line.contains("foo"));
}

#[test]
fn compact_line_preserves_absolute_path_when_outside_project_root() {
    let h = hit("/other/abs/path.rs", 5, Some("fn bar()"), None, None);
    let line = h.to_compact_line("/proj/root");
    assert!(line.starts_with("/other/abs/path.rs:5"), "got: {line}");
}

#[test]
fn compact_line_falls_back_to_snippet_when_no_signature() {
    let h = hit("/p/a.rs", 2, None, Some("let NEEDLE = 1;"), None);
    let line = h.to_compact_line("/p");
    assert!(line.contains("NEEDLE"), "got: {line}");
}

#[test]
fn structural_hit_copies_signature() {
    let s = sym("foo");
    let h = SearchHit::structural(&s);
    assert_eq!(h.signature.as_deref(), Some("fn foo()"));
    assert!(h.snippet.is_none());
    assert_eq!(h.file, "x.ts");
    assert_eq!(h.line, 1);
}

#[test]
fn grep_hit_carries_snippet_only() {
    let h = SearchHit::grep("a.ts".to_string(), 5, "  const x = foo();".to_string());
    assert!(h.signature.is_none());
    assert_eq!(h.snippet.as_deref(), Some("  const x = foo();"));
}

#[test]
fn sort_by_centrality_orders_highest_first() {
    let mut g = CodeGraph::new();
    let low = sym("low");
    let high = sym("high");
    g.insert_symbol(low.clone());
    g.insert_symbol(high.clone());
    g.centrality.insert(low.id.clone(), 1);
    g.centrality.insert(high.id.clone(), 10);
    let mut ids = vec![&low.id, &high.id];
    sort_by_centrality(&g, &mut ids);
    assert_eq!(ids[0], &high.id);
    assert_eq!(ids[1], &low.id);
}

#[test]
fn sort_by_centrality_missing_entries_treated_as_zero() {
    let mut g = CodeGraph::new();
    let only_in_centrality = sym("a");
    let not_in_centrality = sym("b");
    g.insert_symbol(only_in_centrality.clone());
    g.insert_symbol(not_in_centrality.clone());
    g.centrality.insert(only_in_centrality.id.clone(), 5);
    let mut ids = vec![&not_in_centrality.id, &only_in_centrality.id];
    sort_by_centrality(&g, &mut ids);
    assert_eq!(ids[0], &only_in_centrality.id);
}

#[test]
fn to_compact_line_with_context_adds_pipe_prefix() {
    let h = hit("/tmp/foo.rs", 42, Some("fn caller()"), None, Some("let x = target(1, 2);"));
    let out = h.to_compact_line("/tmp");
    assert!(out.contains("foo.rs:42 caller()"), "got: {out}");
    assert!(out.contains("  | let x = target(1, 2);"), "got: {out}");
}

#[test]
fn to_compact_line_with_multi_line_context() {
    let h = hit("/tmp/foo.rs", 10, Some("fn caller()"), None, Some("let x = foo(\n    1,\n    2,\n);"));
    let out = h.to_compact_line("/tmp");
    let context_lines: Vec<_> = out.lines().filter(|l| l.starts_with("  | ")).collect();
    assert_eq!(context_lines.len(), 4, "got: {out}");
}

#[test]
fn to_compact_line_without_context_unchanged() {
    let h = hit("/tmp/foo.rs", 7, Some("fn caller()"), None, None);
    let out = h.to_compact_line("/tmp");
    assert!(!out.contains("  | "), "no-context hit must not have pipe prefix, got: {out}");
}

#[test]
fn compact_signature_exact_forms() {
    assert_eq!(compact_signature("fn foo<'a, T: Sized>(x: &'a T) -> Vec<&'a T>"), "foo<T>(x: & T) -> Vec<& T>");
    assert_eq!(compact_signature("processRequest(req: Request): Promise<Response>"), "processRequest(req: Request) -> Promise<Response>");
    assert_eq!(compact_signature("fn bar()"), "bar()");
}

#[test]
fn compact_line_exact_rendering() {
    let h = hit("/p/src/a.rs", 3, Some("fn a(x: i32): u8"), None, Some("l1\nl2"));
    assert_eq!(h.to_compact_line("/p"), "src/a.rs:3 a(x: i32) -> u8\n  | l1\n  | l2");
    let hint = SearchHit::empty_hint("count 'x'");
    assert_eq!(hint.to_compact_line("/p"), ":0 count 'x'");
    let bare = hit("/q/b.rs", 9, None, None, None);
    assert_eq!(bare.to_compact_line("/p"), "/q/b.rs:9");
}

#[test]
fn hint_detection_and_return_type_drop() {
    assert!(SearchHit::empty_hint("m").is_hint());
    assert!(!SearchHit::grep(String::new(), 0, "s".to_string()).is_hint());
    let h = hit("a.rs", 1, Some("fn f(g: fn(u8) -> u8) -> Result<(), E>"), None, None).without_return_type();
    assert_eq!(h.signature.as_deref(), Some("fn f(g: fn(u8) -> u8)"));
    let ts = hit("a.ts", 1, Some("foo(x: number): string"), None, None).without_return_type();
    assert_eq!(ts.signature.as_deref(), Some("foo(x: number)"));
}
