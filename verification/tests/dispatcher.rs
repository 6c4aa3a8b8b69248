use blastguard::graph::types::{CodeGraph, Confidence, Edge, EdgeKind, Symbol, SymbolId, SymbolKind, Visibility};
use blastguard::search::dispatcher::{dispatch, resolve_query_path};

fn sym(name: &str) -> Symbol {
    sym_in(name, "a.ts")
}

fn sym_in(name: &str, file: &str) -> Symbol {
    Symbol {
        id: SymbolId { file: file.to_string(), name: name.to_string(), kind: SymbolKind::Function },
        line_start: 1,
        line_end: 2,
        signature: format!("fn {name}()"),
        params: vec![],
        return_type: None,
        visibility: Visibility::Export,
        body_hash: 0,
        is_async: false,
        embedding_id: None,
    }
}

#[test]
fn dispatches_find_query_to_structural_find() {
    let mut g = CodeGraph::new();
    g.insert_symbol(sym("processRequest"));
    let hits = dispatch(&g, ".", "find processRequest");
    assert_eq!(hits.len(), 1);
    assert_eq!(hits[0].signature.as_deref(), Some("fn processRequest()"));
}

#[test]
fn dispatches_callers_query() {
    let mut g = CodeGraph::new();
    let t = sym("target");
    let c = sym("caller");
    let t_id = t.id.clone();
    let c_id = c.id.clone();
    g.insert_symbol(t);
    g.insert_symbol(c);
    g.insert_edge(Edge { from: c_id, to: t_id, kind: EdgeKind::Calls, line: 1, confidence: Confidence::Certain });
    let hits = dispatch(&g, ".", "callers of target");
    assert_eq!(hits.len(), 1);
}

#[test]
fn outline_resolves_relative_path_against_project_root() {
    let mut g = CodeGraph::new();
    let mut s = sym_in("do_thing", "/proj/root/src/foo.rs");
    s.signature = "fn do_thing()".to_string();
    g.insert_symbol(s);
    let hits = dispatch(&g, "/proj/root", "outline of src/foo.rs");
    assert_eq!(hits.len(), 1, "relative path should resolve against project_root");
    assert_eq!(hits[0].signature.as_deref(), Some("fn do_thing()"));
}

#[test]
fn outline_accepts_absolute_path_unchanged() {
    let mut g = CodeGraph::new();
    g.insert_symbol(sym_in("other", "/proj/root/src/bar.rs"));
    let hits = dispatch(&g, "/proj/root", "outline of /proj/root/src/bar.rs");
    assert_eq!(hits.len(), 1);
}

#[test]
fn resolve_query_path_joins_relative_only() {
    assert_eq!(resolve_query_path("/r", "src/a.rs"), "/r/src/a.rs");
    assert_eq!(resolve_query_path("/r/", "src/a.rs"), "/r/src/a.rs");
    assert_eq!(resolve_query_path("/r", "/abs/a.rs"), "/abs/a.rs");
}

#[test]
fn grep_and_libraries_are_left_to_the_caller() {
    let g = CodeGraph::new();
    assert!(dispatch(&g, ".", "NEEDLE").is_empty());
    assert!(dispatch(&g, ".", "libraries").is_empty());
}
