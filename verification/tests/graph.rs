use blastguard::graph::ops::{callees, callers, find_by_name, shortest_path};
use blastguard::graph::types::{
    CodeGraph, Confidence, Edge, EdgeKind, Symbol, SymbolId, SymbolKind, Visibility,
};

fn sym(name: &str, file: &str) -> Symbol {
    Symbol {
        id: SymbolId { file: file.to_string(), name: name.to_string(), kind: SymbolKind::Function },
        line_start: 1,
        line_end: 3,
        signature: format!("fn {name}()"),
        params: vec![],
        return_type: None,
        visibility: Visibility::Export,
        body_hash: 0,
        is_async: false,
        embedding_id: None,
    }
}

fn edge(from: &Symbol, to: &Symbol) -> Edge {
    Edge { from: from.id.clone(), to: to.id.clone(), kind: EdgeKind::Calls, line: 2, confidence: Confidence::Certain }
}

#[test]
fn insert_symbol_indexes_by_file() {
    let mut g = CodeGraph::new();
    let a = sym("a", "x.ts");
    g.insert_symbol(a.clone());
    assert_eq!(g.file_symbols.get(&a.id.file).map(Vec::len), Some(1));
    assert!(g.symbols.contains_key(&a.id));
}

#[test]
fn insert_edge_updates_both_sides() {
    let mut g = CodeGraph::new();
    let a = sym("a", "x.ts");
    let b = sym("b", "x.ts");
    g.insert_symbol(a.clone());
    g.insert_symbol(b.clone());
    g.insert_edge(edge(&a, &b));
    assert_eq!(g.forward_edges.get(&a.id).map(Vec::len), Some(1));
    assert_eq!(g.reverse_edges.get(&b.id).map(Vec::len), Some(1));
    assert_eq!(g.centrality.get(&b.id).copied(), Some(1));
}

#[test]
fn remove_file_preserves_caller_forward_edges_when_callee_removed() {
    let mut g = CodeGraph::new();
    let src = sym("a", "x.ts");
    let dst = sym("b", "y.ts");
    g.insert_symbol(src.clone());
    g.insert_symbol(dst.clone());
    g.insert_edge(edge(&src, &dst));

    g.remove_file(&"y.ts".to_string());

    assert!(!g.symbols.contains_key(&dst.id));
    assert!(!g.reverse_edges.contains_key(&dst.id));
    let src_fwd = g.forward_edges.get(&src.id).expect("caller forward edges");
    assert_eq!(src_fwd.len(), 1, "caller's forward edge to deleted callee must be kept");
    assert_eq!(src_fwd[0].to, dst.id);
}

#[test]
fn remove_file_drops_symbols_and_edges() {
    let mut g = CodeGraph::new();
    let a = sym("a", "x.ts");
    let b = sym("b", "y.ts");
    g.insert_symbol(a.clone());
    g.insert_symbol(b.clone());
    g.insert_edge(edge(&a, &b));
    g.remove_file(&"x.ts".to_string());
    assert!(!g.symbols.contains_key(&a.id));
    assert!(g.symbols.contains_key(&b.id));
    assert!(!g.forward_edges.contains_key(&a.id));
    assert!(g.reverse_edges.get(&b.id).is_none_or(|v| v.iter().all(|e| e.from != a.id)));
}

#[test]
fn callers_returns_reverse_edges() {
    let mut g = CodeGraph::new();
    let a = sym("a", "x.ts");
    let b = sym("b", "x.ts");
    g.insert_symbol(a.clone());
    g.insert_symbol(b.clone());
    g.insert_edge(edge(&a, &b));
    assert_eq!(callers(&g, &b.id), vec![&a.id]);
    assert!(callers(&g, &a.id).is_empty());
}

#[test]
fn shortest_path_walks_forward_edges() {
    let mut g = CodeGraph::new();
    let a = sym("a", "x.ts");
    let b = sym("b", "x.ts");
    let c = sym("c", "x.ts");
    g.insert_symbol(a.clone());
    g.insert_symbol(b.clone());
    g.insert_symbol(c.clone());
    g.insert_edge(edge(&a, &b));
    g.insert_edge(edge(&b, &c));
    let path = shortest_path(&g, &a.id, &c.id).expect("reachable");
    assert_eq!(path.len(), 3);
    assert_eq!(path[0], a.id);
    assert_eq!(path[2], c.id);
}

#[test]
fn shortest_path_none_when_unreachable() {
    let mut g = CodeGraph::new();
    let a = sym("a", "x.ts");
    let b = sym("b", "x.ts");
    g.insert_symbol(a.clone());
    g.insert_symbol(b.clone());
    assert!(shortest_path(&g, &a.id, &b.id).is_none());
}

#[test]
fn find_by_name_exact_beats_fuzzy() {
    let mut g = CodeGraph::new();
    let exact = sym("process", "a.ts");
    let near = sym("proces", "b.ts");
    g.insert_symbol(exact.clone());
    g.insert_symbol(near.clone());
    let hits = find_by_name(&g, "process");
    assert_eq!(hits, vec![&exact.id]);
}

#[test]
fn find_by_name_fuzzy_when_no_exact() {
    let mut g = CodeGraph::new();
    let near = sym("proces", "b.ts");
    g.insert_symbol(near.clone());
    let hits = find_by_name(&g, "process");
    assert_eq!(hits, vec![&near.id]);
}

#[test]
fn find_by_name_orders_fuzzy_by_distance_then_centrality() {
    let mut g = CodeGraph::new();
    let two = sym("prcss", "a.ts");
    let one = sym("proces", "b.ts");
    let far = sym("unrelated", "c.ts");
    g.insert_symbol(two.clone());
    g.insert_symbol(one.clone());
    g.insert_symbol(far.clone());
    let hits = find_by_name(&g, "process");
    assert_eq!(hits, vec![&one.id, &two.id]);
}

#[test]
fn shortest_path_to_self_is_single_node() {
    let mut g = CodeGraph::new();
    let a = sym("a", "x.ts");
    g.insert_symbol(a.clone());
    assert_eq!(shortest_path(&g, &a.id, &a.id), Some(vec![a.id.clone()]));
}

#[test]
fn insert_edge_twice_counts_centrality_twice() {
    let mut g = CodeGraph::new();
    let a = sym("a", "x.ts");
    let b = sym("b", "x.ts");
    g.insert_symbol(a.clone());
    g.insert_symbol(b.clone());
    g.insert_edge(edge(&a, &b));
    g.insert_edge(edge(&a, &b));
    assert_eq!(g.centrality.get(&b.id).copied(), Some(2));
    assert_eq!(g.forward_edges.get(&a.id).map(Vec::len), Some(2));
}

#[test]
fn shortest_path_prefers_the_shorter_of_two_routes() {
    let mut g = CodeGraph::new();
    let a = sym("a", "x.ts");
    let b = sym("b", "x.ts");
    let c = sym("c", "x.ts");
    let d = sym("d", "x.ts");
    for s in [&a, &b, &c, &d] {
        g.insert_symbol((*s).clone());
    }
    // a → b → c → d is listed first, a → d directly second.
    g.insert_edge(edge(&a, &b));
    g.insert_edge(edge(&b, &c));
    g.insert_edge(edge(&c, &d));
    g.insert_edge(edge(&a, &d));
    let path = shortest_path(&g, &a.id, &d.id).expect("reachable");
    assert_eq!(path, vec![a.id.clone(), d.id.clone()]);
}

#[test]
fn remove_file_drops_the_module_anchor_edges() {
    let mut g = CodeGraph::new();
    let a = sym("a", "src/a.rs");
    g.insert_symbol(a.clone());
    let anchor = SymbolId { file: "src/a.rs".to_string(), name: "a".to_string(), kind: SymbolKind::Module };
    let target = SymbolId { file: "crate::utils".to_string(), name: String::new(), kind: SymbolKind::Module };
    g.insert_edge(Edge { from: anchor.clone(), to: target.clone(), kind: EdgeKind::Imports, line: 1, confidence: Confidence::Unresolved });
    g.remove_file(&"src/a.rs".to_string());
    assert!(g.symbols.get(&a.id).is_none());
    assert!(g.forward_edges.get(&anchor).is_none());
    assert_eq!(g.reverse_edges.get(&target).map(Vec::len), Some(0));
    assert_eq!(g.centrality.get(&target).copied(), Some(0));
}

#[test]
fn callers_and_callees_mirror_each_other() {
    let mut g = CodeGraph::new();
    let a = sym("a", "x.ts");
    let b = sym("b", "y.ts");
    let c = sym("c", "y.ts");
    g.insert_symbol(a.clone());
    g.insert_symbol(b.clone());
    g.insert_edge(edge(&a, &b));
    g.insert_edge(edge(&a, &b));
    g.insert_edge(edge(&a, &c));
    g.insert_edge(edge(&c, &b));
    let out_a = callees(&g, &a.id);
    assert_eq!(out_a.iter().filter(|id| ***id == b.id).count(), 2);
    assert_eq!(callers(&g, &b.id).iter().filter(|id| ***id == a.id).count(), 2);
    assert_eq!(out_a.iter().filter(|id| ***id == c.id).count(), 1);
    assert_eq!(callers(&g, &c.id).iter().filter(|id| ***id == a.id).count(), 1);
    assert_eq!(callers(&g, &b.id).iter().filter(|id| ***id == c.id).count(), 1);
}

#[test]
fn restitch_reattaches_cross_file_callers() {
    let mut g = CodeGraph::new();
    let login = sym("login", "src/auth.py");
    let handle = sym("handle", "src/handler.py");
    g.insert_symbol(login.clone());
    g.insert_symbol(handle.clone());
    g.insert_edge(edge(&handle, &login));
    g.remove_file(&"src/auth.py".to_string());
    g.insert_symbol(login.clone());
    assert!(callers(&g, &login.id).is_empty());
    g.restitch_reverse_edges_for_file(&"src/auth.py".to_string());
    let found = callers(&g, &login.id);
    assert_eq!(found.len(), 1);
    assert_eq!(*found[0], handle.id);
}
