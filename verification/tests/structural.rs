use blastguard::graph::types::{
    CodeGraph, Confidence, Edge, EdgeKind, LibraryImport, Symbol, SymbolId, SymbolKind, Visibility,
};
use blastguard::search::hit::SearchHit;
use blastguard::search::structural::{
    callees_of, callers_of, callers_of_id, chain_from_to, exports_of, find, importers_of,
    imports_of, libraries, outline_of, tests_for, with_call_contexts, callers_target,
};

fn sym(name: &str, file: &str) -> Symbol {
    Symbol {
        id: SymbolId { file: file.to_string(), name: name.to_string(), kind: SymbolKind::Function },
        line_start: 10,
        line_end: 20,
        signature: format!("fn {name}(x: i32)"),
        params: vec!["x: i32".to_string()],
        return_type: None,
        visibility: Visibility::Export,
        body_hash: 0,
        is_async: false,
        embedding_id: None,
    }
}

fn sym_at(name: &str, file: &str, line: u32) -> Symbol {
    let mut s = sym(name, file);
    s.line_start = line;
    s
}

fn insert_with_centrality(graph: &mut CodeGraph, s: Symbol, centrality: u32) {
    let id = s.id.clone();
    graph.insert_symbol(s);
    graph.centrality.insert(id, centrality);
}

fn calls(from: &SymbolId, to: &SymbolId, line: u32, confidence: Confidence) -> Edge {
    Edge { from: from.clone(), to: to.clone(), kind: EdgeKind::Calls, line, confidence }
}

fn module(file: &str, name: &str) -> SymbolId {
    SymbolId { file: file.to_string(), name: name.to_string(), kind: SymbolKind::Module }
}

fn imports(from: &SymbolId, to: &SymbolId) -> Edge {
    Edge { from: from.clone(), to: to.clone(), kind: EdgeKind::Imports, line: 1, confidence: Confidence::Certain }
}

#[test]
fn find_returns_exact_match_with_inline_signature() {
    let mut g = CodeGraph::new();
    insert_with_centrality(&mut g, sym("process", "a.ts"), 5);
    let hits = find(&g, "process", 10);
    assert_eq!(hits.len(), 2, "count header + 1 match");
    assert!(hits[0].is_hint());
    assert!(hits[0].signature.as_deref().unwrap().contains("1 symbol"));
    assert_eq!(hits[1].file, "a.ts");
    assert_eq!(hits[1].line, 10);
    assert_eq!(hits[1].signature.as_deref(), Some("fn process(x: i32)"));
    assert!(hits[1].snippet.is_none());
}

#[test]
fn find_fuzzy_match_when_no_exact() {
    let mut g = CodeGraph::new();
    insert_with_centrality(&mut g, sym("procss", "b.ts"), 1);
    let hits = find(&g, "process", 10);
    assert_eq!(hits.len(), 2, "count header + 1 match");
    assert!(hits[0].is_hint());
    assert!(hits[0].signature.as_deref().unwrap().contains("1 symbol"));
    assert_eq!(hits[1].signature.as_deref(), Some("fn procss(x: i32)"));
}

#[test]
fn find_sorts_by_centrality_descending() {
    let mut g = CodeGraph::new();
    insert_with_centrality(&mut g, sym("process", "low.ts"), 1);
    insert_with_centrality(&mut g, sym("process", "high.ts"), 100);
    let hits = find(&g, "process", 10);
    assert_eq!(hits.len(), 3, "count header + 2 matches");
    assert!(hits[0].is_hint());
    assert!(hits[0].signature.as_deref().unwrap().contains("2 symbols"));
    assert_eq!(hits[1].file, "high.ts");
    assert_eq!(hits[2].file, "low.ts");
}

#[test]
fn find_caps_at_max_hits() {
    let mut g = CodeGraph::new();
    for i in 0..20 {
        insert_with_centrality(&mut g, sym("dup", &format!("f{i}.ts")), i);
    }
    let hits = find(&g, "dup", 5);
    assert_eq!(hits.len(), 6, "count header + 5 hits");
}

#[test]
fn find_empty_when_no_match_at_all() {
    let mut g = CodeGraph::new();
    insert_with_centrality(&mut g, sym("process", "a.ts"), 0);
    let hits = find(&g, "xyz_no_match_anywhere", 10);
    assert_eq!(hits.len(), 1);
    assert!(hits[0].is_hint());
    assert!(hits[0].signature.as_deref().unwrap().contains("grep"));
}

#[test]
fn find_header_names_files() {
    let mut g = CodeGraph::new();
    insert_with_centrality(&mut g, sym("p", "src/a.ts"), 1);
    let hits = find(&g, "p", 10);
    assert_eq!(hits[0].signature.as_deref(), Some("=== 1 symbol matching 'p' in a.ts ==="));
    for (i, f) in ["d/a.ts", "d/b.ts", "d/c.ts", "d/e.ts", "x/a.ts"].iter().enumerate() {
        insert_with_centrality(&mut g, sym("q", f), i as u32);
    }
    let hits = find(&g, "q", 10);
    assert_eq!(
        hits[0].signature.as_deref(),
        Some("=== 5 symbols matching 'q' across 5 files (e.g. a.ts, b.ts, c.ts, +2 more) ===")
    );
    let hits = find(&g, "q", 2);
    assert_eq!(hits[0].signature.as_deref(), Some("=== 2 symbols matching 'q' across 2 files (a.ts, e.ts) ==="));
}

#[test]
fn callers_of_returns_callers_with_signatures() {
    let mut g = CodeGraph::new();
    let target = sym("target", "t.ts");
    let caller_a = sym("caller_a", "a.ts");
    let caller_b = sym("caller_b", "b.ts");
    insert_with_centrality(&mut g, target.clone(), 0);
    insert_with_centrality(&mut g, caller_a.clone(), 0);
    insert_with_centrality(&mut g, caller_b.clone(), 0);
    for caller in [&caller_a, &caller_b] {
        g.insert_edge(calls(&caller.id, &target.id, 5, Confidence::Certain));
    }
    let hits = callers_of(&g, "target", 10, ".", false);
    let files: Vec<_> = hits.iter().map(|h| h.file.clone()).collect();
    assert!(files.contains(&"a.ts".to_string()));
    assert!(files.contains(&"b.ts".to_string()));
    assert!(hits.iter().all(|h| h.signature.is_some()));
}

#[test]
fn callers_of_skips_importer_hint_when_function_caller_from_same_file() {
    let mut g = CodeGraph::new();
    let target = sym("login", "auth.ts");
    let caller = sym("handle", "handler.ts");
    insert_with_centrality(&mut g, target.clone(), 0);
    insert_with_centrality(&mut g, caller.clone(), 0);
    g.insert_edge(calls(&caller.id, &target.id, 5, Confidence::Inferred));
    g.insert_edge(imports(&module("handler.ts", "handler"), &module("auth.ts", "")));
    let hits = callers_of(&g, "login", 10, ".", false);
    assert_eq!(hits.len(), 2, "expected 2 hits (header + function caller); got {hits:?}");
    assert_eq!(hits[1].file, "handler.ts");
    assert!(!hits[1].signature.as_deref().is_some_and(|s| s.contains("cross-file importer")));
}

#[test]
fn callers_of_empty_when_target_missing() {
    let g = CodeGraph::new();
    let hits = callers_of(&g, "nonexistent", 10, ".", false);
    assert_eq!(hits.len(), 1);
    assert!(hits[0].signature.as_deref().is_some_and(|s| s.contains("nonexistent")));
}

#[test]
fn callers_of_caps_at_max_hits() {
    let mut g = CodeGraph::new();
    let target = sym("target", "t.ts");
    insert_with_centrality(&mut g, target.clone(), 0);
    for i in 0..15 {
        let caller = sym(&format!("c{i}"), &format!("c{i}.ts"));
        insert_with_centrality(&mut g, caller.clone(), 0);
        g.insert_edge(calls(&caller.id, &target.id, 1, Confidence::Certain));
    }
    let hits = callers_of(&g, "target", 5, ".", false);
    assert_eq!(hits.len(), 6);
}

#[test]
fn callees_of_returns_forward_edges() {
    let mut g = CodeGraph::new();
    let caller = sym("caller", "a.ts");
    let callee_a = sym("helper_a", "b.ts");
    let callee_b = sym("helper_b", "c.ts");
    insert_with_centrality(&mut g, caller.clone(), 0);
    insert_with_centrality(&mut g, callee_a.clone(), 0);
    insert_with_centrality(&mut g, callee_b.clone(), 0);
    for callee in [&callee_a, &callee_b] {
        g.insert_edge(calls(&caller.id, &callee.id, 5, Confidence::Certain));
    }
    let hits = callees_of(&g, "caller", 10);
    let files: Vec<_> = hits.iter().map(|h| h.file.clone()).collect();
    assert!(files.contains(&"b.ts".to_string()));
    assert!(files.contains(&"c.ts".to_string()));
}

#[test]
fn chain_from_to_returns_shortest_path() {
    let mut g = CodeGraph::new();
    let a = sym("a", "a.ts");
    let b = sym("b", "b.ts");
    let c = sym("c", "c.ts");
    insert_with_centrality(&mut g, a.clone(), 0);
    insert_with_centrality(&mut g, b.clone(), 0);
    insert_with_centrality(&mut g, c.clone(), 0);
    for (from, to) in [(&a, &b), (&b, &c)] {
        g.insert_edge(calls(&from.id, &to.id, 1, Confidence::Certain));
    }
    let hits = chain_from_to(&g, "a", "c");
    assert_eq!(hits.len(), 3);
    assert_eq!(hits[0].file, "a.ts");
    assert_eq!(hits[2].file, "c.ts");
}

#[test]
fn chain_from_to_falls_back_to_endpoints_plus_hint_when_unreachable() {
    let mut g = CodeGraph::new();
    insert_with_centrality(&mut g, sym("a", "a.ts"), 0);
    insert_with_centrality(&mut g, sym("b", "b.ts"), 0);
    let hits = chain_from_to(&g, "a", "b");
    assert_eq!(hits.len(), 3, "got: {hits:?}");
    assert!(hits.iter().any(|h| h.file == "a.ts"));
    assert!(hits.iter().any(|h| h.file == "b.ts"));
    assert!(hits.iter().any(|h| h.signature.as_deref().is_some_and(|s| s.contains("no call-graph path"))));
}

#[test]
fn chain_from_to_empty_hint_when_from_symbol_missing() {
    let mut g = CodeGraph::new();
    insert_with_centrality(&mut g, sym("b", "b.ts"), 0);
    let hits = chain_from_to(&g, "a_nonexistent", "b");
    assert_eq!(hits.len(), 1);
    assert!(hits[0].signature.as_deref().is_some_and(|s| s.contains("a_nonexistent")));
}

#[test]
fn outline_of_returns_all_symbols_in_file_sorted_by_line() {
    let mut g = CodeGraph::new();
    for s in [sym_at("a", "x.ts", 10), sym_at("b", "x.ts", 5), sym_at("c", "y.ts", 1)] {
        g.insert_symbol(s);
    }
    let hits = outline_of(&g, "x.ts");
    assert_eq!(hits.len(), 3, "summary header + 2 symbols");
    assert!(hits[0].is_hint(), "first hit is the summary header");
    assert_eq!(hits[1].line, 5);
    assert_eq!(hits[2].line, 10);
    assert!(hits[1..].iter().all(|h| h.file == "x.ts"));
}

#[test]
fn outline_of_empty_when_no_file_symbols() {
    let g = CodeGraph::new();
    let hits = outline_of(&g, "nope.ts");
    assert!(hits.is_empty());
}

#[test]
fn outline_of_includes_all_visibility_symbols() {
    let mut g = CodeGraph::new();
    let mut pub_sym = sym("public_fn", "x.rs");
    pub_sym.visibility = Visibility::Export;
    let mut priv_sym = sym_at("private_fn", "x.rs", 20);
    priv_sym.visibility = Visibility::Private;
    g.insert_symbol(pub_sym);
    g.insert_symbol(priv_sym);
    let hits = outline_of(&g, "x.rs");
    assert_eq!(hits.len(), 3, "summary header + all symbols regardless of visibility");
    assert!(hits[0].is_hint(), "first hit is the summary header");
    assert!(hits[1].signature.as_deref().unwrap_or("").contains("public_fn"));
    assert!(hits[2].signature.as_deref().unwrap_or("").contains("private_fn"));
}

#[test]
fn imports_of_and_importers_of_traverse_imports_edges() {
    let mut g = CodeGraph::new();
    let a_id = module("a.ts", "a");
    let b_id = module("b.ts", "");
    let mut mod_a = sym("a", "a.ts");
    mod_a.id = a_id.clone();
    let mut mod_b = sym("b", "b.ts");
    mod_b.id = b_id.clone();
    g.insert_symbol(mod_a);
    g.insert_symbol(mod_b);
    g.insert_edge(imports(&a_id, &b_id));
    let imps = imports_of(&g, "a.ts", ".");
    assert_eq!(imps.len(), 1);
    assert_eq!(imps[0].file, "b.ts");
    let importers = importers_of(&g, "b.ts", ".");
    assert_eq!(importers.len(), 1);
    assert_eq!(importers[0].file, "a.ts");
}

fn module_symbol(id: &SymbolId) -> Symbol {
    let mut s = sym(&id.name, &id.file);
    s.id = id.clone();
    s
}

#[test]
fn tests_for_file_filters_importers_to_test_paths_only() {
    let mut g = CodeGraph::new();
    let src_id = module("src/handler.ts", "");
    let test_id = module("tests/handler.test.ts", "test_handler");
    let other_id = module("src/other.ts", "other");
    for id in [&src_id, &test_id, &other_id] {
        g.insert_symbol(module_symbol(id));
    }
    for from in [&test_id, &other_id] {
        g.insert_edge(imports(from, &src_id));
    }
    let hits = tests_for(&g, "src/handler.ts", ".");
    assert_eq!(hits.len(), 1);
    assert!(hits[0].file.contains(".test."));
}

#[test]
fn tests_for_symbol_name_resolves_to_file_first() {
    let mut g = CodeGraph::new();
    g.insert_symbol(sym("processRequest", "src/handler.ts"));
    let hits = tests_for(&g, "processRequest", ".");
    assert_eq!(hits.len(), 1);
    assert!(hits[0].signature.as_deref().is_some_and(|s| s.contains("grep")));
}

#[test]
fn tests_for_recognises_double_underscore_tests_dir() {
    let mut g = CodeGraph::new();
    let src_id = module("src/handler.ts", "");
    let jest_test_id = module("src/__tests__/handler.ts", "jest_handler");
    for id in [&src_id, &jest_test_id] {
        g.insert_symbol(module_symbol(id));
    }
    g.insert_edge(imports(&jest_test_id, &src_id));
    let hits = tests_for(&g, "src/handler.ts", ".");
    assert_eq!(hits.len(), 1);
    assert!(hits[0].file.contains("__tests__"));
}

#[test]
fn outline_of_tags_duplicate_test_functions() {
    let mut g = CodeGraph::new();
    g.insert_symbol(sym_at("foo", "/p/a.rs", 10));
    let mut test_sym = sym_at("foo", "/p/a.rs", 100);
    test_sym.id.kind = SymbolKind::Method;
    g.insert_symbol(test_sym);
    let hits = outline_of(&g, "/p/a.rs");
    assert_eq!(hits.len(), 3, "summary header + 2 symbols");
    assert!(hits[0].is_hint(), "first hit is the summary header");
    let tagged = hits.iter().find(|h| h.line == 100).expect("hit at 100");
    assert!(tagged.signature.as_deref().unwrap_or("").starts_with("[test]"), "got: {:?}", tagged.signature);
    let untagged = hits.iter().find(|h| h.line == 10).expect("hit at 10");
    assert!(!untagged.signature.as_deref().unwrap_or("").starts_with("[test]"));
}

#[test]
fn tests_for_recognises_spec_suffix() {
    let mut g = CodeGraph::new();
    let src_id = module("src/handler.ts", "");
    let spec_id = module("src/handler.spec.ts", "spec_handler");
    for id in [&src_id, &spec_id] {
        g.insert_symbol(module_symbol(id));
    }
    g.insert_edge(imports(&spec_id, &src_id));
    let hits = tests_for(&g, "src/handler.ts", ".");
    assert_eq!(hits.len(), 1);
    assert!(hits[0].file.contains(".spec."));
}

#[test]
fn callers_of_returns_hint_when_no_callers_found() {
    let mut g = CodeGraph::new();
    g.insert_symbol(sym("orphan", "a.rs"));
    let hits = callers_of(&g, "orphan", 10, ".", false);
    assert_eq!(hits.len(), 1);
    let hint = hits[0].signature.as_deref().expect("hint signature");
    assert!(hint.contains("cross-file"));
    assert!(hint.contains("grep"));
}

#[test]
fn callers_of_appends_cross_file_importer_hints() {
    let mut g = CodeGraph::new();
    g.insert_symbol(sym("foo", "src/target.rs"));
    for (file, stem) in [("src/target.rs", "target"), ("src/a.rs", "a"), ("src/b.rs", "b")] {
        g.insert_symbol(module_symbol(&module(file, stem)));
    }
    for (file, stem) in [("src/a.rs", "a"), ("src/b.rs", "b")] {
        g.insert_edge(imports(&module(file, stem), &module("src/target.rs", "")));
    }
    let hits = callers_of(&g, "foo", 10, ".", false);
    assert_eq!(hits.len(), 3, "header + two importer hints, got {:?}", hits.iter().map(|h| &h.file).collect::<Vec<_>>());
    assert_eq!(hits[0].signature.as_deref(), Some("=== 0 callers of foo (only cross-file importers) ==="));
    let importer_hits: Vec<&SearchHit> = hits.iter().skip(1).collect();
    let importer_files: Vec<_> = importer_hits.iter().map(|h| h.file.clone()).collect();
    assert!(importer_files.contains(&"src/a.rs".to_string()));
    assert!(importer_files.contains(&"src/b.rs".to_string()));
    for hit in &importer_hits {
        let sig = hit.signature.as_deref().unwrap_or("");
        assert!(sig.contains("cross-file importer"), "importer hint signature wrong: {sig}");
        assert!(sig.contains("foo"), "hint should name symbol `foo`: {sig}");
    }
}

#[test]
fn find_and_callers_of_rank_by_centrality_consistently() {
    let mut g = CodeGraph::new();
    let target = sym("target", "t.ts");
    let hi = sym("hi", "hi.ts");
    let lo = sym("lo", "lo.ts");
    insert_with_centrality(&mut g, target.clone(), 0);
    insert_with_centrality(&mut g, hi.clone(), 100);
    insert_with_centrality(&mut g, lo.clone(), 1);
    for caller in [&hi, &lo] {
        g.insert_edge(calls(&caller.id, &target.id, 1, Confidence::Certain));
    }
    let find_hits = find(&g, "hi", 10);
    assert_eq!(find_hits.len(), 2, "count header + 1 match");
    assert!(find_hits[0].is_hint());
    assert_eq!(find_hits[1].file, "hi.ts");
    let caller_hits = callers_of(&g, "target", 10, ".", false);
    assert_eq!(caller_hits.len(), 3, "header + 2 callers");
    assert_eq!(caller_hits[1].file, "hi.ts");
    assert_eq!(caller_hits[2].file, "lo.ts");
}

#[test]
fn exports_of_returns_only_exported_symbols() {
    let mut g = CodeGraph::new();
    let mut pub_sym = sym("api", "x.ts");
    pub_sym.visibility = Visibility::Export;
    let mut priv_sym = sym("internal", "x.ts");
    priv_sym.visibility = Visibility::Private;
    g.insert_symbol(pub_sym);
    g.insert_symbol(priv_sym);
    let hits = exports_of(&g, "x.ts");
    assert_eq!(hits.len(), 1);
    assert!(hits[0].signature.as_deref().unwrap().contains("api"));
}

#[test]
fn libraries_returns_unique_libraries_with_counts() {
    let mut g = CodeGraph::new();
    for (lib, file, line) in [
        ("lodash", "a.ts", 1),
        ("lodash", "b.ts", 1),
        ("@tanstack/react-query", "a.ts", 2),
        ("tokio", "lib.rs", 1),
    ] {
        g.library_imports.push(LibraryImport { library: lib.to_string(), symbol: String::new(), file: file.to_string(), line });
    }
    let hits = libraries(&g, "/nonexistent-for-filter", None, &Vec::new());
    assert_eq!(hits.len(), 3);
    let lodash_hit = hits
        .iter()
        .find(|h| h.signature.as_deref().is_some_and(|s| s.contains("lodash")))
        .expect("lodash missing");
    assert!(lodash_hit.signature.as_deref().unwrap().contains("2 uses"));
}

#[test]
fn libraries_filters_project_internal_packages() {
    let mut g = CodeGraph::new();
    for (lib, file) in [("tokio", "src/a.rs"), ("bench", "bench/x.py"), ("myproj", "tests/t.rs"), ("anyhow", "src/b.rs")] {
        g.library_imports.push(LibraryImport { library: lib.to_string(), symbol: String::new(), file: file.to_string(), line: 1 });
    }
    let dirs = vec!["/proj/bench".to_string()];
    let hits = libraries(&g, "/proj", Some("myproj"), &dirs);
    let names: Vec<_> = hits.iter().filter_map(|h| h.signature.as_deref().and_then(|s| s.split_whitespace().next())).collect();
    assert_eq!(names, vec!["anyhow", "tokio"], "got: {names:?}");
}

#[test]
fn chain_to_file_path_returns_chain_plus_file_candidates() {
    let mut g = CodeGraph::new();
    let search_tool = sym("search_tool", "src/mcp/server.rs");
    let dispatch = sym("dispatch", "src/search/dispatcher.rs");
    let find_s = sym("find", "src/search/structural.rs");
    let callers_s = sym("callers_of", "src/search/structural.rs");
    insert_with_centrality(&mut g, search_tool.clone(), 0);
    insert_with_centrality(&mut g, dispatch.clone(), 0);
    insert_with_centrality(&mut g, find_s.clone(), 5);
    insert_with_centrality(&mut g, callers_s.clone(), 2);
    for (from, to) in [(&search_tool, &dispatch), (&dispatch, &find_s), (&dispatch, &callers_s)] {
        g.insert_edge(calls(&from.id, &to.id, 1, Confidence::Certain));
    }
    let hits = chain_from_to(&g, "search_tool", "src/search/structural.rs");
    assert!(hits.len() >= 3, "expected chain + candidates, got {hits:?}");
    assert_eq!(hits[0].file, "src/mcp/server.rs");
    assert_eq!(hits[1].file, "src/search/dispatcher.rs");
    assert_eq!(hits[2].file, "src/search/structural.rs");
    let candidate_names: Vec<&str> = hits.iter().skip(3).filter_map(|h| h.signature.as_deref()).collect();
    assert!(candidate_names.iter().any(|s| s.contains("callers_of")), "got {candidate_names:?}");
}

#[test]
fn chain_to_file_path_backward_compat_with_symbol_name() {
    let mut g = CodeGraph::new();
    let a = sym("a", "a.ts");
    let b = sym("b", "b.ts");
    insert_with_centrality(&mut g, a.clone(), 0);
    insert_with_centrality(&mut g, b.clone(), 0);
    g.insert_edge(calls(&a.id, &b.id, 1, Confidence::Certain));
    let hits = chain_from_to(&g, "a", "b");
    assert_eq!(hits.len(), 2);
    assert_eq!(hits[0].file, "a.ts");
    assert_eq!(hits[1].file, "b.ts");
}

#[test]
fn chain_to_file_path_unreachable_falls_back_with_hint() {
    let mut g = CodeGraph::new();
    insert_with_centrality(&mut g, sym("caller", "src/a.rs"), 0);
    insert_with_centrality(&mut g, sym("island", "src/unreachable.rs"), 0);
    let hits = chain_from_to(&g, "caller", "src/unreachable.rs");
    assert!(hits.iter().any(|h| h.file == "src/a.rs"), "got {hits:?}");
    assert!(hits.iter().any(|h| h.signature.as_deref().is_some_and(|s| s.contains("no call-graph path"))), "got {hits:?}");
}

#[test]
fn chain_to_file_path_when_from_already_in_target_file() {
    let mut g = CodeGraph::new();
    let a = sym("a", "src/x.rs");
    let b = sym("b", "src/x.rs");
    insert_with_centrality(&mut g, a.clone(), 0);
    insert_with_centrality(&mut g, b.clone(), 0);
    g.insert_edge(calls(&a.id, &b.id, 1, Confidence::Certain));
    let hits = chain_from_to(&g, "a", "src/x.rs");
    assert!(hits.iter().any(|h| h.signature.as_deref() == Some("fn a(x: i32)")));
    assert!(hits.iter().any(|h| h.signature.as_deref() == Some("fn b(x: i32)")));
}

#[test]
fn chain_to_file_path_when_file_not_indexed() {
    let mut g = CodeGraph::new();
    insert_with_centrality(&mut g, sym("caller", "src/a.rs"), 0);
    let hits = chain_from_to(&g, "caller", "src/does_not_exist.rs");
    assert_eq!(hits.len(), 1);
    assert!(hits[0].is_hint());
    assert!(hits[0].signature.as_deref().is_some_and(|s| s.contains("no symbols indexed")));
}

#[test]
fn callers_of_without_context_leaves_context_field_none() {
    let mut g = CodeGraph::new();
    let target = sym("target", "a.rs");
    let caller = sym("caller", "b.rs");
    insert_with_centrality(&mut g, target.clone(), 0);
    insert_with_centrality(&mut g, caller.clone(), 0);
    g.insert_edge(calls(&caller.id, &target.id, 5, Confidence::Certain));
    let hits = callers_of(&g, "target", 10, ".", false);
    let real: Vec<_> = hits.iter().filter(|h| !h.is_hint()).collect();
    assert!(!real.is_empty());
    for h in real {
        assert!(h.context.is_none(), "expected no context, got: {:?}", h.context);
    }
}

#[test]
fn callers_of_respects_limit_with_context() {
    let mut g = CodeGraph::new();
    let target = sym("target", "a.rs");
    insert_with_centrality(&mut g, target.clone(), 0);
    for i in 0..15u32 {
        let caller = sym(&format!("caller{i}"), "b.rs");
        insert_with_centrality(&mut g, caller.clone(), 0);
        g.insert_edge(calls(&caller.id, &target.id, i + 1, Confidence::Certain));
    }
    let hits = callers_of(&g, "target", 10, ".", true);
    let real: Vec<_> = hits.iter().filter(|h| !h.is_hint()).collect();
    assert_eq!(real.len(), 10, "limit=10 must be respected even with context");
}

#[test]
fn callers_of_with_context_degrades_gracefully_on_missing_file() {
    let mut g = CodeGraph::new();
    let target = sym("target", "does_not_exist_a.rs");
    let caller = sym("caller", "does_not_exist_b.rs");
    insert_with_centrality(&mut g, target.clone(), 0);
    insert_with_centrality(&mut g, caller.clone(), 0);
    g.insert_edge(calls(&caller.id, &target.id, 5, Confidence::Certain));
    let hits = callers_of(&g, "target", 10, ".", true);
    let real: Vec<_> = hits.iter().filter(|h| !h.is_hint()).collect();
    assert!(!real.is_empty());
    let _ = real[0].context.clone();
}

#[test]
fn callers_of_id_falls_back_to_file_and_name() {
    let mut g = CodeGraph::new();
    let target = sym("target", "t.rs");
    let caller = sym("caller", "c.rs");
    insert_with_centrality(&mut g, target.clone(), 0);
    insert_with_centrality(&mut g, caller.clone(), 0);
    let placeholder = SymbolId { file: "t.rs".to_string(), name: "target".to_string(), kind: SymbolKind::Method };
    g.insert_edge(calls(&caller.id, &placeholder, 3, Confidence::Certain));
    let hits = callers_of_id(&g, &target.id, 10);
    assert_eq!(hits.len(), 2);
    assert_eq!(hits[0].signature.as_deref(), Some("=== 1 caller of target in 1 file ==="));
    assert_eq!(hits[1].file, "c.rs");
}

#[test]
fn outline_collapses_methods_helpers_and_tests() {
    let mut g = CodeGraph::new();
    let mut m1 = sym_at("m1", "o.rs", 1);
    m1.id.kind = SymbolKind::Method;
    let mut m2 = sym_at("m2", "o.rs", 2);
    m2.id.kind = SymbolKind::Method;
    g.insert_symbol(m1);
    g.insert_symbol(m2);
    g.insert_symbol(sym_at("test_a", "o.rs", 3));
    g.insert_symbol(sym_at("test_b", "o.rs", 4));
    g.insert_symbol(sym_at("main", "o.rs", 5));
    let hits = outline_of(&g, "o.rs");
    let sigs: Vec<_> = hits.iter().map(|h| h.signature.clone().unwrap_or_default()).collect();
    assert_eq!(
        sigs,
        vec![
            "3 entries (1 functions, 1 method groups, 1 test groups)".to_string(),
            "impl { (2 methods) }".to_string(),
            "[test] (2 functions)".to_string(),
            "fn main(x: i32)".to_string(),
        ]
    );
}

#[test]
fn outline_collapses_private_helpers_after_method_groups() {
    let mut g = CodeGraph::new();
    let entries = [
        ("m1", 1, SymbolKind::Method, Visibility::Export),
        ("m2", 2, SymbolKind::Method, Visibility::Export),
        ("p1", 3, SymbolKind::Function, Visibility::Private),
        ("p2", 4, SymbolKind::Function, Visibility::Private),
        ("q", 5, SymbolKind::Function, Visibility::Export),
    ];
    for (name, line, kind, vis) in entries {
        let mut s = sym_at(name, "x.rs", line);
        s.id.kind = kind;
        s.visibility = vis;
        s.signature = format!("fn {name}()");
        s.params = vec![];
        g.insert_symbol(s);
    }
    let h = outline_of(&g, "x.rs");
    assert_eq!(h.len(), 4, "got {:?}", h.iter().map(|x| (x.line, x.signature.clone())).collect::<Vec<_>>());
    assert!(h[0].is_hint());
    assert_eq!((h[1].line, h[1].signature.as_deref()), (1, Some("impl { (2 methods) }")));
    assert_eq!((h[2].line, h[2].signature.as_deref()), (3, Some("[helpers] p1, p2")));
    assert_eq!((h[3].line, h[3].signature.as_deref()), (5, Some("fn q()")));
}

#[test]
fn caller_hits_gain_call_site_context_from_their_sources() {
    let mut g = CodeGraph::new();
    let mut login = sym("login", "src/auth.py");
    login.signature = "login(user)".to_string();
    let mut handle = sym("handle", "src/handler.py");
    handle.line_start = 3;
    g.insert_symbol(login.clone());
    g.insert_symbol(handle.clone());
    g.insert_edge(Edge { from: handle.id.clone(), to: login.id.clone(), kind: EdgeKind::Calls, line: 4, confidence: Confidence::Certain });
    let hits = callers_of(&g, "login", 10, ".", true);
    assert!(hits.iter().all(|h| h.context.is_none()));
    let target = callers_target(&g, "login").expect("target");
    let handler = "from utils.auth import login\n\ndef handle(req):\n    return login(req)\n";
    let sources: Vec<Option<String>> = hits.iter().map(|h| if h.is_hint() { None } else { Some(handler.to_string()) }).collect();
    let out = with_call_contexts(&g, target, hits.clone(), &sources);
    assert_eq!(out.len(), hits.len());
    assert!(out[0].is_hint() && out[0].context.is_none());
    let ctx = out[1].context.clone().expect("context");
    assert!(ctx.contains("// callee: login(user)"), "got {ctx}");
    assert!(ctx.contains("return login(req)"), "got {ctx}");
    let unread = with_call_contexts(&g, target, hits.clone(), &vec![None; hits.len()]);
    assert!(unread.iter().all(|h| h.context.is_none()));
}
