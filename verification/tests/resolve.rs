use blastguard::graph::types::{CodeGraph, Confidence, Edge, EdgeKind, SymbolId, SymbolKind};
use blastguard::parse::calls::resolve_calls;
use blastguard::parse::resolve::{
    normalize_path, parse_tsconfig, path_parent, path_with_extension, resolve_imports, resolve_py, resolve_rs, resolve_ts,
    split_text, strip_jsonc_comments, FileSet, ResolveResult, TsConfig,
};

const ROOT: &str = "/proj";

fn files(paths: &[&str]) -> FileSet {
    FileSet { files: paths.iter().map(|p| format!("{ROOT}/{p}")).collect() }
}

fn at(p: &str) -> String {
    format!("{ROOT}/{p}")
}

fn internal(r: &ResolveResult) -> Option<String> {
    match r {
        ResolveResult::Internal(p) => Some(p.clone()),
        _ => None,
    }
}

fn library(r: &ResolveResult) -> Option<String> {
    match r {
        ResolveResult::External { library, symbols } => {
            assert!(symbols.is_empty());
            Some(library.clone())
        },
        _ => None,
    }
}

#[test]
fn resolves_relative_ts_file() {
    let fs = files(&["src/handler.ts", "src/utils/auth.ts"]);
    let r = resolve_ts(ROOT, &at("src/handler.ts"), "./utils/auth", None, &fs);
    assert_eq!(internal(&r), Some(at("src/utils/auth.ts")));
}

#[test]
fn resolves_tsx_extension() {
    let fs = files(&["src/app.ts", "src/Button.tsx"]);
    let r = resolve_ts(ROOT, &at("src/app.ts"), "./Button", None, &fs);
    assert_eq!(internal(&r), Some(at("src/Button.tsx")));
}

#[test]
fn resolves_index_file_in_directory() {
    let fs = files(&["src/handler.ts", "src/utils/index.ts"]);
    let r = resolve_ts(ROOT, &at("src/handler.ts"), "./utils", None, &fs);
    assert_eq!(internal(&r), Some(at("src/utils/index.ts")));
}

#[test]
fn resolves_parent_directory_import() {
    let fs = files(&["src/nested/deep.ts", "src/shared.ts"]);
    let r = resolve_ts(ROOT, &at("src/nested/deep.ts"), "../shared", None, &fs);
    assert_eq!(internal(&r), Some(at("src/shared.ts")));
}

#[test]
fn bare_specifier_is_external() {
    let fs = files(&["src/a.ts"]);
    let r = resolve_ts(ROOT, &at("src/a.ts"), "lodash", None, &fs);
    assert_eq!(library(&r), Some("lodash".to_string()));
    let r = resolve_ts(ROOT, &at("src/a.ts"), "lodash/fp", None, &fs);
    assert_eq!(library(&r), Some("lodash".to_string()));
}

#[test]
fn scoped_bare_specifier_is_external_with_full_scope() {
    let fs = files(&["src/a.ts"]);
    let r = resolve_ts(ROOT, &at("src/a.ts"), "@scope/pkg", None, &fs);
    assert_eq!(library(&r), Some("@scope/pkg".to_string()));
    let r = resolve_ts(ROOT, &at("src/a.ts"), "@scope/pkg/deep/path", None, &fs);
    assert_eq!(library(&r), Some("@scope/pkg".to_string()));
}

#[test]
fn unresolved_when_no_match() {
    let fs = files(&["src/a.ts"]);
    let r = resolve_ts(ROOT, &at("src/a.ts"), "./missing", None, &fs);
    assert!(matches!(r, ResolveResult::Unresolved));
}

#[test]
fn resolves_via_tsconfig_path_alias() {
    let fs = files(&["src/handler.ts", "src/shared/auth.ts"]);
    let tc = TsConfig {
        base_url: Some(".".to_string()),
        paths: vec![("@shared/*".to_string(), vec!["src/shared/*".to_string()])],
    };
    let r = resolve_ts(ROOT, &at("src/handler.ts"), "@shared/auth", Some(&tc), &fs);
    assert_eq!(internal(&r), Some(at("src/shared/auth.ts")));
}

#[test]
fn resolves_exact_tsconfig_alias_no_wildcard() {
    let fs = files(&["src/handler.ts", "src/config.ts"]);
    let tc = TsConfig { base_url: Some(".".to_string()), paths: vec![("@config".to_string(), vec!["src/config".to_string()])] };
    let r = resolve_ts(ROOT, &at("src/handler.ts"), "@config", Some(&tc), &fs);
    assert_eq!(internal(&r), Some(at("src/config.ts")));
}

#[test]
fn alias_that_names_no_file_falls_back_to_the_ladder() {
    let fs = files(&["src/handler.ts"]);
    let tc = TsConfig { base_url: None, paths: vec![("@shared/*".to_string(), vec!["src/shared/*".to_string()])] };
    let r = resolve_ts(ROOT, &at("src/handler.ts"), "@shared/auth", Some(&tc), &fs);
    assert_eq!(library(&r), Some("@shared/auth".to_string()));
}

#[test]
fn loads_tsconfig_from_disk() {
    let tc = parse_tsconfig(
        r#"{
            "compilerOptions": {
                "baseUrl": ".",
                "paths": { "@shared/*": ["src/shared/*"] }
            }
        }"#,
    )
    .expect("present");
    assert!(tc.paths.iter().any(|(k, _)| k == "@shared/*"));
    assert_eq!(tc.base_url, Some(".".to_string()));
}

#[test]
fn loads_tsconfig_with_jsonc_comments() {
    let tc = parse_tsconfig(
        r#"{
            // Top-level comment
            "compilerOptions": {
                "baseUrl": ".",
                // inline comment
                "paths": { "@util/*": ["src/util/*"] }
            }
        }"#,
    )
    .expect("present");
    assert!(tc.paths.iter().any(|(k, _)| k == "@util/*"));
    assert_eq!(tc.paths[0].1, vec!["src/util/*".to_string()]);
}

#[test]
fn malformed_tsconfig_returns_err() {
    assert!(parse_tsconfig("not valid json {").is_none());
}

#[test]
fn tsconfig_without_compiler_options_is_empty() {
    let tc = parse_tsconfig("{}").expect("present");
    assert!(tc.base_url.is_none());
    assert!(tc.paths.is_empty());
}

#[test]
fn jsonc_line_comments_are_cut() {
    assert_eq!(strip_jsonc_comments("a // x\nb\n// y"), "a \nb\n");
    assert_eq!(strip_jsonc_comments("no comments"), "no comments");
}

#[test]
fn resolves_python_dotted_module_under_src() {
    let fs = files(&["src/handler.py", "src/utils/auth.py", "src/utils/__init__.py"]);
    let r = resolve_py(ROOT, &at("src/handler.py"), "utils.auth", &fs);
    assert_eq!(internal(&r), Some(at("src/utils/auth.py")));
}

#[test]
fn resolves_python_package_init() {
    let fs = files(&["src/handler.py", "src/utils/__init__.py"]);
    let r = resolve_py(ROOT, &at("src/handler.py"), "utils", &fs);
    assert_eq!(internal(&r), Some(at("src/utils/__init__.py")));
}

#[test]
fn resolves_python_module_without_src_prefix() {
    let fs = files(&["handler.py", "utils/auth.py"]);
    let r = resolve_py(ROOT, &at("handler.py"), "utils.auth", &fs);
    assert_eq!(internal(&r), Some(at("utils/auth.py")));
}

#[test]
fn unresolved_python_falls_back_to_library_as_external() {
    let fs = files(&["src/handler.py"]);
    let r = resolve_py(ROOT, &at("src/handler.py"), "requests", &fs);
    assert_eq!(library(&r), Some("requests".to_string()));
}

#[test]
fn python_dotted_external_keeps_first_segment() {
    let fs = files(&["src/handler.py"]);
    let r = resolve_py(ROOT, &at("src/handler.py"), "django.db.models", &fs);
    assert_eq!(library(&r), Some("django".to_string()));
}

#[test]
fn python_dot_sentinel_is_unresolved() {
    let fs = files(&["src/handler.py"]);
    assert!(matches!(resolve_py(ROOT, &at("src/handler.py"), ".", &fs), ResolveResult::Unresolved));
    assert!(matches!(resolve_py(ROOT, &at("src/handler.py"), "", &fs), ResolveResult::Unresolved));
}

#[test]
fn resolves_rust_crate_path_to_file() {
    let fs = files(&["src/main.rs", "src/config.rs"]);
    let r = resolve_rs(ROOT, &at("src/main.rs"), "crate::config", &fs);
    assert_eq!(internal(&r), Some(at("src/config.rs")));
}

#[test]
fn resolves_rust_mod_rs_for_package() {
    let fs = files(&["src/main.rs", "src/graph/mod.rs"]);
    let r = resolve_rs(ROOT, &at("src/main.rs"), "crate::graph", &fs);
    assert_eq!(internal(&r), Some(at("src/graph/mod.rs")));
}

#[test]
fn resolves_rust_with_self_prefix() {
    let fs = files(&["src/main.rs", "src/config.rs"]);
    let r = resolve_rs(ROOT, &at("src/main.rs"), "self::config", &fs);
    assert_eq!(internal(&r), Some(at("src/config.rs")));
}

#[test]
fn external_crate_path_is_external() {
    let fs = files(&["src/main.rs"]);
    let r = resolve_rs(ROOT, &at("src/main.rs"), "tokio::sync::Mutex", &fs);
    assert_eq!(library(&r), Some("tokio".to_string()));
}

#[test]
fn std_path_is_external() {
    let fs = files(&["src/main.rs"]);
    let r = resolve_rs(ROOT, &at("src/main.rs"), "std::collections::HashMap", &fs);
    assert_eq!(library(&r), Some("std".to_string()));
}

#[test]
fn unresolved_rust_crate_path_when_file_absent() {
    let fs = files(&["src/main.rs"]);
    let r = resolve_rs(ROOT, &at("src/main.rs"), "crate::nope", &fs);
    assert!(matches!(r, ResolveResult::Unresolved));
}

#[test]
fn resolves_rust_type_import_by_walking_back_to_module() {
    let fs = files(&["src/main.rs", "src/config.rs"]);
    let r = resolve_rs(ROOT, &at("src/main.rs"), "crate::config::Config", &fs);
    assert_eq!(internal(&r), Some(at("src/config.rs")));
}

#[test]
fn bare_crate_without_path_is_unresolved() {
    let fs = files(&["src/main.rs"]);
    assert!(matches!(resolve_rs(ROOT, &at("src/main.rs"), "crate", &fs), ResolveResult::Unresolved));
    assert!(matches!(resolve_rs(ROOT, &at("src/main.rs"), "", &fs), ResolveResult::Unresolved));
}

fn module(file: &str, name: &str) -> SymbolId {
    SymbolId { file: file.to_string(), name: name.to_string(), kind: SymbolKind::Module }
}

fn import_edge(from: &str, spec: &str) -> Edge {
    Edge {
        from: module(from, "m"),
        to: module(spec, ""),
        kind: EdgeKind::Imports,
        line: 1,
        confidence: Confidence::Unresolved,
    }
}

fn only_edge(graph: &CodeGraph) -> Edge {
    assert_eq!(graph.forward_edges.len(), 1);
    let edges = graph.forward_edges.value_at(0);
    assert_eq!(edges.len(), 1, "expected exactly one edge");
    edges[0].clone()
}

#[test]
fn resolve_imports_upgrades_rust_crate_edge_to_certain() {
    let fs = files(&["src/main.rs", "src/utils.rs"]);
    let mut graph = CodeGraph::new();
    graph.insert_edge(import_edge(&at("src/main.rs"), "crate::utils"));
    resolve_imports(&mut graph, ROOT, None, &fs);
    let e = only_edge(&graph);
    assert_eq!(e.to.file, at("src/utils.rs"), "to.file should be resolved");
    assert_eq!(e.confidence, Confidence::Certain);
    assert!(graph.reverse_edges.get(&module(&at("src/utils.rs"), "")).is_some());
    assert!(graph.reverse_edges.get(&module("crate::utils", "")).is_none(), "stale key should be gone");
    assert_eq!(graph.centrality.get(&module(&at("src/utils.rs"), "")), Some(&1));
    assert_eq!(graph.centrality.get(&module("crate::utils", "")), Some(&0));
}

#[test]
fn resolve_imports_leaves_unresolvable_edges_alone() {
    let fs = files(&["src/main.rs"]);
    let mut graph = CodeGraph::new();
    graph.insert_edge(import_edge(&at("src/main.rs"), "crate::does_not_exist"));
    resolve_imports(&mut graph, ROOT, None, &fs);
    let e = only_edge(&graph);
    assert_eq!(e.to.file, "crate::does_not_exist", "unresolvable spec should remain untouched");
    assert_eq!(e.confidence, Confidence::Unresolved);
}

#[test]
fn resolve_imports_upgrades_python_dotted_edge() {
    let fs = files(&["src/handler.py", "src/utils/auth.py"]);
    let mut graph = CodeGraph::new();
    graph.insert_edge(import_edge(&at("src/handler.py"), "utils.auth"));
    resolve_imports(&mut graph, ROOT, None, &fs);
    let e = only_edge(&graph);
    assert_eq!(e.to.file, at("src/utils/auth.py"));
    assert_eq!(e.confidence, Confidence::Certain);
}

#[test]
fn resolve_imports_upgrades_ts_relative_edge() {
    let fs = files(&["src/handler.ts", "src/utils/auth.ts"]);
    let mut graph = CodeGraph::new();
    graph.insert_edge(import_edge(&at("src/handler.ts"), "./utils/auth"));
    resolve_imports(&mut graph, ROOT, None, &fs);
    let e = only_edge(&graph);
    assert_eq!(e.to.file, at("src/utils/auth.ts"));
    assert_eq!(e.confidence, Confidence::Certain);
}

#[test]
fn resolve_imports_skips_calls_and_unknown_languages() {
    let fs = files(&["src/utils.rs", "notes.md"]);
    let mut graph = CodeGraph::new();
    let mut call = import_edge(&at("src/main.rs"), "crate::utils");
    call.kind = EdgeKind::Calls;
    graph.insert_edge(call);
    graph.insert_edge(import_edge(&at("notes.md"), "crate::utils"));
    resolve_imports(&mut graph, ROOT, None, &fs);
    for i in 0..graph.forward_edges.len() {
        for e in graph.forward_edges.value_at(i) {
            assert_eq!(e.to.file, "crate::utils");
        }
    }
}

#[test]
fn path_helpers_follow_std_path() {
    assert_eq!(normalize_path("/a/./b/../c"), "/a/c");
    assert_eq!(normalize_path("a//b/"), "a/b");
    assert_eq!(normalize_path("../x"), "x");
    assert_eq!(normalize_path("/.."), "/");
    assert_eq!(path_parent("src/a.ts"), Some("src".to_string()));
    assert_eq!(path_parent("a.ts"), Some(String::new()));
    assert_eq!(path_parent("/a"), Some("/".to_string()));
    assert_eq!(path_parent("/"), None);
    assert_eq!(path_with_extension("src/Button", "tsx"), "src/Button.tsx");
    assert_eq!(path_with_extension("src/a.test", "ts"), "src/a.ts");
    assert_eq!(path_with_extension("src/..", "ts"), "src/..");
    assert_eq!(split_text("a::b::::c", "::"), vec!["a", "b", "", "c"]);
    assert_eq!(split_text("x", "."), vec!["x"]);
}

fn id(file: &str, name: &str, kind: SymbolKind) -> SymbolId {
    SymbolId { file: file.to_string(), name: name.to_string(), kind }
}

#[test]
fn calls_move_to_the_first_imported_file_holding_the_callee() {
    let mut g = CodeGraph::new();
    let anchor = id("/proj/src/h.py", "h", SymbolKind::Module);
    for (file, name) in [("/proj/src/a.py", "login"), ("/proj/src/b.py", "login"), ("/proj/src/h.py", "local")] {
        g.insert_symbol(blastguard::graph::types::Symbol {
            id: id(file, name, SymbolKind::Function),
            line_start: 1,
            line_end: 1,
            signature: format!("{name}()"),
            params: vec![],
            return_type: None,
            visibility: blastguard::graph::types::Visibility::Export,
            body_hash: 0,
            is_async: false,
            embedding_id: None,
        });
    }
    for target in ["/proj/src/a.py", "/proj/src/b.py"] {
        g.insert_edge(Edge { from: anchor.clone(), to: id(target, "", SymbolKind::Module), kind: EdgeKind::Imports, line: 1, confidence: Confidence::Certain });
    }
    let caller = id("/proj/src/h.py", "handle", SymbolKind::Function);
    g.insert_edge(Edge { from: caller.clone(), to: id("/proj/src/h.py", "login", SymbolKind::Function), kind: EdgeKind::Calls, line: 3, confidence: Confidence::Unresolved });
    g.insert_edge(Edge { from: caller.clone(), to: id("/proj/src/h.py", "local", SymbolKind::Function), kind: EdgeKind::Calls, line: 4, confidence: Confidence::Unresolved });
    g.insert_edge(Edge { from: caller.clone(), to: id("/proj/src/h.py", "missing", SymbolKind::Function), kind: EdgeKind::Calls, line: 5, confidence: Confidence::Unresolved });
    resolve_calls(&mut g);
    let out = g.forward_edges.get(&caller).expect("caller edges");
    assert_eq!(out[0].to, id("/proj/src/a.py", "login", SymbolKind::Function));
    assert_eq!(out[0].confidence, Confidence::Inferred);
    assert_eq!(out[1].to, id("/proj/src/h.py", "local", SymbolKind::Function));
    assert_eq!(out[1].confidence, Confidence::Unresolved);
    assert_eq!(out[2].to, id("/proj/src/h.py", "missing", SymbolKind::Function));
    let rev = g.reverse_edges.get(&id("/proj/src/a.py", "login", SymbolKind::Function)).expect("reverse");
    assert_eq!(rev.len(), 1);
    assert!(g.reverse_edges.get(&id("/proj/src/h.py", "login", SymbolKind::Function)).is_none());
}
