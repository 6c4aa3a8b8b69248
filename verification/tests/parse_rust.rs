use blastguard::graph::types::{Confidence, EdgeKind, SymbolKind, Visibility};
use blastguard::parse::parse_source;
use blastguard::parse::rust::extract;

const SAMPLE: &str = r"
use std::collections::HashMap;
use crate::utils::helper;

pub async fn process_request(req: Request) -> Result<Response, Error> {
    handler(req).await
}

pub(crate) struct Handler {
    state: HashMap<String, u32>,
}

impl Handler {
    pub async fn handle(&self, req: Request) -> Result<(), Error> {
        process_request(req).await
    }
}

pub trait Service {
    fn name(&self) -> &str;
}

pub enum Status {
    Ok,
    Err,
}

fn private_helper() {
    noop();
}
";

#[test]
fn extracts_async_fn_as_async_function() {
    let out = extract("src/handler.rs", SAMPLE);
    let sym = out.symbols.iter().find(|s| s.id.name == "process_request").expect("missing");
    assert_eq!(sym.id.kind, SymbolKind::AsyncFunction);
    assert!(sym.is_async);
}

#[test]
fn extracts_struct_enum_trait() {
    let out = extract("src/handler.rs", SAMPLE);
    assert!(out.symbols.iter().any(|s| s.id.name == "Handler" && s.id.kind == SymbolKind::Struct));
    assert!(out.symbols.iter().any(|s| s.id.name == "Service" && s.id.kind == SymbolKind::Trait));
    assert!(out.symbols.iter().any(|s| s.id.name == "Status" && s.id.kind == SymbolKind::Enum));
}

#[test]
fn method_in_impl_block_is_method_kind() {
    let out = extract("src/handler.rs", SAMPLE);
    let sym = out.symbols.iter().find(|s| s.id.name == "handle").expect("handle missing");
    assert_eq!(sym.id.kind, SymbolKind::Method);
    assert!(sym.is_async, "async fn handle must set is_async even as Method");
}

#[test]
fn visibility_from_pub_and_pub_crate() {
    let out = extract("src/handler.rs", SAMPLE);
    let pub_sym = out.symbols.iter().find(|s| s.id.name == "process_request").expect("missing");
    assert_eq!(pub_sym.visibility, Visibility::Export);
    let pub_crate = out.symbols.iter().find(|s| s.id.name == "Handler").expect("missing");
    assert_eq!(pub_crate.visibility, Visibility::Public);
    let priv_sym = out.symbols.iter().find(|s| s.id.name == "private_helper").expect("missing");
    assert_eq!(priv_sym.visibility, Visibility::Private);
}

#[test]
fn external_use_captured_as_library() {
    let out = extract("src/handler.rs", SAMPLE);
    assert!(out.library_imports.iter().any(|li| li.library == "std"));
}

#[test]
fn crate_use_becomes_unresolved_imports_edge() {
    let out = extract("src/handler.rs", SAMPLE);
    let has_internal = out.edges.iter().any(|e| {
        e.kind == EdgeKind::Imports && e.confidence == Confidence::Unresolved && e.to.file.contains("crate::utils::helper")
    });
    assert!(has_internal, "expected Imports edge for crate::utils::helper; edges = {:?}", out.edges);
}

#[test]
fn intra_file_call_edge() {
    let out = extract("src/handler.rs", SAMPLE);
    let has_call = out
        .edges
        .iter()
        .any(|e| e.kind == EdgeKind::Calls && e.from.name == "handle" && e.to.name == "process_request");
    assert!(has_call, "expected handle -> process_request edge; edges = {:?}", out.edges);
}

#[test]
fn repeated_calls_dedup() {
    let src = "fn retry() { helper(); helper(); helper(); }";
    let out = extract("src/retry.rs", src);
    let calls: Vec<_> = out
        .edges
        .iter()
        .filter(|e| e.kind == EdgeKind::Calls && e.from.name == "retry" && e.to.name == "helper")
        .collect();
    assert_eq!(calls.len(), 1, "expected 1 dedup'd edge, got {calls:?}");
}

#[test]
fn scoped_identifier_call_emits_edge_with_final_name() {
    let src = "fn build() -> Vec<u8> { Vec::new() }";
    let out = extract("src/a.rs", src);
    let has_call = out.edges.iter().any(|e| e.kind == EdgeKind::Calls && e.from.name == "build" && e.to.name == "new");
    assert!(has_call, "expected build -> new edge for Vec::new(); edges = {:?}", out.edges);
}

#[test]
fn nested_scoped_identifier_call_captures_final_segment() {
    let src = "fn x() { crate::utils::helper(); }";
    let out = extract("src/a.rs", src);
    let has_call = out.edges.iter().any(|e| e.kind == EdgeKind::Calls && e.from.name == "x" && e.to.name == "helper");
    assert!(has_call, "expected x -> helper edge for crate::utils::helper(); edges = {:?}", out.edges);
}

#[test]
fn nested_fn_inside_impl_is_function_not_method() {
    let src = "impl Foo { fn outer(&self) { fn inner() {} } }";
    let out = extract("src/x.rs", src);
    assert!(
        out.symbols.iter().any(|s| s.id.name == "inner" && s.id.kind == SymbolKind::Function),
        "inner should be Function, got symbols: {:?}",
        out.symbols.iter().map(|s| (&s.id.name, s.id.kind)).collect::<Vec<_>>()
    );
    assert!(out.symbols.iter().any(|s| s.id.name == "outer" && s.id.kind == SymbolKind::Method));
}

#[test]
fn pub_super_maps_to_public_visibility() {
    let src = "pub(super) fn helper() {}";
    let out = extract("src/x.rs", src);
    let sym = out.symbols.iter().find(|s| s.id.name == "helper").expect("helper missing");
    assert_eq!(sym.visibility, Visibility::Public);
}

#[test]
fn function_signature_params_and_lines() {
    let src = "fn a() {}\n\npub fn run(x: u32, y: &str) -> bool {\n    true\n}\n";
    let out = extract("src/run.rs", src);
    let sym = out.symbols.iter().find(|s| s.id.name == "run").expect("run missing");
    assert_eq!(sym.signature, "run(x: u32, y: &str): bool");
    assert_eq!(sym.params, vec!["x: u32".to_string(), "y: &str".to_string()]);
    assert_eq!(sym.return_type.as_deref(), Some("bool"));
    assert_eq!((sym.line_start, sym.line_end), (3, 5));
    assert!(!out.partial_parse);
}

#[test]
fn module_scope_call_has_no_edge_and_errors_mark_partial() {
    let out = extract("src/m.rs", "const X: u32 = f();\n");
    assert!(out.edges.is_empty());
    let broken = extract("src/b.rs", "fn broken( {");
    assert!(broken.partial_parse);
}

#[test]
fn self_use_edge_comes_from_the_file_module() {
    let out = extract("src/lib/graph.rs", "use self::types::Node;\n");
    assert_eq!(out.edges.len(), 1);
    assert_eq!(out.edges[0].from.name, "graph");
    assert_eq!(out.edges[0].from.kind, SymbolKind::Module);
    assert_eq!(out.edges[0].to.file, "self::types::Node");
    assert_eq!(out.edges[0].line, 1);
}

#[test]
fn parse_source_dispatches_by_language() {
    let out = parse_source("src/a.rs", "fn f() {}\n").expect("rust file");
    assert_eq!(out.symbols.len(), 1);
    assert_eq!(out.symbols[0].id.name, "f");
    assert!(parse_source("README.md", "# hi").is_none());
    let ts = parse_source("src/a.ts", "export function f() {}").expect("ts file");
    assert_eq!(ts.symbols.len(), 1);
    assert_eq!(ts.symbols[0].id.name, "f");
    let py = parse_source("src/a.py", "def g():\n    pass\n").expect("python file");
    assert_eq!(py.symbols[0].id.name, "g");
}

#[test]
fn mod_items_become_module_symbols() {
    let out = extract("src/lib.rs", "pub mod graph;\nmod util { fn helper() {} }\n");
    let graph = out.symbols.iter().find(|s| s.id.name == "graph").expect("graph");
    assert_eq!(graph.id.kind, SymbolKind::Module);
    assert_eq!(graph.visibility, Visibility::Export);
    assert_eq!(graph.signature, "graph");
    let util = out.symbols.iter().find(|s| s.id.name == "util").expect("util");
    assert_eq!(util.id.kind, SymbolKind::Module);
    assert_eq!(util.visibility, Visibility::Private);
    assert!(out.symbols.iter().any(|s| s.id.name == "helper" && s.id.kind == SymbolKind::Function));
}
