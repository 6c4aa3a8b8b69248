use blastguard::edit::apply::{apply_change, apply_changes_text, apply_delete, apply_edit_text, find_match_lines, summary_line, EditError};
use blastguard::edit::{ApplyChangeRequest, ApplyStatus, Change};
use blastguard::graph::impact::{Warning, WarningKind};
use blastguard::graph::types::{CodeGraph, Confidence, Edge, EdgeKind, Symbol, SymbolId, SymbolKind, Visibility};
use blastguard::mcp::apply_change::{handle, DiskOutcome};
use blastguard::parse::resolve::FileSet;
use blastguard::parse::ParseOutput;
use blastguard::session::SessionState;

fn change(old: &str, new: &str) -> Change {
    Change { old_text: old.to_string(), new_text: new.to_string() }
}

fn sym(file: &str, name: &str, sig: &str, body_hash: u64) -> Symbol {
    Symbol {
        id: SymbolId { file: file.to_string(), name: name.to_string(), kind: SymbolKind::Function },
        line_start: 1,
        line_end: 3,
        signature: sig.to_string(),
        params: vec![],
        return_type: None,
        visibility: Visibility::Export,
        body_hash,
        is_async: false,
        embedding_id: None,
    }
}

fn request(file: &str) -> ApplyChangeRequest {
    ApplyChangeRequest { file: file.to_string(), changes: vec![], create_file: false, delete_file: false }
}

fn parsed(symbols: Vec<Symbol>, edges: Vec<Edge>) -> ParseOutput {
    ParseOutput { symbols, edges, library_imports: vec![], partial_parse: false }
}

fn no_files() -> FileSet {
    FileSet { files: vec![] }
}

#[test]
fn apply_edit_exact_single_match_rewrites_file() {
    let after = apply_edit_text("fn foo() { return 1; }", "return 1", "return 2").expect("apply_edit");
    assert_eq!(after, "fn foo() { return 2; }");
}

#[test]
fn apply_edit_missing_old_text_returns_edit_not_found() {
    let err = apply_edit_text("fn foo() {}", "NOT_PRESENT", "x").expect_err("should error");
    assert!(matches!(err, EditError::NotFound), "got {err:?}");
}

#[test]
fn apply_edit_ambiguous_old_text_returns_ambiguous_edit() {
    let err = apply_edit_text("a = 1\nb = 1\n", "= 1", "= 2").expect_err("ambiguous");
    match err {
        EditError::Ambiguous { count, .. } => assert_eq!(count, 2),
        e => panic!("wrong variant: {e:?}"),
    }
}

#[test]
fn ambiguous_edit_lists_all_match_line_numbers() {
    let err = apply_edit_text("a = 1\nb = 1\nc = 1\n", "= 1", "= 2").expect_err("ambiguous");
    match err {
        EditError::Ambiguous { count, lines } => {
            assert_eq!(count, 3);
            assert_eq!(lines, vec![1, 2, 3]);
        },
        e => panic!("wrong variant: {e:?}"),
    }
}

#[test]
fn matches_do_not_overlap() {
    assert_eq!(find_match_lines("aaaa", "aa"), vec![1, 1]);
    assert_eq!(find_match_lines("x\n\nx", "x"), vec![1, 3]);
    assert_eq!(apply_edit_text("aaa", "aa", "b").expect("one match"), "ba");
}

#[test]
fn empty_old_text_on_an_empty_body_inserts() {
    assert_eq!(apply_edit_text("", "", "hello").expect("insert"), "hello");
}

#[test]
fn changes_apply_in_order_with_hunks() {
    let (text, snippet) = apply_changes_text("src/a.ts", "one\ntwo\nthree\n", &vec![change("two", "TWO"), change("TWO\nthree", "3")])
        .expect("apply");
    assert_eq!(text, "one\n3\n");
    assert_eq!(snippet, "@@ src/a.ts:L2 @@\n-two\n+TWO\n@@ src/a.ts:L2 @@\n-TWO\n-three\n+3\n");
}

#[test]
fn multi_change_rolls_back_on_later_failure() {
    let err = apply_changes_text("src/a.ts", "one\ntwo\nthree\n", &vec![change("one", "ONE"), change("NOT_PRESENT", "x")])
        .expect_err("should fail");
    assert!(matches!(err, EditError::NotFound), "expected NotFound, got {err:?}");
}

#[test]
fn summary_line_counts_by_kind() {
    let id = SymbolId { file: "a.ts".to_string(), name: "f".to_string(), kind: SymbolKind::Function };
    let ws = vec![
        Warning::new(WarningKind::AsyncChange, id.clone(), "x".to_string()),
        Warning::new(WarningKind::Signature, id.clone(), "y".to_string()),
    ];
    assert_eq!(summary_line(&ws), "2 warnings: 1 SIGNATURE, 1 ASYNC_CHANGE");
    assert_eq!(summary_line(&vec![]), "0 warnings");
}

#[test]
fn edit_with_signature_change_records_and_reports() {
    let mut graph = CodeGraph::new();
    graph.insert_symbol(sym("src/a.ts", "foo", "foo()", 1));
    graph.insert_symbol(sym("src/a.ts", "gone", "gone()", 1));
    let mut session = SessionState::new();
    let req = request("src/a.ts");
    let out = parsed(vec![sym("src/a.ts", "foo", "foo(x)", 1)], vec![]);
    let resp = apply_change(&mut graph, &mut session, "/proj", &req, Some(out), "@@ hunk".to_string(), None, &no_files());
    assert_eq!(resp.status, ApplyStatus::Applied);
    assert_eq!(resp.summary, "Modified src/a.ts. 0 warnings.");
    assert_eq!(resp.diff_snippet, "@@ hunk");
    assert!(resp.warnings.is_empty());
    let foo = SymbolId { file: "src/a.ts".to_string(), name: "foo".to_string(), kind: SymbolKind::Function };
    let gone = SymbolId { file: "src/a.ts".to_string(), name: "gone".to_string(), kind: SymbolKind::Function };
    assert_eq!(session.edits_ago(&gone), Some(0));
    assert_eq!(session.edits_ago(&foo), Some(1));
    assert!(graph.symbols.get(&gone).is_none());
    assert_eq!(graph.symbols.get(&foo).map(|s| s.signature.clone()), Some("foo(x)".to_string()));
}

#[test]
fn unchanged_symbols_make_a_no_op() {
    let mut graph = CodeGraph::new();
    graph.insert_symbol(sym("src/a.ts", "foo", "foo()", 1));
    let mut session = SessionState::new();
    let req = request("src/a.ts");
    let out = parsed(vec![sym("src/a.ts", "foo", "foo()", 1)], vec![]);
    let resp = apply_change(&mut graph, &mut session, "/proj", &req, Some(out), String::new(), None, &no_files());
    assert_eq!(resp.status, ApplyStatus::NoOp);
    assert_eq!(resp.summary, "No-op edit in src/a.ts. 0 warnings.");
}

#[test]
fn unsupported_language_leaves_graph_alone() {
    let mut graph = CodeGraph::new();
    let mut session = SessionState::new();
    let req = request("README.md");
    let resp = apply_change(&mut graph, &mut session, "/proj", &req, None, String::new(), None, &no_files());
    assert_eq!(resp.status, ApplyStatus::Applied);
    assert_eq!(resp.summary, "Edited README.md (no graph impact — unsupported language)");
}

#[test]
fn create_file_writes_new_file_with_content() {
    let mut graph = CodeGraph::new();
    let mut session = SessionState::new();
    let mut req = request("src/new.ts");
    req.create_file = true;
    req.changes = vec![change("", "export function fresh() {}\n")];
    let out = parsed(vec![sym("src/new.ts", "fresh", "fresh()", 9)], vec![]);
    let resp = apply_change(&mut graph, &mut session, "/proj", &req, Some(out), "ignored".to_string(), None, &no_files());
    assert_eq!(resp.status, ApplyStatus::Created);
    assert_eq!(resp.summary, "Created src/new.ts. 0 warnings.");
    assert_eq!(resp.diff_snippet, "");
    assert_eq!(graph.file_symbols.get(&"src/new.ts".to_string()).map(|ids| ids.len()), Some(1));
}

#[test]
fn delete_file_removes_disk_and_graph_entries() {
    let mut graph = CodeGraph::new();
    graph.insert_symbol(sym("src/gone.ts", "doomed", "doomed()", 0));
    let mut session = SessionState::new();
    let resp = apply_delete(&mut graph, &mut session, &"src/gone.ts".to_string());
    assert_eq!(resp.status, ApplyStatus::Deleted);
    assert_eq!(resp.summary, "Deleted src/gone.ts");
    assert!(graph.file_symbols.get(&"src/gone.ts".to_string()).is_none());
}

#[test]
fn handler_routes_removed_and_written() {
    let mut graph = CodeGraph::new();
    graph.insert_symbol(sym("src/a.ts", "foo", "foo()", 1));
    let mut session = SessionState::new();
    let req = request("src/a.ts");
    let resp = handle(&mut graph, &mut session, "/proj", &req, DiskOutcome::Removed, None, &no_files());
    assert_eq!(resp.status, ApplyStatus::Deleted);
    let out = parsed(vec![sym("src/a.ts", "foo", "foo()", 2)], vec![]);
    let resp = handle(
        &mut graph,
        &mut session,
        "/proj",
        &req,
        DiskOutcome::Written { parsed: Some(out), diff_snippet: String::new() },
        None,
        &no_files(),
    );
    assert_eq!(resp.status, ApplyStatus::Applied);
}

#[test]
fn signature_edit_lists_same_file_caller_in_context() {
    let mut graph = CodeGraph::new();
    let callee = sym("src/handler.ts", "processRequest", "processRequest(req)", 1);
    let caller = Symbol { line_start: 2, line_end: 2, ..sym("src/handler.ts", "api", "api()", 1) };
    let edge = Edge { from: caller.id.clone(), to: callee.id.clone(), kind: EdgeKind::Calls, line: 2, confidence: Confidence::Certain };
    graph.insert_symbol(callee.clone());
    graph.insert_symbol(caller.clone());
    graph.insert_edge(edge.clone());
    let mut session = SessionState::new();
    let req = request("src/handler.ts");
    let new_callee = sym("src/handler.ts", "processRequest", "processRequest(req, res)", 1);
    let out = parsed(vec![new_callee, caller], vec![edge]);
    let resp = apply_change(&mut graph, &mut session, "/proj", &req, Some(out), String::new(), None, &no_files());
    assert_eq!(resp.status, ApplyStatus::Applied);
    assert!(resp.context.callers.iter().any(|c| c.contains("handler.ts")), "got {:?}", resp.context.callers);
}

fn id(file: &str, name: &str, kind: SymbolKind) -> SymbolId {
    SymbolId { file: file.to_string(), name: name.to_string(), kind }
}

fn call(from: &SymbolId, to: &SymbolId, kind: EdgeKind) -> Edge {
    Edge { from: from.clone(), to: to.clone(), kind, line: 2, confidence: Confidence::Certain }
}

#[test]
fn signature_edit_warns_with_cross_file_callers() {
    let mut graph = CodeGraph::new();
    let foo = sym("src/a.ts", "foo", "foo()", 1);
    let bar = sym("src/b.ts", "bar", "bar()", 1);
    graph.insert_symbol(foo.clone());
    graph.insert_symbol(bar.clone());
    graph.insert_edge(call(&bar.id, &foo.id, EdgeKind::Calls));
    let mut session = SessionState::new();
    let out = parsed(vec![sym("src/a.ts", "foo", "foo(x)", 1)], vec![]);
    let resp = apply_change(&mut graph, &mut session, "/proj", &request("src/a.ts"), Some(out), String::new(), None, &no_files());
    assert_eq!(resp.status, ApplyStatus::Applied);
    assert_eq!(resp.warnings.len(), 1);
    assert_eq!(resp.warnings[0].kind, WarningKind::Signature);
    assert_eq!(resp.warnings[0].symbol, foo.id);
    assert_eq!(resp.warnings[0].body, "foo: signature `foo()` -> `foo(x)`; callers: bar (src/b.ts)");
    assert_eq!(resp.summary, "Modified src/a.ts. 1 warnings: 1 SIGNATURE.");
    assert!(resp.context.callers.iter().any(|c| c.contains("bar")), "got {:?}", resp.context.callers);
}

#[test]
fn intra_file_caller_fires_signature_warning() {
    let mut graph = CodeGraph::new();
    let pr = sym("src/handler.ts", "processRequest", "processRequest(req)", 1);
    let api = sym("src/handler.ts", "api", "api()", 2);
    graph.insert_symbol(pr.clone());
    graph.insert_symbol(api.clone());
    graph.insert_edge(call(&api.id, &pr.id, EdgeKind::Calls));
    let mut session = SessionState::new();
    let out = parsed(
        vec![sym("src/handler.ts", "processRequest", "processRequest(req, res)", 1), api.clone()],
        vec![call(&api.id, &pr.id, EdgeKind::Calls)],
    );
    let resp = apply_change(&mut graph, &mut session, "/proj", &request("src/handler.ts"), Some(out), String::new(), None, &no_files());
    assert_eq!(resp.status, ApplyStatus::Applied);
    assert!(resp.warnings.iter().any(|w| w.kind == WarningKind::Signature && w.body.contains("api (src/handler.ts)")));
    assert!(resp.context.callers.iter().any(|c| c.contains("handler.ts")), "got {:?}", resp.context.callers);
}

#[test]
fn async_flip_and_removed_callee_warn() {
    let mut graph = CodeGraph::new();
    let foo = sym("src/a.ts", "foo", "foo()", 1);
    let gone = sym("src/a.ts", "gone", "gone()", 1);
    let bar = sym("src/b.ts", "bar", "bar()", 1);
    graph.insert_symbol(foo.clone());
    graph.insert_symbol(gone.clone());
    graph.insert_symbol(bar.clone());
    graph.insert_edge(call(&bar.id, &foo.id, EdgeKind::Calls));
    graph.insert_edge(call(&bar.id, &gone.id, EdgeKind::Calls));
    let mut session = SessionState::new();
    let mut new_foo = sym("src/a.ts", "foo", "foo()", 1);
    new_foo.is_async = true;
    let out = parsed(vec![new_foo], vec![]);
    let resp = apply_change(&mut graph, &mut session, "/proj", &request("src/a.ts"), Some(out), String::new(), None, &no_files());
    assert_eq!(resp.warnings.len(), 2);
    assert_eq!(resp.warnings[0].kind, WarningKind::AsyncChange);
    assert_eq!(resp.warnings[0].body, "foo became async; callers: bar (src/b.ts)");
    assert_eq!(resp.warnings[1].kind, WarningKind::Orphan);
    assert_eq!(resp.warnings[1].symbol, gone.id);
    assert_eq!(resp.warnings[1].body, "gone was removed; still called by: bar (src/b.ts)");
    assert_eq!(resp.summary, "Modified src/a.ts. 2 warnings: 1 ASYNC_CHANGE, 1 ORPHAN.");
}

#[test]
fn interface_change_warns_its_implementers() {
    let mut graph = CodeGraph::new();
    let mut shape = sym("src/a.ts", "Shape", "interface Shape { x }", 1);
    shape.id.kind = SymbolKind::Interface;
    let circle_id = id("src/b.ts", "Circle", SymbolKind::Class);
    graph.insert_symbol(shape.clone());
    graph.insert_edge(call(&circle_id, &shape.id, EdgeKind::Implements));
    let mut session = SessionState::new();
    let mut new_shape = shape.clone();
    new_shape.signature = "interface Shape { x; y }".to_string();
    let out = parsed(vec![new_shape], vec![]);
    let resp = apply_change(&mut graph, &mut session, "/proj", &request("src/a.ts"), Some(out), String::new(), None, &no_files());
    assert_eq!(resp.warnings.len(), 1);
    assert_eq!(resp.warnings[0].kind, WarningKind::InterfaceBreak);
    assert_eq!(resp.warnings[0].body, "Shape changed shape; dependents: Circle (src/b.ts)");
}

#[test]
fn long_caller_lists_are_clamped() {
    let mut graph = CodeGraph::new();
    let foo = sym("src/a.ts", "foo", "foo()", 1);
    graph.insert_symbol(foo.clone());
    for k in 0..20 {
        let caller = id(&format!("src/caller_{k}.ts"), "caller", SymbolKind::Function);
        graph.insert_edge(call(&caller, &foo.id, EdgeKind::Calls));
    }
    let mut session = SessionState::new();
    let out = parsed(vec![sym("src/a.ts", "foo", "foo(x)", 1)], vec![]);
    let resp = apply_change(&mut graph, &mut session, "/proj", &request("src/a.ts"), Some(out), String::new(), None, &no_files());
    assert_eq!(resp.warnings.len(), 1);
    assert_eq!(resp.warnings[0].body.chars().count(), 200);
    assert!(resp.warnings[0].body.ends_with('…'));
}
