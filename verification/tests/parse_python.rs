use blastguard::edit::apply::{apply_change, apply_changes_text};
use blastguard::edit::{ApplyChangeRequest, ApplyStatus, Change};
use blastguard::graph::impact::WarningKind;
use blastguard::graph::ops::callers;
use blastguard::graph::types::{EdgeKind, SymbolId, SymbolKind, Visibility};
use blastguard::index::indexer::build_graph;
use blastguard::parse::parse_source;
use blastguard::parse::python::extract;
use blastguard::parse::resolve::FileSet;
use blastguard::session::SessionState;

#[test]
fn functions_methods_and_classes() {
    let src = "class Auth:\n    def login(self, user) -> bool:\n        return self._check(user)\n    def _check(self, user):\n        return True\n\nasync def fetch(url):\n    return await get(url)\n";
    let out = extract("src/auth.py", src);
    let auth = out.symbols.iter().find(|s| s.id.name == "Auth").expect("Auth");
    assert_eq!(auth.id.kind, SymbolKind::Class);
    assert_eq!(auth.visibility, Visibility::Export);
    let login = out.symbols.iter().find(|s| s.id.name == "login").expect("login");
    assert_eq!(login.id.kind, SymbolKind::Method);
    assert_eq!(login.visibility, Visibility::Public);
    assert_eq!(login.signature, "login(self, user): bool");
    assert_eq!(login.params, vec!["self".to_string(), "user".to_string()]);
    assert_eq!((login.line_start, login.line_end), (2, 3));
    let check = out.symbols.iter().find(|s| s.id.name == "_check").expect("_check");
    assert_eq!(check.visibility, Visibility::Private);
    let fetch = out.symbols.iter().find(|s| s.id.name == "fetch").expect("fetch");
    assert_eq!(fetch.id.kind, SymbolKind::AsyncFunction);
    assert!(fetch.is_async);
    assert!(out.edges.iter().any(|e| e.kind == EdgeKind::Calls
        && e.from.name == "login"
        && e.from.kind == SymbolKind::Method
        && e.to.name == "_check"));
    assert!(out.edges.iter().any(|e| e.kind == EdgeKind::Calls && e.from.name == "fetch" && e.to.name == "get"));
    assert!(!out.partial_parse);
}

#[test]
fn imports_become_unresolved_module_edges() {
    let src = "import os, pkg.sub as s\nfrom utils.auth import login\nfrom ..mid import thing\nfrom . import sibling\n";
    let out = extract("src/handler.py", src);
    let specs: Vec<(&str, u32)> = out
        .edges
        .iter()
        .filter(|e| e.kind == EdgeKind::Imports)
        .map(|e| (e.to.file.as_str(), e.line))
        .collect();
    assert_eq!(specs, vec![("os", 1), ("pkg.sub", 1), ("utils.auth", 2), ("..mid", 3), (".", 4)]);
    assert!(out.edges.iter().all(|e| e.from.name == "handler" && e.from.kind == SymbolKind::Module));
}

#[test]
fn module_level_calls_have_no_edge_and_errors_mark_partial() {
    let out = extract("src/m.py", "main()\n");
    assert!(out.edges.is_empty());
    assert!(extract("src/b.py", "def f():\n    return 1\n)\n").partial_parse);
}

#[test]
fn signature_edit_cross_file_python_cascade() {
    let auth_path = "/proj/src/utils/auth.py";
    let handler_path = "/proj/src/handler.py";
    let auth = "def login(user):\n    return user\n";
    let handler = "from utils.auth import login\n\ndef handle(req):\n    return login(req)\n";
    let files = FileSet { files: vec![auth_path.to_string(), handler_path.to_string()] };
    let parses = vec![parse_source(auth_path, auth).expect("auth"), parse_source(handler_path, handler).expect("handler")];
    let mut graph = build_graph(parses, "/proj", None, &files);
    let login = SymbolId { file: auth_path.to_string(), name: "login".to_string(), kind: SymbolKind::Function };
    assert_eq!(callers(&graph, &login).len(), 1, "the call resolves across files");
    let mut session = SessionState::new();
    let changes = vec![Change { old_text: "def login(user):".to_string(), new_text: "def login(user, token):".to_string() }];
    let (after, snippet) = apply_changes_text(auth_path, auth, &changes).expect("edit applies");
    let req = ApplyChangeRequest { file: auth_path.to_string(), changes, create_file: false, delete_file: false };
    let resp = apply_change(&mut graph, &mut session, "/proj", &req, parse_source(auth_path, &after), snippet, None, &files);
    assert_eq!(resp.status, ApplyStatus::Applied);
    let sig_warning = resp
        .warnings
        .iter()
        .find(|w| w.kind == WarningKind::Signature)
        .unwrap_or_else(|| panic!("expected SIGNATURE warning naming the cross-file caller; got {:?}", resp.warnings));
    assert!(sig_warning.body.contains("handle"), "warning body should name `handle` (cross-file caller); got: {}", sig_warning.body);
    assert_eq!(callers(&graph, &login).len(), 1, "the caller is attached again after the edit");
}
