use blastguard::edit::apply::{apply_change, apply_changes_text};
use blastguard::edit::{ApplyChangeRequest, ApplyStatus, Change};
use blastguard::graph::impact::WarningKind;
use blastguard::graph::types::{Confidence, EdgeKind, SymbolKind, Visibility};
use blastguard::index::indexer::build_graph;
use blastguard::parse::resolve::FileSet;
use blastguard::parse::{javascript, parse_source, typescript};
use blastguard::session::SessionState;

const HANDLER: &str = "export function processRequest(req) { return req; }\nexport function api() { return processRequest({}); }\n";

#[test]
fn signature_edit_fires_signature_warning() {
    let path = "src/handler.ts";
    let files = FileSet { files: vec![path.to_string()] };
    let before = parse_source(path, HANDLER).expect("ts");
    let mut graph = build_graph(vec![before], "/proj", None, &files);
    let mut session = SessionState::new();
    let changes = vec![Change { old_text: "processRequest(req)".to_string(), new_text: "processRequest(req, res)".to_string() }];
    let (after, snippet) = apply_changes_text(path, HANDLER, &changes).expect("edit applies");
    let req = ApplyChangeRequest { file: path.to_string(), changes, create_file: false, delete_file: false };
    let parsed = parse_source(path, &after);
    let resp = apply_change(&mut graph, &mut session, "/proj", &req, parsed, snippet, None, &files);
    assert_eq!(resp.status, ApplyStatus::Applied);
    assert!(resp.warnings.iter().any(|w| w.kind == WarningKind::Signature), "expected SIGNATURE; got {:?}", resp.warnings);
    assert!(resp.context.callers.iter().any(|c| c.contains("handler.ts")), "expected handler.ts in callers; got {:?}", resp.context.callers);
}

#[test]
fn typescript_functions_calls_and_imports() {
    let src = "import { helper } from './util';\nexport async function load(id: string): Promise<number> {\n  return helper(id);\n}\nfunction local(a, b) { return a.run(); }\n";
    let out = typescript::extract("src/a.ts", src);
    let load = out.symbols.iter().find(|s| s.id.name == "load").expect("load");
    assert_eq!(load.id.kind, SymbolKind::AsyncFunction);
    assert!(load.is_async);
    assert_eq!(load.visibility, Visibility::Export);
    assert_eq!(load.signature, "load(id: string): Promise<number>");
    assert_eq!(load.params, vec!["id: string".to_string()]);
    assert_eq!(load.return_type.as_deref(), Some("Promise<number>"));
    assert_eq!((load.line_start, load.line_end), (2, 4));
    let local = out.symbols.iter().find(|s| s.id.name == "local").expect("local");
    assert_eq!(local.visibility, Visibility::Private);
    assert_eq!(local.params, vec!["a".to_string(), "b".to_string()]);
    assert!(out.edges.iter().any(|e| e.kind == EdgeKind::Imports
        && e.to.file == "./util"
        && e.from.name == "a"
        && e.confidence == Confidence::Unresolved
        && e.line == 1));
    assert!(out.edges.iter().any(|e| e.kind == EdgeKind::Calls
        && e.from.name == "load"
        && e.from.kind == SymbolKind::AsyncFunction
        && e.to.name == "helper"));
    assert!(out.edges.iter().any(|e| e.kind == EdgeKind::Calls && e.from.name == "local" && e.to.name == "run"));
    assert!(!out.partial_parse);
}

#[test]
fn typescript_classes_interfaces_and_aliases() {
    let src = "export interface Shape { area(): number }\ntype Id = string;\nexport class Circle implements Shape {\n  private secret() { return 1; }\n  area(): number { return this.secret(); }\n}\n";
    let out = typescript::extract("src/shapes.ts", src);
    let shape = out.symbols.iter().find(|s| s.id.name == "Shape").expect("Shape");
    assert_eq!(shape.id.kind, SymbolKind::Interface);
    assert_eq!(shape.signature, "interface Shape { area(): number }");
    assert_eq!(shape.visibility, Visibility::Export);
    let id = out.symbols.iter().find(|s| s.id.name == "Id").expect("Id");
    assert_eq!(id.id.kind, SymbolKind::TypeAlias);
    assert_eq!(id.visibility, Visibility::Private);
    let circle = out.symbols.iter().find(|s| s.id.name == "Circle").expect("Circle");
    assert_eq!(circle.id.kind, SymbolKind::Class);
    let secret = out.symbols.iter().find(|s| s.id.name == "secret").expect("secret");
    assert_eq!(secret.id.kind, SymbolKind::Method);
    assert_eq!(secret.visibility, Visibility::Private);
    let area = out.symbols.iter().find(|s| s.id.name == "area" && s.id.kind == SymbolKind::Method).expect("area");
    assert_eq!(area.visibility, Visibility::Public);
    assert_eq!(area.return_type.as_deref(), Some("number"));
    assert!(out.edges.iter().any(|e| e.kind == EdgeKind::Calls
        && e.from.name == "area"
        && e.from.kind == SymbolKind::Method
        && e.to.name == "secret"));
    assert!(out.edges.iter().any(|e| e.kind == EdgeKind::Implements
        && e.from.name == "Circle"
        && e.from.kind == SymbolKind::Class
        && e.to.name == "Shape"
        && e.to.kind == SymbolKind::Interface
        && e.line == 3));
}

#[test]
fn interface_edit_warns_its_implementers() {
    let path = "src/shapes.ts";
    let before = "export interface Shape { area(): number }\nexport class Circle implements Shape { area(): number { return 1; } }\n";
    let files = FileSet { files: vec![path.to_string()] };
    let mut graph = build_graph(vec![parse_source(path, before).expect("ts")], "/proj", None, &files);
    let mut session = SessionState::new();
    let changes = vec![Change { old_text: "area(): number }\n".to_string(), new_text: "area(): number; name: string }\n".to_string() }];
    let (after, snippet) = apply_changes_text(path, before, &changes).expect("edit applies");
    let req = ApplyChangeRequest { file: path.to_string(), changes, create_file: false, delete_file: false };
    let resp = apply_change(&mut graph, &mut session, "/proj", &req, parse_source(path, &after), snippet, None, &files);
    let w = resp.warnings.iter().find(|w| w.kind == WarningKind::InterfaceBreak).expect("INTERFACE_BREAK");
    assert_eq!(w.body, "Shape changed shape; dependents: Circle (src/shapes.ts)");
}

#[test]
fn arrow_consts_jsx_and_require() {
    let src = "const util = require('./util');\nexport const Card = async (props) => {\n  return <Radix.Button><Icon /></Radix.Button>;\n};\nconst twice = function (x) { return util.double(x); };\n";
    let out = javascript::extract("src/card.jsx", src);
    let card = out.symbols.iter().find(|s| s.id.name == "Card").expect("Card");
    assert_eq!(card.id.kind, SymbolKind::AsyncFunction);
    assert_eq!(card.visibility, Visibility::Export);
    assert_eq!(card.signature, "Card(props)");
    let twice = out.symbols.iter().find(|s| s.id.name == "twice").expect("twice");
    assert_eq!(twice.id.kind, SymbolKind::Function);
    assert_eq!(twice.visibility, Visibility::Private);
    assert!(out.edges.iter().any(|e| e.kind == EdgeKind::Imports && e.to.file == "./util"));
    assert!(out.edges.iter().any(|e| e.kind == EdgeKind::Calls && e.from.name == "Card" && e.to.name == "Button"));
    assert!(out.edges.iter().any(|e| e.kind == EdgeKind::Calls && e.from.name == "Card" && e.to.name == "Icon"));
    assert!(out.edges.iter().any(|e| e.kind == EdgeKind::Calls && e.from.name == "twice" && e.to.name == "double"));
    assert!(!out.edges.iter().any(|e| e.kind == EdgeKind::Calls && e.to.name == "require"));
}

#[test]
fn tsx_files_use_the_tsx_grammar() {
    let src = "export function App(): JSX.Element { return <Header title=\"x\" />; }\n";
    let out = typescript::extract("src/App.tsx", src);
    assert!(!out.partial_parse);
    assert!(out.edges.iter().any(|e| e.kind == EdgeKind::Calls && e.from.name == "App" && e.to.name == "Header"));
    let broken = typescript::extract("src/b.ts", "function (");
    assert!(broken.partial_parse);
}

#[test]
fn anonymous_callbacks_are_looked_through_and_calls_dedup() {
    let src = "function run(xs) { xs.map(x => check(x)); check(1); }\n";
    let out = javascript::extract("src/run.js", src);
    let calls: Vec<_> = out.edges.iter().filter(|e| e.kind == EdgeKind::Calls && e.from.name == "run" && e.to.name == "check").collect();
    assert_eq!(calls.len(), 1);
    assert!(out.edges.iter().any(|e| e.kind == EdgeKind::Calls && e.from.name == "run" && e.to.name == "map"));
}
