use blastguard::index::cache::{content_hash, digest_to_u64, tree_hash};
use blastguard::assoc::AssocMap;
use blastguard::graph::types::{CodeGraph, Confidence, Edge, EdgeKind, Symbol, SymbolId, SymbolKind, Visibility};
use blastguard::index::indexer::{build_graph, plan_refresh, refresh_graph, reindex_file, root_unchanged};
use blastguard::index::watcher::{handle_event, is_relevant, WatchEvent};
use blastguard::parse::resolve::FileSet;
use blastguard::parse::ParseOutput;

fn sym(file: &str, name: &str) -> Symbol {
    Symbol {
        id: SymbolId { file: file.to_string(), name: name.to_string(), kind: SymbolKind::Function },
        line_start: 1,
        line_end: 2,
        signature: format!("{name}()"),
        params: vec![],
        return_type: None,
        visibility: Visibility::Export,
        body_hash: 7,
        is_async: false,
        embedding_id: None,
    }
}

fn id(file: &str, name: &str) -> SymbolId {
    SymbolId { file: file.to_string(), name: name.to_string(), kind: SymbolKind::Function }
}

fn parse(symbols: Vec<Symbol>, edges: Vec<Edge>) -> ParseOutput {
    ParseOutput { symbols, edges, library_imports: vec![], partial_parse: false }
}

fn no_files() -> FileSet {
    FileSet { files: vec![] }
}

fn hashes(entries: &[(&str, u64)]) -> AssocMap<String, u64> {
    let mut m = AssocMap::new();
    for (p, h) in entries {
        m.insert(p.to_string(), *h);
    }
    m
}

fn current(entries: &[(&str, u64)]) -> Vec<(String, u64)> {
    entries.iter().map(|(p, h)| (p.to_string(), *h)).collect()
}

#[test]
fn refresh_plan_lists_changed_new_and_deleted_files() {
    let cached = hashes(&[("src/a.ts", 1), ("src/b.ts", 2), ("src/c.ts", 3)]);
    let now = current(&[("src/a.ts", 1), ("src/b.ts", 5), ("src/d.ts", 4)]);
    let plan = plan_refresh(&cached, &now);
    assert_eq!(plan.changed, vec!["src/b.ts".to_string(), "src/d.ts".to_string()]);
    assert_eq!(plan.deleted, vec!["src/c.ts".to_string()]);
}

#[test]
fn refresh_plan_is_empty_when_hashes_are_unchanged() {
    let cached = hashes(&[("src/a.ts", 1), ("src/b.ts", 2)]);
    let now = current(&[("src/a.ts", 1), ("src/b.ts", 2)]);
    let plan = plan_refresh(&cached, &now);
    assert!(plan.changed.is_empty());
    assert!(plan.deleted.is_empty());
}

#[test]
fn refresh_plan_from_empty_cache_rereads_everything() {
    let cached = hashes(&[]);
    let now = current(&[("x.py", 9), ("y.rs", 8)]);
    let plan = plan_refresh(&cached, &now);
    assert_eq!(plan.changed, vec!["x.py".to_string(), "y.rs".to_string()]);
    assert!(plan.deleted.is_empty());
}

#[test]
fn root_hash_match_takes_the_fast_path() {
    let tree = hashes(&[("/proj", 42)]);
    assert!(root_unchanged(&tree, &"/proj".to_string(), 42));
    assert!(!root_unchanged(&tree, &"/proj".to_string(), 43));
    assert!(!root_unchanged(&tree, &"/other".to_string(), 42));
}

#[test]
fn build_graph_inserts_every_parse() {
    let a = sym("src/a.ts", "foo");
    let b = sym("src/b.py", "bar");
    let edge = Edge { from: b.id.clone(), to: a.id.clone(), kind: EdgeKind::Calls, line: 3, confidence: Confidence::Certain };
    let g = build_graph(vec![parse(vec![a], vec![]), parse(vec![b], vec![edge])], "/proj", None, &no_files());
    assert!(g.symbols.get(&id("src/a.ts", "foo")).is_some());
    assert!(g.symbols.get(&id("src/b.py", "bar")).is_some());
    assert_eq!(g.reverse_edges.get(&id("src/a.ts", "foo")).map(Vec::len), Some(1));
    assert_eq!(g.centrality.get(&id("src/a.ts", "foo")).copied(), Some(1));
}

#[test]
fn build_graph_of_no_parses_is_empty() {
    let g = build_graph(vec![], "/proj", None, &no_files());
    assert_eq!(g.symbols.len(), 0);
    assert_eq!(g.file_symbols.len(), 0);
}

#[test]
fn refresh_drops_deleted_and_replaces_changed_files() {
    let mut g = build_graph(
        vec![parse(vec![sym("a.ts", "keep")], vec![]), parse(vec![sym("b.ts", "old")], vec![]), parse(vec![sym("c.ts", "gone")], vec![])],
        "/proj",
        None,
        &no_files(),
    );
    refresh_graph(
        &mut g,
        &vec!["c.ts".to_string()],
        &vec!["b.ts".to_string()],
        vec![parse(vec![sym("b.ts", "new")], vec![])],
        "/proj",
        None,
        &no_files(),
    );
    assert!(g.symbols.get(&id("a.ts", "keep")).is_some());
    assert!(g.symbols.get(&id("b.ts", "old")).is_none());
    assert!(g.symbols.get(&id("b.ts", "new")).is_some());
    assert!(g.symbols.get(&id("c.ts", "gone")).is_none());
    assert!(g.file_symbols.get(&"c.ts".to_string()).is_none());
}

#[test]
fn reindex_replaces_a_files_symbols() {
    let mut g = build_graph(vec![parse(vec![sym("a.ts", "first")], vec![])], "/proj", None, &no_files());
    reindex_file(&mut g, &"a.ts".to_string(), parse(vec![sym("a.ts", "second")], vec![]), "/proj", None, &no_files());
    assert!(g.symbols.get(&id("a.ts", "first")).is_none());
    assert!(g.symbols.get(&id("a.ts", "second")).is_some());
}

#[test]
fn source_extension_is_relevant() {
    assert!(is_relevant("/tmp/proj/src/a.ts", "/tmp/proj", false));
    assert!(is_relevant("/tmp/proj/src/b.py", "/tmp/proj", false));
    assert!(is_relevant("/tmp/proj/src/c.rs", "/tmp/proj", false));
}

#[test]
fn non_source_extension_is_filtered() {
    assert!(!is_relevant("/tmp/proj/README.md", "/tmp/proj", false));
    assert!(!is_relevant("/tmp/proj/Cargo.toml", "/tmp/proj", false));
}

#[test]
fn path_outside_root_is_filtered() {
    assert!(!is_relevant("/tmp/unrelated.ts", "/tmp/proj", false));
}

#[test]
fn gitignored_path_is_filtered() {
    assert!(!is_relevant("/tmp/proj/node_modules/pkg.ts", "/tmp/proj", true));
    assert!(is_relevant("/tmp/proj/src/a.ts", "/tmp/proj", false));
}

#[test]
fn modify_event_drops_and_reinserts_symbols() {
    let root = "/proj";
    let file = "/proj/src/a.ts".to_string();
    let mut g = build_graph(vec![parse(vec![sym(&file, "first")], vec![])], root, None, &no_files());
    handle_event(&mut g, &file, false, WatchEvent::Changed(parse(vec![sym(&file, "second")], vec![])), root, None, &no_files());
    assert!(g.symbols.get(&id(&file, "first")).is_none());
    assert!(g.symbols.get(&id(&file, "second")).is_some());
}

#[test]
fn delete_event_removes_file_symbols() {
    let root = "/proj";
    let file = "/proj/src/gone.ts".to_string();
    let mut g = build_graph(vec![parse(vec![sym(&file, "doomed")], vec![])], root, None, &no_files());
    handle_event(&mut g, &file, false, WatchEvent::Removed, root, None, &no_files());
    assert!(g.symbols.get(&id(&file, "doomed")).is_none());
}

#[test]
fn watcher_ignores_irrelevant_events() {
    let root = "/proj";
    let file = "/proj/src/a.ts".to_string();
    let mut g = build_graph(vec![parse(vec![sym(&file, "kept")], vec![])], root, None, &no_files());
    handle_event(&mut g, &file, true, WatchEvent::Removed, root, None, &no_files());
    assert!(g.symbols.get(&id(&file, "kept")).is_some());
    let mut empty = CodeGraph::new();
    handle_event(&mut empty, &"/elsewhere/b.ts".to_string(), false, WatchEvent::Changed(parse(vec![sym("/elsewhere/b.ts", "x")], vec![])), root, None, &no_files());
    assert_eq!(empty.symbols.len(), 0);
}

#[test]
fn content_hash_reads_the_digest_little_endian() {
    // BLAKE3 of the empty input begins af 13 49 b9 f5 f9 a1 a6.
    assert_eq!(content_hash(b""), 0xa6a1_f9f5_b949_13af);
    assert_ne!(content_hash(b"a"), content_hash(b"b"));
}

#[test]
fn tree_hash_covers_paths_and_hashes() {
    let a = vec![("src/a.rs".to_string(), 1u64)];
    let b = vec![("src/b.rs".to_string(), 1u64)];
    let c = vec![("src/a.rs".to_string(), 2u64)];
    assert_ne!(tree_hash(&a), tree_hash(&b));
    assert_ne!(tree_hash(&a), tree_hash(&c));
    let mut bytes = b"src/a.rs".to_vec();
    bytes.extend_from_slice(&1u64.to_le_bytes());
    assert_eq!(tree_hash(&a), content_hash(&bytes));
    assert_eq!(tree_hash(&vec![]), content_hash(b""));
}

#[test]
fn digest_prefix_is_little_endian() {
    let d: Vec<u8> = vec![1, 2, 0, 0, 0, 0, 0, 0, 9, 9];
    assert_eq!(digest_to_u64(&d), 0x0201);
    let d: Vec<u8> = vec![0xff; 8];
    assert_eq!(digest_to_u64(&d), u64::MAX);
}
