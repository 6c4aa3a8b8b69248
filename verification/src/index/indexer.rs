//! Assembling the graph from parses: a cold index builds it from every
//! file's parse, a warm start drops the files that went away or changed
//! and inserts the new parses, and a single file is re-indexed after an
//! edit or a watcher event. Which files a warm start has to re-read
//! follows from the cached and current content hashes.

use vstd::prelude::*;

use crate::assoc::{keys_unique, AssocMap};
use crate::graph::types::{
    centrality_under, count_into, edge_inserted, file_removed, owned_ids, removed_edges, restitched, reveal_filter_push, sat_sub,
    symbol_inserted, CodeGraph, Edge, LibraryImport, Symbol, SymbolId, SymbolKind,
};
use crate::parse::resolve::{opt_tc, resolve_imports, rewrite_all, rewrites_view, table_rewrites, tables, FileSet, IdKey, TsConfig};
use crate::parse::calls::{calls_resolved, resolve_calls};
use crate::parse::ParseOutput;
use crate::edit::context::texts_of;

verus! {

// ------------------------------------------------------------------
// What inserting parses does to the graph.
// ------------------------------------------------------------------

/// `b` is `a` with `syms` inserted one after another.
pub open spec fn symbols_inserted(a: CodeGraph, syms: Seq<Symbol>, b: CodeGraph) -> bool
    decreases syms.len(),
{
    if syms.len() == 0 {
        b == a
    } else {
        exists|m: CodeGraph| symbols_inserted(a, syms.drop_last(), m) && #[trigger] symbol_inserted(m, syms.last(), b)
    }
}

/// `b` is `a` with `es` inserted one after another.
pub open spec fn edges_inserted(a: CodeGraph, es: Seq<Edge>, b: CodeGraph) -> bool
    decreases es.len(),
{
    if es.len() == 0 {
        b == a
    } else {
        exists|m: CodeGraph| edges_inserted(a, es.drop_last(), m) && #[trigger] edge_inserted(m, es.last(), b)
    }
}

/// `b` is `a` with `libs` added to its library imports.
pub open spec fn imports_appended(a: CodeGraph, libs: Seq<LibraryImport>, b: CodeGraph) -> bool {
    &&& b.library_imports@ == a.library_imports@ + libs
    &&& b.symbols == a.symbols
    &&& b.file_symbols == a.file_symbols
    &&& b.forward_edges == a.forward_edges
    &&& b.reverse_edges == a.reverse_edges
    &&& b.centrality == a.centrality
}

/// `b` is `a` after [`resolve_imports`].
pub open spec fn imports_resolved(a: CodeGraph, files: FileSet, root: Seq<char>, tc: Option<TsConfig>, b: CodeGraph) -> bool {
    &&& exists|rs: Seq<(SymbolId, usize, String)>|
        rewrites_view(rs) == table_rewrites(files, root, tc, a.forward_edges.entry_seq(), a.forward_edges.entry_seq().len() as int)
            && #[trigger] rewrite_all(tables(&a), rs) == tables(&b)
    &&& b.symbols@ == a.symbols@
    &&& b.file_symbols@ == a.file_symbols@
    &&& b.library_imports@ == a.library_imports@
}

/// `b` is `a` with the parse `out` inserted: its symbols, then its edges,
/// each in order, then its library imports.
pub open spec fn parse_inserted(a: CodeGraph, out: ParseOutput, b: CodeGraph) -> bool {
    exists|g1: CodeGraph, g2: CodeGraph|
        #[trigger] symbols_inserted(a, out.symbols@, g1) && #[trigger] edges_inserted(g1, out.edges@, g2)
            && imports_appended(g2, out.library_imports@, b)
}

/// `b` is `a` with the parses `outs` inserted one after another.
pub open spec fn parses_inserted(a: CodeGraph, outs: Seq<ParseOutput>, b: CodeGraph) -> bool
    decreases outs.len(),
{
    if outs.len() == 0 {
        b == a
    } else {
        exists|m: CodeGraph| parses_inserted(a, outs.drop_last(), m) && #[trigger] parse_inserted(m, outs.last(), b)
    }
}

/// `b` is `a` with the files `fs` removed one after another.
pub open spec fn files_removed(a: CodeGraph, fs: Seq<Seq<char>>, b: CodeGraph) -> bool
    decreases fs.len(),
{
    if fs.len() == 0 {
        b == a
    } else {
        exists|m: CodeGraph| files_removed(a, fs.drop_last(), m) && #[trigger] file_removed(m, fs.last(), b)
    }
}

/// The number of edges in the parses `outs`.
pub open spec fn edge_total(outs: Seq<ParseOutput>) -> nat
    decreases outs.len(),
{
    if outs.len() == 0 {
        0
    } else {
        edge_total(outs.drop_last()) + outs.last().edges@.len()
    }
}

/// `g` holds nothing.
pub open spec fn empty_graph(g: CodeGraph) -> bool {
    &&& g.symbols@ == Map::<(Seq<char>, Seq<char>, SymbolKind), Symbol>::empty()
    &&& g.forward_edges@ == Map::<(Seq<char>, Seq<char>, SymbolKind), Vec<Edge>>::empty()
    &&& g.reverse_edges@ == Map::<(Seq<char>, Seq<char>, SymbolKind), Vec<Edge>>::empty()
    &&& g.file_symbols@ == Map::<Seq<char>, Vec<SymbolId>>::empty()
    &&& g.centrality@ == Map::<(Seq<char>, Seq<char>, SymbolKind), u32>::empty()
    &&& g.library_imports@.len() == 0
}

/// `b` is `a` re-indexed for `file` from the parse `out`: the file's old
/// symbols and edges removed, the parse inserted, import edges and then
/// calls resolved, and the callers in other files attached again.
pub open spec fn reindexed(a: CodeGraph, file: Seq<char>, out: ParseOutput, files: FileSet, root: Seq<char>, tc: Option<TsConfig>, b: CodeGraph) -> bool {
    exists|g1: CodeGraph, g2: CodeGraph, g3: CodeGraph, g4: CodeGraph|
        #[trigger] file_removed(a, file, g1) && #[trigger] parse_inserted(g1, out, g2) && #[trigger] imports_resolved(
            g2,
            files,
            root,
            tc,
            g3,
        ) && #[trigger] calls_resolved(g3, g4) && restitched(g4, file, b)
}

/// `b` is `a` with the callers of the files `fs` attached again, one file
/// after another.
pub open spec fn files_restitched(a: CodeGraph, fs: Seq<Seq<char>>, b: CodeGraph) -> bool
    decreases fs.len(),
{
    if fs.len() == 0 {
        b == a
    } else {
        exists|m: CodeGraph| files_restitched(a, fs.drop_last(), m) && #[trigger] restitched(m, fs.last(), b)
    }
}

/// The file of the first symbol of each parse that has one, in order.
pub open spec fn first_files(outs: Seq<ParseOutput>) -> Seq<Seq<char>>
    decreases outs.len(),
{
    if outs.len() == 0 {
        Seq::empty()
    } else {
        first_files(outs.drop_last()) + if outs.last().symbols@.len() > 0 {
            seq![outs.last().symbols@[0].id.file@]
        } else {
            Seq::empty()
        }
    }
}

/// The file of the first symbol of each parse that has one.
fn first_files_of(outs: &Vec<ParseOutput>) -> (r: Vec<String>)
    ensures
        texts_of(r@) == first_files(outs@),
{
    let mut out: Vec<String> = Vec::new();
    let mut i: usize = 0;
    assert(outs@.take(0) =~= Seq::<ParseOutput>::empty());
    while i < outs.len()
        invariant
            i <= outs@.len(),
            texts_of(out@) == first_files(outs@.take(i as int)),
        decreases outs@.len() - i,
    {
        let ghost before = out@;
        assert(outs@.take(i + 1).drop_last() =~= outs@.take(i as int));
        assert(outs@.take(i + 1).last() == outs@[i as int]);
        if outs[i].symbols.len() > 0 {
            out.push(outs[i].symbols[0].id.file.clone());
            assert(texts_of(out@) =~= texts_of(before).push(outs@[i as int].symbols@[0].id.file@));
        }
        i = i + 1;
    }
    assert(outs@.take(outs@.len() as int) =~= outs@);
    out
}

/// Attach again the callers of the files `fs`, one after another.
fn restitch_files(graph: &mut CodeGraph, fs: &Vec<String>)
    requires
        old(graph).wf(),
    ensures
        final(graph).wf(),
        files_restitched(*old(graph), texts_of(fs@), *final(graph)),
{
    let ghost g0 = *graph;
    let ghost all = texts_of(fs@);
    let mut i: usize = 0;
    assert(all.take(0) =~= Seq::<Seq<char>>::empty());
    while i < fs.len()
        invariant
            i <= fs@.len(),
            all == texts_of(fs@),
            graph.wf(),
            files_restitched(g0, all.take(i as int), *graph),
        decreases fs@.len() - i,
    {
        let ghost before = *graph;
        graph.restitch_reverse_edges_for_file(&fs[i]);
        assert(all.take(i + 1).drop_last() =~= all.take(i as int));
        assert(restitched(before, all.take(i + 1).last(), *graph));
        i = i + 1;
    }
    assert(all.take(fs@.len() as int) =~= all);
}

/// Removing a file never raises a centrality.
proof fn lemma_removed_centrality(a: CodeGraph, file: Seq<char>, b: CodeGraph, k: IdKey)
    requires
        file_removed(a, file, b),
    ensures
        centrality_under(b.centrality@, k) <= centrality_under(a.centrality@, k),
{
    if b.centrality@.dom().contains(k) {
        assert(b.centrality@[k] as nat == sat_sub(a.centrality@[k] as nat, count_into(
            removed_edges(a.forward_edges@, owned_ids(a, file)),
            k,
        )));
    }
}

/// There is room in the centrality table for `n` more edges.
pub open spec fn centrality_room(g: &CodeGraph, n: nat) -> bool {
    forall|k: IdKey| #[trigger] centrality_under(g.centrality@, k) + n < u32::MAX
}


/// Insert the parse `out`: its symbols, then its edges, then its library
/// imports. Each edge raises the centrality of its target by one.
pub fn insert_parse(graph: &mut CodeGraph, out: ParseOutput)
    requires
        old(graph).wf(),
        centrality_room(old(graph), out.edges@.len()),
    ensures
        final(graph).wf(),
        parse_inserted(*old(graph), out, *final(graph)),
        forall|k: IdKey| #[trigger] centrality_under(final(graph).centrality@, k) <= centrality_under(old(graph).centrality@, k) + out.edges@.len(),
{
    let ghost g0 = *graph;
    let ghost g1 = *graph;
    let ghost out0 = out;
    let ParseOutput { symbols, edges, library_imports, partial_parse: _ } = out;
    let mut syms = symbols;
    let ghost all_syms = syms@;
    let ghost mut i: int = 0;
    assert(all_syms.take(0) =~= Seq::<Symbol>::empty());
    while syms.len() > 0
        invariant
            graph.wf(),
            0 <= i <= all_syms.len(),
            syms@ == all_syms.skip(i),
            symbols_inserted(g1, all_syms.take(i), *graph),
            graph.centrality@ == g1.centrality@,
        decreases syms@.len(),
    {
        let ghost before = *graph;
        let s = syms.remove(0);
        assert(s == all_syms[i]);
        graph.insert_symbol(s);
        assert(all_syms.take(i + 1).drop_last() =~= all_syms.take(i));
        assert(symbol_inserted(before, all_syms.take(i + 1).last(), *graph));
        assert(syms@ =~= all_syms.skip(i + 1));
        proof {
            i = i + 1;
        }
    }
    assert(all_syms.take(i) =~= all_syms);
    let ghost g2 = *graph;
    let mut es = edges;
    let ghost all_es = es@;
    let ghost mut j: int = 0;
    assert(all_es.take(0) =~= Seq::<Edge>::empty());
    while es.len() > 0
        invariant
            graph.wf(),
            0 <= j <= all_es.len(),
            es@ == all_es.skip(j),
            edges_inserted(g2, all_es.take(j), *graph),
            forall|k: IdKey| #[trigger] centrality_under(graph.centrality@, k) <= centrality_under(g0.centrality@, k) + j,
            centrality_room(&g0, all_es.len()),
        decreases es@.len(),
    {
        let ghost before = *graph;
        let e = es.remove(0);
        assert(e == all_es[j]);
        assert(centrality_under(graph.centrality@, e.to@) < u32::MAX);
        let ghost to = e.to@;
        graph.insert_edge(e);
        assert(all_es.take(j + 1).drop_last() =~= all_es.take(j));
        assert(edge_inserted(before, all_es.take(j + 1).last(), *graph));
        assert(es@ =~= all_es.skip(j + 1));
        assert forall|k: IdKey| #[trigger] centrality_under(graph.centrality@, k) <= centrality_under(g0.centrality@, k) + j + 1 by {
            if k != to {
                assert(centrality_under(graph.centrality@, k) == centrality_under(before.centrality@, k));
            }
        }
        proof {
            j = j + 1;
        }
    }
    assert(all_es.take(j) =~= all_es);
    let ghost g3 = *graph;
    let mut libs = library_imports;
    let ghost all_libs = libs@;
    graph.library_imports.append(&mut libs);
    let ghost g4 = *graph;
    assert(imports_appended(g3, all_libs, g4));
    proof {
        assert(symbols_inserted(g1, out0.symbols@, g2));
        assert(edges_inserted(g2, out0.edges@, g3));
        assert(parse_inserted(g0, out0, *graph));
    }
}

/// Re-index `file` from the parse `out`: drop what the graph held for it,
/// insert the parse, resolve import edges and then calls, and attach again
/// the callers that other files hold.
pub fn reindex_file(graph: &mut CodeGraph, file: &String, out: ParseOutput, root: &str, tsconfig: Option<&TsConfig>, files: &FileSet)
    requires
        old(graph).wf(),
        centrality_room(old(graph), out.edges@.len()),
    ensures
        final(graph).wf(),
        reindexed(*old(graph), file@, out, *files, root@, opt_tc(tsconfig), *final(graph)),
{
    let ghost g0 = *graph;
    let ghost out0 = out;
    graph.remove_file(file);
    let ghost g1 = *graph;
    assert forall|k: IdKey| #[trigger] centrality_under(g1.centrality@, k) + out0.edges@.len() < u32::MAX by {
        lemma_removed_centrality(g0, file@, g1, k);
    }
    insert_parse(graph, out);
    let ghost g2 = *graph;
    resolve_imports(graph, root, tsconfig, files);
    let ghost g3 = *graph;
    resolve_calls(graph);
    let ghost g4 = *graph;
    graph.restitch_reverse_edges_for_file(file);
    assert(file_removed(g0, file@, g1));
    assert(parse_inserted(g1, out0, g2));
    assert(imports_resolved(g2, *files, root@, opt_tc(tsconfig), g3));
    assert(calls_resolved(g3, g4));
    assert(restitched(g4, file@, *graph));
}


/// The edges of a prefix of `outs` are no more than those of all of them.
proof fn lemma_edge_total_prefix(outs: Seq<ParseOutput>, i: int)
    requires
        0 <= i <= outs.len(),
    ensures
        edge_total(outs.take(i)) <= edge_total(outs),
    decreases outs.len(),
{
    if i < outs.len() {
        assert(outs.take(i) =~= outs.drop_last().take(i));
        lemma_edge_total_prefix(outs.drop_last(), i);
    } else {
        assert(outs.take(i) =~= outs);
    }
}

/// Insert the parses `outs` one after another.
fn insert_parses(graph: &mut CodeGraph, outs: Vec<ParseOutput>)
    requires
        old(graph).wf(),
        centrality_room(old(graph), edge_total(outs@)),
    ensures
        final(graph).wf(),
        parses_inserted(*old(graph), outs@, *final(graph)),
{
    let ghost g0 = *graph;
    let ghost all = outs@;
    assert(all.take(0) =~= Seq::<ParseOutput>::empty());
    for out in it: outs
        invariant
            it.seq() == all,
            graph.wf(),
            centrality_room(&g0, edge_total(all)),
            parses_inserted(g0, all.take(it.index()), *graph),
            forall|k: IdKey| #[trigger] centrality_under(graph.centrality@, k) <= centrality_under(g0.centrality@, k) + edge_total(all.take(it.index())),
    {
        let ghost i = it.index();
        let ghost before = *graph;
        proof {
            assert(all.take(i + 1).drop_last() =~= all.take(i));
            assert(all.take(i + 1).last() == out);
            lemma_edge_total_prefix(all, i + 1);
        }
        insert_parse(graph, out);
        assert(parse_inserted(before, all.take(i + 1).last(), *graph));
    }
    assert(all.take(all.len() as int) =~= all);
}

/// Build the graph of a project from the parses of its files: each parse
/// inserted in order into an empty graph, then import edges resolved
/// against `files`, then calls across files.
pub fn build_graph(parses: Vec<ParseOutput>, root: &str, tsconfig: Option<&TsConfig>, files: &FileSet) -> (g: CodeGraph)
    requires
        edge_total(parses@) < u32::MAX,
    ensures
        g.wf(),
        exists|e: CodeGraph, m: CodeGraph, m2: CodeGraph|
            empty_graph(e) && #[trigger] parses_inserted(e, parses@, m) && #[trigger] imports_resolved(m, *files, root@, opt_tc(tsconfig), m2)
                && calls_resolved(m2, g),
{
    let mut graph = CodeGraph::new();
    let ghost e = graph;
    assert forall|k: IdKey| #[trigger] centrality_under(e.centrality@, k) + edge_total(parses@) < u32::MAX by {}
    insert_parses(&mut graph, parses);
    let ghost m = graph;
    resolve_imports(&mut graph, root, tsconfig, files);
    let ghost m2 = graph;
    resolve_calls(&mut graph);
    assert(empty_graph(e));
    assert(imports_resolved(m, *files, root@, opt_tc(tsconfig), m2));
    assert(calls_resolved(m2, graph));
    graph
}

/// Remove the files `fs` one after another.
fn remove_files(graph: &mut CodeGraph, fs: &Vec<String>)
    requires
        old(graph).wf(),
    ensures
        final(graph).wf(),
        files_removed(*old(graph), texts_of(fs@), *final(graph)),
        forall|k: IdKey| #[trigger] centrality_under(final(graph).centrality@, k) <= centrality_under(old(graph).centrality@, k),
{
    let ghost g0 = *graph;
    let ghost all = texts_of(fs@);
    let mut i: usize = 0;
    assert(all.take(0) =~= Seq::<Seq<char>>::empty());
    while i < fs.len()
        invariant
            i <= fs@.len(),
            all == texts_of(fs@),
            graph.wf(),
            files_removed(g0, all.take(i as int), *graph),
            forall|k: IdKey| #[trigger] centrality_under(graph.centrality@, k) <= centrality_under(g0.centrality@, k),
        decreases fs@.len() - i,
    {
        let ghost before = *graph;
        graph.remove_file(&fs[i]);
        assert(all.take(i + 1).drop_last() =~= all.take(i as int));
        assert(file_removed(before, all.take(i + 1).last(), *graph));
        assert forall|k: IdKey| #[trigger] centrality_under(graph.centrality@, k) <= centrality_under(g0.centrality@, k) by {
            lemma_removed_centrality(before, fs@[i as int]@, *graph, k);
        }
        i = i + 1;
    }
    assert(all.take(fs@.len() as int) =~= all);
}

/// Bring a cached graph up to date: drop the files that were `deleted`
/// and those that `changed`, insert the `reparses` of the changed files in
/// order, resolve import edges against `files` and then calls, then
/// attach again the callers in other files of each reparsed file (named by
/// its first symbol).
pub fn refresh_graph(
    graph: &mut CodeGraph,
    deleted: &Vec<String>,
    changed: &Vec<String>,
    reparses: Vec<ParseOutput>,
    root: &str,
    tsconfig: Option<&TsConfig>,
    files: &FileSet,
)
    requires
        old(graph).wf(),
        centrality_room(old(graph), edge_total(reparses@)),
    ensures
        final(graph).wf(),
        exists|g1: CodeGraph, g2: CodeGraph, g3: CodeGraph, g4: CodeGraph, g5: CodeGraph|
            #[trigger] files_removed(*old(graph), texts_of(deleted@), g1) && #[trigger] files_removed(g1, texts_of(changed@), g2)
                && #[trigger] parses_inserted(g2, reparses@, g3) && #[trigger] imports_resolved(g3, *files, root@, opt_tc(tsconfig), g4)
                && #[trigger] calls_resolved(g4, g5) && files_restitched(g5, first_files(reparses@), *final(graph)),
{
    let ghost g0 = *graph;
    remove_files(graph, deleted);
    let ghost g1 = *graph;
    remove_files(graph, changed);
    let ghost g2 = *graph;
    let ghost outs = reparses@;
    let firsts = first_files_of(&reparses);
    insert_parses(graph, reparses);
    let ghost g3 = *graph;
    resolve_imports(graph, root, tsconfig, files);
    let ghost g4 = *graph;
    resolve_calls(graph);
    let ghost g5 = *graph;
    restitch_files(graph, &firsts);
    assert(files_removed(g0, texts_of(deleted@), g1));
    assert(files_removed(g1, texts_of(changed@), g2));
    assert(parses_inserted(g2, outs, g3));
    assert(imports_resolved(g3, *files, root@, opt_tc(tsconfig), g4));
    assert(calls_resolved(g4, g5));
}

// ------------------------------------------------------------------
// What a warm start has to re-read.
// ------------------------------------------------------------------

/// The files a warm start drops and re-reads.
#[derive(Debug)]
pub struct RefreshPlan {
    /// Cached files with no current hash, in cache order.
    pub deleted: Vec<String>,
    /// Current files whose hash is new or differs from the cached one, in
    /// the order of the current hashes.
    pub changed: Vec<String>,
}

/// `cached` records exactly the hash `h` for `path`.
pub open spec fn hash_matches(cached: Map<Seq<char>, u64>, path: Seq<char>, h: u64) -> bool {
    cached.dom().contains(path) && cached[path] == h
}

/// The paths of `current` whose hash `cached` does not record, in order.
pub open spec fn changed_paths(cached: Map<Seq<char>, u64>, current: Seq<(String, u64)>) -> Seq<Seq<char>>
    decreases current.len(),
{
    if current.len() == 0 {
        Seq::empty()
    } else {
        let rest = changed_paths(cached, current.drop_last());
        let (p, h) = current.last();
        if hash_matches(cached, p@, h) {
            rest
        } else {
            rest.push(p@)
        }
    }
}

/// Some entry of `current` is for `path`.
pub open spec fn has_current(current: Seq<(String, u64)>, path: Seq<char>) -> bool {
    exists|j: int| 0 <= j < current.len() && #[trigger] current[j].0@ == path
}

/// The cached paths, in order, for which `current` has no entry.
pub open spec fn deleted_paths(cached: Seq<Seq<char>>, current: Seq<(String, u64)>) -> Seq<Seq<char>> {
    cached.filter(|p: Seq<char>| !has_current(current, p))
}

/// Whether `current` has an entry for `path`.
fn current_has(current: &Vec<(String, u64)>, path: &String) -> (r: bool)
    ensures
        r == has_current(current@, path@),
{
    let mut j: usize = 0;
    while j < current.len()
        invariant
            j <= current@.len(),
            forall|l: int| 0 <= l < j ==> current@[l].0@ != path@,
        decreases current@.len() - j,
    {
        if current[j].0 == *path {
            assert(current@[j as int].0@ == path@);
            return true;
        }
        j = j + 1;
    }
    false
}

/// Compare the cached file hashes with the `current` ones (the files that
/// could be hashed now): files without a current hash are deleted; files
/// whose hash is new or differs are changed.
pub fn plan_refresh(cached: &AssocMap<String, u64>, current: &Vec<(String, u64)>) -> (r: RefreshPlan)
    requires
        cached.wf(),
    ensures
        texts_of(r.changed@) == changed_paths(cached@, current@),
        texts_of(r.deleted@) == deleted_paths(cached.key_seq(), current@),
{
    let mut changed: Vec<String> = Vec::new();
    let mut i: usize = 0;
    while i < current.len()
        invariant
            cached.wf(),
            i <= current@.len(),
            texts_of(changed@) == changed_paths(cached@, current@.take(i as int)),
        decreases current@.len() - i,
    {
        let (p, h) = &current[i];
        assert(current@.take(i + 1).drop_last() =~= current@.take(i as int));
        let matches = match cached.get(p) {
            Some(c) => *c == *h,
            None => false,
        };
        if !matches {
            changed.push(p.clone());
        }
        i = i + 1;
        assert(texts_of(changed@) =~= changed_paths(cached@, current@.take(i as int)));
    }
    assert(current@.take(current@.len() as int) =~= current@);
    let mut deleted: Vec<String> = Vec::new();
    let ghost keys = cached.key_seq();
    let mut k: usize = 0;
    while k < cached.len()
        invariant
            k <= cached.entry_seq().len(),
            keys == cached.key_seq(),
            keys.len() == cached.entry_seq().len(),
            texts_of(deleted@) == deleted_paths(keys.take(k as int), current@),
        decreases cached.entry_seq().len() - k,
    {
        let p = cached.key_at(k);
        assert(keys.take(k + 1).drop_last() =~= keys.take(k as int));
        assert(keys[k as int] == p@);
        proof {
            reveal_filter_push(keys.take(k as int), p@, |q: Seq<char>| !has_current(current@, q));
            assert(keys.take(k + 1) =~= keys.take(k as int).push(p@));
        }
        if !current_has(current, p) {
            deleted.push(p.clone());
        }
        k = k + 1;
        assert(texts_of(deleted@) =~= deleted_paths(keys.take(k as int), current@));
    }
    assert(keys.take(keys.len() as int) =~= keys);
    RefreshPlan { deleted, changed }
}

/// The project tree is unchanged: the cached subtree hash of `root` is
/// `current`.
pub fn root_unchanged(tree_hashes: &AssocMap<String, u64>, root: &String, current: u64) -> (r: bool)
    requires
        tree_hashes.wf(),
    ensures
        r == hash_matches(tree_hashes@, root@, current),
{
    match tree_hashes.get(root) {
        Some(h) => *h == current,
        None => false,
    }
}

/// `current` lists exactly the cached entries, path by path and hash by hash.
pub open spec fn same_hashes(cached: Seq<(String, u64)>, current: Seq<(String, u64)>) -> bool {
    &&& current.len() == cached.len()
    &&& forall|i: int| 0 <= i < current.len() ==> #[trigger] current[i].0@ == cached[i].0@ && current[i].1 == cached[i].1
}

/// When the current hashes are exactly the cached ones, a warm start
/// re-reads nothing and drops nothing.
pub proof fn lemma_unchanged_hashes_plan_nothing(cached: AssocMap<String, u64>, current: Seq<(String, u64)>)
    requires
        cached.wf(),
        same_hashes(cached.entry_seq(), current),
    ensures
        changed_paths(cached@, current).len() == 0,
        deleted_paths(cached.key_seq(), current).len() == 0,
{
    cached.lemma_wf();
    lemma_no_changed(cached, current, current.len() as int);
    assert(current.take(current.len() as int) =~= current);
    let keys = cached.key_seq();
    assert forall|i: int| 0 <= i < keys.len() implies has_current(current, #[trigger] keys[i]) by {
        assert(current[i].0@ == keys[i]);
    }
    lemma_filter_none(keys, |p: Seq<char>| !has_current(current, p));
}

proof fn lemma_no_changed(cached: AssocMap<String, u64>, current: Seq<(String, u64)>, n: int)
    requires
        cached.wf(),
        same_hashes(cached.entry_seq(), current),
        0 <= n <= current.len(),
        keys_unique(cached.entry_seq()),
        forall|i: int|
            0 <= i < cached.entry_seq().len() ==> #[trigger] cached@.dom().contains(cached.entry_seq()[i].0@)
                && cached@[cached.entry_seq()[i].0@] == cached.entry_seq()[i].1,
    ensures
        changed_paths(cached@, current.take(n)).len() == 0,
    decreases n,
{
    if n > 0 {
        assert(current.take(n).drop_last() =~= current.take(n - 1));
        lemma_no_changed(cached, current, n - 1);
        let e = cached.entry_seq()[n - 1];
        assert(cached@.dom().contains(e.0@));
        assert(current.take(n).last() == current[n - 1]);
        assert(hash_matches(cached@, current[n - 1].0@, current[n - 1].1));
    }
}

/// Filtering out every element leaves nothing.
proof fn lemma_filter_none<A>(s: Seq<A>, p: spec_fn(A) -> bool)
    requires
        forall|i: int| 0 <= i < s.len() ==> !p(#[trigger] s[i]),
    ensures
        s.filter(p).len() == 0,
    decreases s.len(),
{
    if s.len() > 0 {
        reveal_filter_push(s.drop_last(), s.last(), p);
        assert(s.drop_last().push(s.last()) =~= s);
        lemma_filter_none(s.drop_last(), p);
    } else {
        assert(s.filter(p) =~= s);
    }
}

} // verus!
