//! Cross-file call resolution.
//!
//! A driver records a call by the callee's name only, as if the callee
//! lived in the caller's file. When no symbol of that file has the name,
//! the call is looked for in the files the caller's file imports (its
//! resolved import edges, in order): the first of them holding a symbol of
//! that name and kind becomes the call's target, and the edge is marked
//! inferred. The reverse lists and in-degree counts follow the move.

use vstd::prelude::*;

use crate::graph::types::{
    centrality_under, clone_edges, edges_under, push_edge_under, sat_sub, seqs, CodeGraph, Confidence, Edge, EdgeKind,
    SymbolId, SymbolKind,
};
use crate::parse::nodes::module_name;
use crate::parse::resolve::{moved, tables, EdgeTables, IdKey};
use crate::paths::path_file_stem;

verus! {

broadcast use vstd::string::group_string_axioms;

/// Is `e` a resolved import?
pub open spec fn resolved_import(e: Edge) -> bool {
    e.kind == EdgeKind::Imports && e.confidence == Confidence::Certain
}

/// The files the resolved imports among `es` point at, in order.
pub open spec fn import_files(es: Seq<Edge>) -> Seq<Seq<char>>
    decreases es.len(),
{
    if es.len() == 0 {
        Seq::empty()
    } else {
        import_files(es.drop_last()) + if resolved_import(es.last()) {
            seq![es.last().to.file@]
        } else {
            Seq::empty()
        }
    }
}

/// The files the module of `file` imports, in order.
pub open spec fn imported_files(g: &CodeGraph, file: Seq<char>) -> Seq<Seq<char>> {
    import_files(edges_under(g.forward_edges@, (file, module_name(file), SymbolKind::Module)))
}

/// The first of `fs` holding a symbol named `name` of kind `kind`.
pub open spec fn first_holder(g: &CodeGraph, fs: Seq<Seq<char>>, name: Seq<char>, kind: SymbolKind) -> Option<Seq<char>>
    decreases fs.len(),
{
    if fs.len() == 0 {
        None
    } else if g.symbols@.dom().contains((fs[0], name, kind)) {
        Some(fs[0])
    } else {
        first_holder(g, fs.drop_first(), name, kind)
    }
}

/// The file the call `e` of `from` moves to: for an unresolved call whose
/// target names no symbol, the first file `from`'s file imports that holds
/// one.
pub open spec fn call_target(g: &CodeGraph, from: SymbolId, e: Edge) -> Option<Seq<char>> {
    if e.kind != EdgeKind::Calls || e.confidence != Confidence::Unresolved || g.symbols@.dom().contains(e.to@) {
        None
    } else {
        first_holder(g, imported_files(g, from.file@), e.to.name@, e.to.kind)
    }
}

/// The moves for the first `n` edges of `from`'s list `es`.
pub open spec fn call_moves_in(g: &CodeGraph, from: SymbolId, es: Seq<Edge>, n: int) -> Seq<(SymbolId, int, Seq<char>)>
    decreases n,
{
    if n <= 0 {
        Seq::empty()
    } else {
        call_moves_in(g, from, es, n - 1) + match call_target(g, from, es[n - 1]) {
            Some(f) => seq![(from, n - 1, f)],
            None => Seq::empty(),
        }
    }
}

/// The moves for the first `n` entries of the forward table of `g`.
pub open spec fn call_moves(g: &CodeGraph, n: int) -> Seq<(SymbolId, int, Seq<char>)>
    decreases n,
{
    if n <= 0 {
        Seq::empty()
    } else {
        let e = g.forward_edges.entry_seq()[n - 1];
        call_moves(g, n - 1) + call_moves_in(g, e.0, e.1@, e.1@.len() as int)
    }
}

/// Edge `e` pointed at `to` and marked inferred.
pub open spec fn inferred(e: Edge, to: SymbolId) -> Edge {
    Edge { from: e.from, to: to, kind: e.kind, line: e.line, confidence: Confidence::Inferred }
}

/// Keeps the edges other than `from`'s calls.
pub open spec fn not_call_from(from: IdKey) -> spec_fn(Edge) -> bool {
    |e: Edge| !(e.from@ == from && e.kind == EdgeKind::Calls)
}

/// The tables after moving call edge `idx` of `from` to `file`: the edge is
/// marked inferred, the old target's reverse list loses `from`'s calls
/// (and goes when it empties), the new target's gains the edge, and one
/// unit of in-degree moves from the old target to the new one (saturating).
pub open spec fn call_step(t: EdgeTables, from: SymbolId, idx: int, file: String) -> EdgeTables {
    if !t.fwd.dom().contains(from@) || idx < 0 || idx >= t.fwd[from@].len() {
        t
    } else {
        let e = t.fwd[from@][idx];
        let old_to = e.to;
        if old_to.file@ == file@ {
            t
        } else {
            let new_to = moved(old_to, file);
            let e2 = inferred(e, new_to);
            let rev1 = if t.rev.dom().contains(old_to@) {
                let l = t.rev[old_to@].filter(not_call_from(from@));
                if l.len() == 0 {
                    t.rev.remove(old_to@)
                } else {
                    t.rev.insert(old_to@, l)
                }
            } else {
                t.rev
            };
            let cent1 = if t.cent.dom().contains(old_to@) {
                t.cent.insert(old_to@, sat_sub(t.cent[old_to@] as nat, 1) as u32)
            } else {
                t.cent
            };
            let c = centrality_under(cent1, new_to@);
            EdgeTables {
                fwd: t.fwd.insert(from@, t.fwd[from@].update(idx, e2)),
                rev: rev1.insert(
                    new_to@,
                    (if rev1.dom().contains(new_to@) {
                        rev1[new_to@]
                    } else {
                        Seq::empty()
                    }).push(e2),
                ),
                cent: cent1.insert(new_to@, (if c < u32::MAX { c + 1 } else { c }) as u32),
            }
        }
    }
}

/// The tables after the moves `ms`, applied in order.
pub open spec fn call_steps(t: EdgeTables, ms: Seq<(SymbolId, usize, String)>) -> EdgeTables
    decreases ms.len(),
{
    if ms.len() == 0 {
        t
    } else {
        let m = ms.last();
        call_step(call_steps(t, ms.drop_last()), m.0, m.1 as int, m.2)
    }
}

/// The moves as plain values.
pub open spec fn moves_view(ms: Seq<(SymbolId, usize, String)>) -> Seq<(SymbolId, int, Seq<char>)> {
    ms.map_values(|m: (SymbolId, usize, String)| (m.0, m.1 as int, m.2@))
}

/// `b` is `a` after [`resolve_calls`].
pub open spec fn calls_resolved(a: CodeGraph, b: CodeGraph) -> bool {
    &&& exists|ms: Seq<(SymbolId, usize, String)>|
        moves_view(ms) == call_moves(&a, a.forward_edges.entry_seq().len() as int) && #[trigger] call_steps(tables(&a), ms)
            == tables(&b)
    &&& b.symbols@ == a.symbols@
    &&& b.file_symbols@ == a.file_symbols@
    &&& b.library_imports@ == a.library_imports@
}

// ------------------------------------------------------------------
// The same, in code.
// ------------------------------------------------------------------

/// Strings by value.
pub open spec fn file_texts(v: Seq<String>) -> Seq<Seq<char>> {
    v.map_values(|s: String| s@)
}

/// The files the module of `file` imports.
fn imported_files_of(g: &CodeGraph, file: &String) -> (r: Vec<String>)
    requires
        g.wf(),
    ensures
        file_texts(r@) == imported_files(g, file@),
{
    let stem = match path_file_stem(file.as_str()) {
        Some(s) => s,
        None => String::new(),
    };
    let anchor = SymbolId { file: file.clone(), name: stem, kind: SymbolKind::Module };
    let mut out: Vec<String> = Vec::new();
    let es = match g.forward_edges.get(&anchor) {
        Some(es) => es,
        None => {
            assert(edges_under(g.forward_edges@, anchor@) =~= Seq::<Edge>::empty());
            return out;
        },
    };
    let mut i: usize = 0;
    assert(es@.take(0) =~= Seq::<Edge>::empty());
    while i < es.len()
        invariant
            i <= es@.len(),
            file_texts(out@) == import_files(es@.take(i as int)),
        decreases es@.len() - i,
    {
        let ghost before = out@;
        assert(es@.take(i + 1).drop_last() =~= es@.take(i as int));
        let e = &es[i];
        if e.kind == EdgeKind::Imports && e.confidence == Confidence::Certain {
            out.push(e.to.file.clone());
            assert(file_texts(out@) =~= file_texts(before).push(e.to.file@));
        }
        i = i + 1;
    }
    assert(es@.take(es@.len() as int) =~= es@);
    out
}

/// The file the call `e` of `from` moves to.
fn call_target_of(g: &CodeGraph, from: &SymbolId, e: &Edge) -> (r: Option<String>)
    requires
        g.wf(),
    ensures
        match r {
            Some(f) => call_target(g, *from, *e) == Some(f@),
            None => call_target(g, *from, *e) is None,
        },
{
    if !(e.kind == EdgeKind::Calls && e.confidence == Confidence::Unresolved) || g.symbols.contains_key(&e.to) {
        return None;
    }
    let fs = imported_files_of(g, &from.file);
    let ghost all = file_texts(fs@);
    let mut i: usize = 0;
    assert(all.skip(0) =~= all);
    while i < fs.len()
        invariant
            g.wf(),
            all == file_texts(fs@),
            all == imported_files(g, from.file@),
            call_target(g, *from, *e) == first_holder(g, all, e.to.name@, e.to.kind),
            i <= fs@.len(),
            first_holder(g, all, e.to.name@, e.to.kind) == first_holder(g, all.skip(i as int), e.to.name@, e.to.kind),
        decreases fs@.len() - i,
    {
        let cand = SymbolId { file: fs[i].clone(), name: e.to.name.clone(), kind: e.to.kind };
        assert(all.skip(i as int)[0] == fs@[i as int]@);
        if g.symbols.contains_key(&cand) {
            assert(g.symbols@.dom().contains((all.skip(i as int)[0], e.to.name@, e.to.kind)));
            assert(first_holder(g, all.skip(i as int), e.to.name@, e.to.kind) == Some(all.skip(i as int)[0]));
            return Some(fs[i].clone());
        }
        assert(all.skip(i as int).drop_first() =~= all.skip(i + 1));
        i = i + 1;
    }
    assert(all.skip(i as int) =~= Seq::<Seq<char>>::empty());
    None
}

/// The moves for every call edge of `g` that resolves across files.
fn moves_of(g: &CodeGraph) -> (r: Vec<(SymbolId, usize, String)>)
    requires
        g.wf(),
    ensures
        moves_view(r@) == call_moves(g, g.forward_edges.entry_seq().len() as int),
{
    let ghost entries = g.forward_edges.entry_seq();
    let mut out: Vec<(SymbolId, usize, String)> = Vec::new();
    let mut i: usize = 0;
    while i < g.forward_edges.len()
        invariant
            g.wf(),
            i <= entries.len(),
            entries == g.forward_edges.entry_seq(),
            moves_view(out@) == call_moves(g, i as int),
        decreases entries.len() - i,
    {
        let from = g.forward_edges.key_at(i);
        let edges = g.forward_edges.value_at(i);
        let ghost base = moves_view(out@);
        let mut j: usize = 0;
        while j < edges.len()
            invariant
                g.wf(),
                i < entries.len(),
                entries == g.forward_edges.entry_seq(),
                *from == entries[i as int].0,
                *edges == entries[i as int].1,
                j <= edges@.len(),
                base == call_moves(g, i as int),
                moves_view(out@) == base + call_moves_in(g, *from, edges@, j as int),
            decreases edges@.len() - j,
        {
            let ghost before = out@;
            match call_target_of(g, from, &edges[j]) {
                Some(p) => {
                    out.push((from.clone(), j, p));
                    assert(moves_view(out@) =~= moves_view(before).push((*from, j as int, p@)));
                },
                None => {},
            }
            j = j + 1;
        }
        i = i + 1;
    }
    out
}

/// Move call edge `idx` of `from` to `file`.
fn move_call(graph: &mut CodeGraph, from: &SymbolId, idx: usize, file: &String)
    requires
        old(graph).wf(),
    ensures
        final(graph).wf(),
        tables(final(graph)) == call_step(tables(old(graph)), *from, idx as int, *file),
        final(graph).symbols@ == old(graph).symbols@,
        final(graph).file_symbols@ == old(graph).file_symbols@,
        final(graph).library_imports@ == old(graph).library_imports@,
{
    let ghost t = tables(graph);
    let i = match graph.forward_edges.index_of(from) {
        Some(i) => i,
        None => return,
    };
    let list = clone_edges(graph.forward_edges.value_at(i));
    assert(list@ == t.fwd[from@]);
    if idx >= list.len() {
        return;
    }
    let old_to = list[idx].to.clone();
    if old_to.file == *file {
        return;
    }
    let new_to = SymbolId { file: file.clone(), name: old_to.name.clone(), kind: old_to.kind };
    assert(new_to == moved(old_to, *file));
    let e = &list[idx];
    let updated = Edge { from: e.from.clone(), to: new_to.clone(), kind: e.kind, line: e.line, confidence: Confidence::Inferred };
    assert(updated == inferred(*e, new_to));
    let mut new_list = list;
    let pushed = updated.clone();
    new_list.set(idx, updated);
    graph.forward_edges.set_value_at(i, new_list);
    assert(seqs(graph.forward_edges@) =~= t.fwd.insert(from@, t.fwd[from@].update(idx as int, pushed)));
    let ghost rev0 = seqs(graph.reverse_edges@);
    match graph.reverse_edges.index_of(&old_to) {
        Some(j) => {
            let cur = graph.reverse_edges.value_at(j);
            let mut kept: Vec<Edge> = Vec::new();
            let mut k: usize = 0;
            while k < cur.len()
                invariant
                    k <= cur@.len(),
                    kept@ == cur@.take(k as int).filter(not_call_from(from@)),
                decreases cur@.len() - k,
            {
                proof {
                    crate::graph::types::reveal_filter_push(cur@.take(k as int), cur@[k as int], not_call_from(from@));
                    assert(cur@.take(k + 1) =~= cur@.take(k as int).push(cur@[k as int]));
                }
                if !(cur[k].from == *from && cur[k].kind == EdgeKind::Calls) {
                    kept.push(cur[k].clone());
                }
                k = k + 1;
            }
            assert(cur@.take(cur@.len() as int) =~= cur@);
            if kept.len() == 0 {
                graph.reverse_edges.remove(&old_to);
                assert(seqs(graph.reverse_edges@) =~= rev0.remove(old_to@));
            } else {
                graph.reverse_edges.set_value_at(j, kept);
                assert(seqs(graph.reverse_edges@) =~= rev0.insert(old_to@, rev0[old_to@].filter(not_call_from(from@))));
            }
        },
        None => {},
    }
    push_edge_under(&mut graph.reverse_edges, &new_to, pushed);
    match graph.centrality.get(&old_to) {
        Some(c) => {
            let c = *c;
            let d = if c > 0 {
                c - 1
            } else {
                0
            };
            graph.centrality.insert(old_to.clone(), d);
        },
        None => {},
    }
    let c = match graph.centrality.get(&new_to) {
        Some(c) => *c,
        None => 0,
    };
    let c2 = if c < 4294967295 {
        c + 1
    } else {
        c
    };
    graph.centrality.insert(new_to, c2);
    proof {
        let r = call_step(t, *from, idx as int, *file);
        assert(seqs(graph.reverse_edges@) =~= r.rev);
        assert(graph.centrality@ =~= r.cent);
    }
}

/// Point every unresolved call whose callee names no symbol at the first
/// file the caller's file imports that holds a symbol of that name and
/// kind, marked inferred, keeping the reverse lists and in-degree counts in
/// step. Other edges are left as they are.
pub fn resolve_calls(graph: &mut CodeGraph)
    requires
        old(graph).wf(),
    ensures
        final(graph).wf(),
        calls_resolved(*old(graph), *final(graph)),
{
    let ms = moves_of(graph);
    let ghost t0 = tables(graph);
    let mut i: usize = 0;
    assert(ms@.take(0) =~= Seq::<(SymbolId, usize, String)>::empty());
    while i < ms.len()
        invariant
            graph.wf(),
            i <= ms@.len(),
            tables(graph) == call_steps(t0, ms@.take(i as int)),
            graph.symbols@ == old(graph).symbols@,
            graph.file_symbols@ == old(graph).file_symbols@,
            graph.library_imports@ == old(graph).library_imports@,
        decreases ms@.len() - i,
    {
        assert(ms@.take(i + 1).drop_last() =~= ms@.take(i as int));
        move_call(graph, &ms[i].0, ms[i].1, &ms[i].2);
        i = i + 1;
    }
    assert(ms@.take(ms@.len() as int) =~= ms@);
    assert(call_steps(tables(old(graph)), ms@) == tables(graph));
}

} // verus!
