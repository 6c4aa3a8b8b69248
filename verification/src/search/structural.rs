//! Graph-backed search backends: each resolves one query form against the
//! [`CodeGraph`] and renders structural hits.

use vstd::prelude::*;

use crate::assoc::KeyEq;
use crate::graph::ops::{
    callees, callers, derefs, find_by_name, name_distances, name_ranking, ranked_ids, tos,
};
use crate::graph::types::{
    edges_under, CodeGraph, Confidence, Edge, EdgeKind, Symbol, SymbolId, SymbolKind, Visibility,
};
use crate::lexical::{sort_distinct, sorted_distinct};
use crate::paths::{
    file_name, file_stem, path_file_name, path_file_stem, path_relative_to, relative_to,
};
use crate::search::hit::{
    by_centrality, drop_return_type, hint_view, join_with, sort_by_centrality, structural_view,
    HitView, SearchHit,
};
use crate::strings::{chars_of, decimal, push_decimal, push_str, string_of};

verus! {

broadcast use vstd::string::group_string_axioms;

/// The texts of a list of character lists.
pub open spec fn texts(v: Seq<Vec<char>>) -> Seq<Seq<char>> {
    v.map_values(|x: Vec<char>| x@)
}

/// The views of a list of hits.
pub open spec fn views(hs: Seq<SearchHit>) -> Seq<HitView> {
    hs.map_values(|h: SearchHit| h@)
}

/// The first `n` elements of `s`, or all of them when there are fewer.
pub open spec fn first_n<A>(s: Seq<A>, n: int) -> Seq<A> {
    if n < s.len() {
        s.take(n)
    } else {
        s
    }
}

/// The symbol stored under `id`, if any.
pub open spec fn symbol_at(graph: &CodeGraph, id: SymbolId) -> Option<Symbol> {
    if graph.symbols@.dom().contains(id@) {
        Some(graph.symbols@[id@])
    } else {
        None
    }
}

/// A structural hit with the return type dropped from its signature.
pub open spec fn short_view(s: Symbol) -> HitView {
    HitView {
        file: s.id.file@,
        line: s.line_start,
        signature: Some(drop_return_type(s.signature@)),
        snippet: None,
        context: None,
    }
}

/// Structural hits (short ones when `short`) for the ids that have a symbol, in order.
pub open spec fn symbol_hits(graph: &CodeGraph, ids: Seq<SymbolId>, short: bool) -> Seq<HitView>
    decreases ids.len(),
{
    if ids.len() == 0 {
        Seq::empty()
    } else {
        let prev = symbol_hits(graph, ids.drop_last(), short);
        match symbol_at(graph, ids.last()) {
            Some(s) => prev.push(
                if short {
                    short_view(s)
                } else {
                    structural_view(s)
                },
            ),
            None => prev,
        }
    }
}

/// Hits for the first `max` of `ids` that have a symbol.
fn collect_hits(graph: &CodeGraph, ids: &Vec<&SymbolId>, max: usize, short: bool) -> (r: Vec<SearchHit>)
    requires
        graph.wf(),
    ensures
        views(r@) == symbol_hits(graph, first_n(derefs(ids@), max as int), short),
{
    let n = if max < ids.len() {
        max
    } else {
        ids.len()
    };
    let ghost src = first_n(derefs(ids@), max as int);
    assert(src.len() == n);
    let mut out: Vec<SearchHit> = Vec::new();
    let mut i: usize = 0;
    while i < n
        invariant
            graph.wf(),
            n <= ids@.len(),
            src == first_n(derefs(ids@), max as int),
            src.len() == n,
            i <= n,
            views(out@) == symbol_hits(graph, src.take(i as int), short),
        decreases n - i,
    {
        assert(src[i as int] == *ids@[i as int]);
        assert(src.take(i + 1).drop_last() =~= src.take(i as int));
        let ghost prev = out@;
        match graph.symbols.get(ids[i]) {
            Some(sym) => {
                let h = SearchHit::structural(sym);
                let h = if short {
                    h.without_return_type()
                } else {
                    h
                };
                out.push(h);
                assert(views(out@) =~= views(prev).push(h@));
            },
            None => {},
        }
        i = i + 1;
    }
    assert(src.take(n as int) =~= src);
    out
}

// ---------------------------------------------------------------------------
// Count headers.

/// The non-empty file paths of `hs`, in order.
pub open spec fn nonempty_files(hs: Seq<HitView>) -> Seq<Seq<char>>
    decreases hs.len(),
{
    if hs.len() == 0 {
        Seq::empty()
    } else {
        let prev = nonempty_files(hs.drop_last());
        if hs.last().file.len() > 0 {
            prev.push(hs.last().file)
        } else {
            prev
        }
    }
}

/// The file name of a path, or the empty text when it has none.
pub open spec fn name_or_empty(p: Seq<char>) -> Seq<char> {
    match file_name(p) {
        Some(n) => n,
        None => Seq::empty(),
    }
}

/// `"s"` unless `n` is one.
pub open spec fn plural(n: nat) -> Seq<char> {
    if n == 1 {
        Seq::empty()
    } else {
        seq!['s']
    }
}

/// The file part of `find`'s header, given the distinct paths and sorted distinct file names.
pub open spec fn files_part(file_count: nat, names: Seq<Seq<char>>) -> Seq<char> {
    if file_count == 1 {
        " in "@ + if names.len() > 0 {
            names[0]
        } else {
            "?"@
        }
    } else {
        let listed = join_with(first_n(names, 3), ", "@);
        if file_count > 3 {
            " across "@ + decimal(file_count) + " files (e.g. "@ + listed + ", +"@ + decimal(
                (file_count - 3) as nat,
            ) + " more)"@
        } else {
            " across "@ + decimal(file_count) + " files ("@ + listed + ")"@
        }
    }
}

/// The count header `find` puts before its hits.
pub open spec fn find_header(name: Seq<char>, hs: Seq<HitView>) -> Seq<char> {
    let files = nonempty_files(hs);
    let file_count = sorted_distinct(files).len();
    let names = sorted_distinct(files.map_values(|f: Seq<char>| name_or_empty(f)));
    if hs.len() > 0 {
        "=== "@ + decimal(hs.len()) + " symbol"@ + plural(hs.len()) + " matching '"@ + name + "'"@
            + files_part(file_count, names) + " ==="@
    } else {
        "=== 0 symbols matching '"@ + name + "' ==="@
    }
}

/// The non-empty paths of `hits`, as character lists.
fn hit_files(hits: &Vec<SearchHit>) -> (r: Vec<Vec<char>>)
    ensures
        r@.map_values(|v: Vec<char>| v@) == nonempty_files(views(hits@)),
{
    let mut out: Vec<Vec<char>> = Vec::new();
    let mut i: usize = 0;
    while i < hits.len()
        invariant
            i <= hits@.len(),
            out@.map_values(|v: Vec<char>| v@) == nonempty_files(views(hits@).take(i as int)),
        decreases hits@.len() - i,
    {
        let f = chars_of(hits[i].file.as_str());
        let ghost prev = out@;
        assert(views(hits@).take(i + 1).drop_last() =~= views(hits@).take(i as int));
        if f.len() > 0 {
            out.push(f);
            assert(out@.map_values(|v: Vec<char>| v@) =~= prev.map_values(|v: Vec<char>| v@).push(hits@[i as int].file@));
        }
        i = i + 1;
    }
    assert(views(hits@).take(hits@.len() as int) =~= views(hits@));
    out
}

/// The file names of `files` (empty when a path has none).
fn names_of(files: &Vec<Vec<char>>) -> (r: Vec<Vec<char>>)
    ensures
        r@.map_values(|v: Vec<char>| v@) == files@.map_values(|v: Vec<char>| v@).map_values(
            |f: Seq<char>| name_or_empty(f),
        ),
{
    let mut out: Vec<Vec<char>> = Vec::new();
    let mut i: usize = 0;
    while i < files.len()
        invariant
            i <= files@.len(),
            out@.map_values(|v: Vec<char>| v@) == files@.map_values(|v: Vec<char>| v@).map_values(
                |f: Seq<char>| name_or_empty(f),
            ).take(i as int),
        decreases files@.len() - i,
    {
        let s = string_of(&files[i]);
        let n = match path_file_name(s.as_str()) {
            Some(n) => chars_of(n.as_str()),
            None => Vec::new(),
        };
        let ghost prev = out@;
        out.push(n);
        assert(out@.map_values(|v: Vec<char>| v@) =~= prev.map_values(|v: Vec<char>| v@).push(
            name_or_empty(files@[i as int]@),
        ));
        i = i + 1;
        assert(out@.map_values(|v: Vec<char>| v@) =~= files@.map_values(|v: Vec<char>| v@).map_values(
            |f: Seq<char>| name_or_empty(f),
        ).take(i as int));
    }
    assert(files@.map_values(|v: Vec<char>| v@).map_values(|f: Seq<char>| name_or_empty(f)).take(
        files@.len() as int,
    ) =~= files@.map_values(|v: Vec<char>| v@).map_values(|f: Seq<char>| name_or_empty(f)));
    out
}

/// Append `parts` joined by `sep`.
pub(crate) fn push_joined(out: &mut String, parts: &Vec<Vec<char>>, count: usize, sep: &str)
    requires
        count <= parts@.len(),
    ensures
        final(out)@ == old(out)@ + join_with(parts@.map_values(|v: Vec<char>| v@).take(count as int), sep@),
{
    let ghost ps = parts@.map_values(|v: Vec<char>| v@);
    let mut i: usize = 0;
    while i < count
        invariant
            ps == parts@.map_values(|v: Vec<char>| v@),
            count <= parts@.len(),
            i <= count,
            out@ == old(out)@ + join_with(ps.take(i as int), sep@),
        decreases count - i,
    {
        let ghost before = out@;
        if i > 0 {
            push_str(out, sep);
        }
        let s = string_of(&parts[i]);
        push_str(out, s.as_str());
        proof {
            assert(ps.take(i + 1).drop_last() =~= ps.take(i as int));
            assert(ps[i as int] == parts@[i as int]@);
            if i > 0 {
                assert(out@ =~= old(out)@ + (join_with(ps.take(i as int), sep@) + sep@ + ps[i as int]));
            } else {
                assert(out@ =~= old(out)@ + ps[i as int]);
            }
        }
        i = i + 1;
    }
}

/// Append the file part of `find`'s header.
fn push_files_part(out: &mut String, file_count: usize, sorted_names: &Vec<Vec<char>>)
    ensures
        final(out)@ == old(out)@ + files_part(file_count as nat, sorted_names@.map_values(|v: Vec<char>| v@)),
{
    let ghost ns = sorted_names@.map_values(|v: Vec<char>| v@);
    if file_count == 1 {
        push_str(out, " in ");
        if sorted_names.len() > 0 {
            let s = string_of(&sorted_names[0]);
            push_str(out, s.as_str());
        } else {
            push_str(out, "?");
        }
    } else {
        let listed = if sorted_names.len() < 3 {
            sorted_names.len()
        } else {
            3
        };
        assert(first_n(ns, 3) =~= ns.take(listed as int));
        push_str(out, " across ");
        push_decimal(out, file_count as u64);
        if file_count > 3 {
            push_str(out, " files (e.g. ");
            push_joined(out, sorted_names, listed, ", ");
            push_str(out, ", +");
            push_decimal(out, (file_count - 3) as u64);
            push_str(out, " more)");
        } else {
            push_str(out, " files (");
            push_joined(out, sorted_names, listed, ", ");
            push_str(out, ")");
        }
    }
}

/// Build `find`'s count header for `hits`.
fn find_count_header(name: &str, hits: &Vec<SearchHit>) -> (r: String)
    ensures
        r@ == find_header(name@, views(hits@)),
{
    let files = hit_files(hits);
    let distinct_files = sort_distinct(&files);
    let names = names_of(&files);
    let sorted_names = sort_distinct(&names);
    let file_count = distinct_files.len();
    let mut out = String::new();
    if hits.len() > 0 {
        push_str(&mut out, "=== ");
        push_decimal(&mut out, hits.len() as u64);
        push_str(&mut out, " symbol");
        if hits.len() != 1 {
            crate::strings::push_char(&mut out, 's');
        }
        push_str(&mut out, " matching '");
        push_str(&mut out, name);
        push_str(&mut out, "'");
        push_files_part(&mut out, file_count, &sorted_names);
        push_str(&mut out, " ===");
    } else {
        push_str(&mut out, "=== 0 symbols matching '");
        push_str(&mut out, name);
        push_str(&mut out, "' ===");
    }
    out
}

/// Text for a name that resolves to no symbol.
pub open spec fn no_symbol_text(name: Seq<char>) -> Seq<char> {
    "no symbol named '"@ + name + "' found; try `grep "@ + name + "` for text search"@
}

/// The ids `find_by_name` returns for `name`.
pub open spec fn name_matches(graph: &CodeGraph, name: Seq<char>) -> Seq<SymbolId> {
    ranked_ids(graph, name_ranking(graph, name, name_distances(graph, name)))
}

/// `find X`: the name's matches by descending centrality, at most `max_hits`,
/// after a count header; a hint when nothing matches.
pub open spec fn find_view(graph: &CodeGraph, name: Seq<char>, max_hits: int) -> Seq<HitView> {
    let ids = name_matches(graph, name);
    if ids.len() == 0 {
        seq![hint_view(no_symbol_text(name))]
    } else {
        let hs = symbol_hits(graph, first_n(by_centrality(graph, ids), max_hits), false);
        seq![hint_view(find_header(name, hs))] + hs
    }
}

/// `find X` / `where is X`: centrality-ranked name lookup with fuzzy fallback,
/// at most `max_hits` results after a count header.
pub fn find(graph: &CodeGraph, name: &str, max_hits: usize) -> (r: Vec<SearchHit>)
    requires
        graph.wf(),
    ensures
        views(r@) == find_view(graph, name@, max_hits as int),
{
    let mut ids = find_by_name(graph, name);
    if ids.len() == 0 {
        let mut msg = String::new();
        push_str(&mut msg, "no symbol named '");
        push_str(&mut msg, name);
        push_str(&mut msg, "' found; try `grep ");
        push_str(&mut msg, name);
        push_str(&mut msg, "` for text search");
        let mut v: Vec<SearchHit> = Vec::new();
        v.push(SearchHit::empty_hint(msg.as_str()));
        assert(views(v@) =~= seq![hint_view(no_symbol_text(name@))]);
        return v;
    }
    sort_by_centrality(graph, &mut ids);
    let mut hits = collect_hits(graph, &ids, max_hits, false);
    let header = find_count_header(name, &hits);
    let ghost hs = views(hits@);
    hits.insert(0, SearchHit::empty_hint(header.as_str()));
    assert(views(hits@) =~= seq![hint_view(find_header(name@, hs))] + hs);
    hits
}

/// `callees of X`: the forward-edge targets of the most central match, by
/// descending centrality, at most `max_hits`; empty when nothing matches.
pub open spec fn callees_view(graph: &CodeGraph, name: Seq<char>, max_hits: int) -> Seq<HitView> {
    let ids = name_matches(graph, name);
    if ids.len() == 0 {
        Seq::empty()
    } else {
        let source = by_centrality(graph, ids)[0];
        let out = tos(edges_under(graph.forward_edges@, source@));
        symbol_hits(graph, first_n(by_centrality(graph, out), max_hits), false)
    }
}

/// `callees of X` / `what does X call`: forward edges of the most central match.
pub fn callees_of(graph: &CodeGraph, name: &str, max_hits: usize) -> (r: Vec<SearchHit>)
    requires
        graph.wf(),
    ensures
        views(r@) == callees_view(graph, name@, max_hits as int),
{
    let mut sources = find_by_name(graph, name);
    if sources.len() == 0 {
        return Vec::new();
    }
    let ghost before = derefs(sources@);
    sort_by_centrality(graph, &mut sources);
    proof {
        crate::sorting::lemma_stable_sorted_len(crate::search::hit::rank_positions(graph, before));
        assert(derefs(sources@).len() == sources@.len());
    }
    let source_id = sources[0];
    let mut callee_ids = callees(graph, source_id);
    sort_by_centrality(graph, &mut callee_ids);
    collect_hits(graph, &callee_ids, max_hits, false)
}

// ---------------------------------------------------------------------------
// File-level queries.

/// The synthetic module anchor a parser emits as the source of a file's imports.
pub open spec fn module_source_view(file: Seq<char>) -> (Seq<char>, Seq<char>, SymbolKind) {
    (file, match file_stem(file) {
        Some(s) => s,
        None => Seq::empty(),
    }, SymbolKind::Module)
}

/// The synthetic module anchor a resolved import points at.
pub open spec fn module_target_view(file: Seq<char>) -> (Seq<char>, Seq<char>, SymbolKind) {
    (file, Seq::empty(), SymbolKind::Module)
}

/// The module anchor that sources `file`'s imports.
pub fn module_source_id(file: &str) -> (r: SymbolId)
    ensures
        r@ == module_source_view(file@),
{
    let name = match path_file_stem(file) {
        Some(s) => s,
        None => String::new(),
    };
    SymbolId { file: file.to_owned(), name, kind: SymbolKind::Module }
}

/// The module anchor that imports of `file` point at.
pub fn module_target_id(file: &str) -> (r: SymbolId)
    ensures
        r@ == module_target_view(file@),
{
    SymbolId { file: file.to_owned(), name: String::new(), kind: SymbolKind::Module }
}

/// A resolved, certain import edge.
pub open spec fn certain_import(e: Edge) -> bool {
    e.kind == EdgeKind::Imports && e.confidence == Confidence::Certain
}

/// One hit per certain import edge of `es`: at the importer's file when
/// `at_importer`, else at the imported file, labelled with the imported path.
pub open spec fn import_hits(es: Seq<Edge>, root: Seq<char>, at_importer: bool) -> Seq<HitView>
    decreases es.len(),
{
    if es.len() == 0 {
        Seq::empty()
    } else {
        let prev = import_hits(es.drop_last(), root, at_importer);
        let e = es.last();
        if certain_import(e) {
            prev.push(HitView {
                file: if at_importer {
                    e.from.file@
                } else {
                    e.to.file@
                },
                line: e.line,
                signature: Some("imports "@ + relative_to(e.to.file@, root)),
                snippet: None,
                context: None,
            })
        } else {
            prev
        }
    }
}

/// Hits for the certain import edges of `es`.
pub fn collect_import_hits(es: &Vec<Edge>, root: &str, at_importer: bool) -> (r: Vec<SearchHit>)
    ensures
        views(r@) == import_hits(es@, root@, at_importer),
{
    let mut out: Vec<SearchHit> = Vec::new();
    let mut i: usize = 0;
    while i < es.len()
        invariant
            i <= es@.len(),
            views(out@) == import_hits(es@.take(i as int), root@, at_importer),
        decreases es@.len() - i,
    {
        let e = &es[i];
        assert(es@.take(i + 1).drop_last() =~= es@.take(i as int));
        if e.kind == EdgeKind::Imports && e.confidence == Confidence::Certain {
            let mut sig = String::new();
            push_str(&mut sig, "imports ");
            let rel = path_relative_to(e.to.file.as_str(), root);
            push_str(&mut sig, rel.as_str());
            let file = if at_importer {
                e.from.file.clone()
            } else {
                e.to.file.clone()
            };
            let ghost prev = out@;
            out.push(SearchHit { file, line: e.line, signature: Some(sig), snippet: None, context: None });
            assert(views(out@) =~= views(prev).push(out@[prev.len() as int]@));
        }
        i = i + 1;
    }
    assert(es@.take(es@.len() as int) =~= es@);
    out
}

/// `imports of FILE`: one hit per certain import from `file`'s module anchor, or a hint.
pub open spec fn imports_view(graph: &CodeGraph, file: Seq<char>, root: Seq<char>) -> Seq<HitView> {
    let hs = import_hits(edges_under(graph.forward_edges@, module_source_view(file)), root, false);
    if hs.len() == 0 {
        seq![hint_view("no internal imports in Phase 1 graph; use grep for \"use X::\""@)]
    } else {
        hs
    }
}

/// `imports of FILE`: the files `file` imports, paths shown relative to `project_root`.
pub fn imports_of(graph: &CodeGraph, file: &str, project_root: &str) -> (r: Vec<SearchHit>)
    requires
        graph.wf(),
    ensures
        views(r@) == imports_view(graph, file@, project_root@),
{
    let source = module_source_id(file);
    let hits = match graph.forward_edges.get(&source) {
        Some(edges) => collect_import_hits(edges, project_root, false),
        None => {
            assert(import_hits(Seq::<Edge>::empty(), project_root@, false) =~= Seq::<HitView>::empty());
            Vec::new()
        },
    };
    if hits.len() == 0 {
        let mut v: Vec<SearchHit> = Vec::new();
        v.push(SearchHit::empty_hint("no internal imports in Phase 1 graph; use grep for \"use X::\""));
        assert(views(v@) =~= seq![hint_view("no internal imports in Phase 1 graph; use grep for \"use X::\""@)]);
        return v;
    }
    hits
}

/// `importers of FILE`: one hit per certain import into `file`'s module anchor.
pub open spec fn importers_view(graph: &CodeGraph, file: Seq<char>, root: Seq<char>) -> Seq<HitView> {
    import_hits(edges_under(graph.reverse_edges@, module_target_view(file)), root, true)
}

/// `importers of FILE`: the files that import `file`.
pub fn importers_of(graph: &CodeGraph, file: &str, project_root: &str) -> (r: Vec<SearchHit>)
    requires
        graph.wf(),
    ensures
        views(r@) == importers_view(graph, file@, project_root@),
{
    let target = module_target_id(file);
    match graph.reverse_edges.get(&target) {
        Some(edges) => collect_import_hits(edges, project_root, true),
        None => {
            assert(import_hits(Seq::<Edge>::empty(), project_root@, true) =~= Seq::<HitView>::empty());
            Vec::new()
        },
    }
}

/// The ids recorded for `file`, empty when the file is not indexed.
pub open spec fn file_ids(graph: &CodeGraph, file: Seq<char>) -> Option<Seq<SymbolId>> {
    if graph.file_symbols@.dom().contains(file) {
        Some(graph.file_symbols@[file]@)
    } else {
        None
    }
}

/// Structural hits for the exported symbols among `ids`, in order.
pub open spec fn exported_hits(graph: &CodeGraph, ids: Seq<SymbolId>) -> Seq<HitView>
    decreases ids.len(),
{
    if ids.len() == 0 {
        Seq::empty()
    } else {
        let prev = exported_hits(graph, ids.drop_last());
        match symbol_at(graph, ids.last()) {
            Some(s) => if s.visibility == Visibility::Export {
                prev.push(structural_view(s))
            } else {
                prev
            },
            None => prev,
        }
    }
}

/// `exports of FILE`: the exported symbols declared in `file`, in declaration order.
pub fn exports_of(graph: &CodeGraph, file: &str) -> (r: Vec<SearchHit>)
    requires
        graph.wf(),
    ensures
        views(r@) == match file_ids(graph, file@) {
            Some(ids) => exported_hits(graph, ids),
            None => Seq::empty(),
        },
{
    let key = file.to_owned();
    let ids = match graph.file_symbols.get(&key) {
        Some(ids) => ids,
        None => {
            return Vec::new();
        },
    };
    let mut out: Vec<SearchHit> = Vec::new();
    let mut i: usize = 0;
    while i < ids.len()
        invariant
            graph.wf(),
            i <= ids@.len(),
            views(out@) == exported_hits(graph, ids@.take(i as int)),
        decreases ids@.len() - i,
    {
        assert(ids@.take(i + 1).drop_last() =~= ids@.take(i as int));
        match graph.symbols.get(&ids[i]) {
            Some(sym) => {
                if sym.visibility == Visibility::Export {
                    let ghost prev = out@;
                    out.push(SearchHit::structural(sym));
                    assert(views(out@) =~= views(prev).push(structural_view(*sym)));
                }
            },
            None => {},
        }
        i = i + 1;
    }
    assert(ids@.take(ids@.len() as int) =~= ids@);
    out
}

/// The hits of `hs` whose file is a test path.
pub open spec fn test_hits(hs: Seq<HitView>) -> Seq<HitView> {
    hs.filter(|h: HitView| crate::paths::is_test_path(h.file))
}

/// Text for a target with no tests found.
pub open spec fn no_tests_text(target: Seq<char>) -> Seq<char> {
    "no same-file tests found; use grep for 'test_"@ + target + "'"@
}

/// `tests for X`: importers of X's file (X itself when it holds a path
/// separator, else the file of its first name match) that are test paths.
pub open spec fn tests_for_view(graph: &CodeGraph, target: Seq<char>, root: Seq<char>) -> Seq<HitView> {
    let is_path = target.contains('/') || target.contains('\\');
    let ids = name_matches(graph, target);
    if !is_path && ids.len() == 0 {
        seq![hint_view(no_tests_text(target))]
    } else {
        let file = if is_path {
            target
        } else {
            ids[0].file@
        };
        let hs = test_hits(importers_view(graph, file, root));
        if hs.len() == 0 {
            seq![hint_view(no_tests_text(target))]
        } else {
            hs
        }
    }
}

/// `tests for` a file path lists every importer of the file that is a test
/// path (such as a pytest `test_*.py` file), and besides them only the
/// hint given when there is none.
pub proof fn lemma_tests_for_lists_test_importers(graph: &CodeGraph, target: Seq<char>, root: Seq<char>)
    requires
        target.contains('/'),
    ensures
        forall|h: HitView|
            #[trigger] importers_view(graph, target, root).contains(h) && crate::paths::is_test_path(h.file)
                ==> tests_for_view(graph, target, root).contains(h),
        forall|k: int|
            0 <= k < tests_for_view(graph, target, root).len() ==> #[trigger] tests_for_view(graph, target, root)[k]
                == hint_view(no_tests_text(target)) || crate::paths::is_test_path(tests_for_view(graph, target, root)[k].file),
{
    broadcast use vstd::seq_lib::group_filter_ensures;

    let imps = importers_view(graph, target, root);
    let hs = test_hits(imps);
    assert forall|h: HitView| #[trigger] imps.contains(h) && crate::paths::is_test_path(h.file) implies tests_for_view(
        graph,
        target,
        root,
    ).contains(h) by {
        let i = choose|i: int| 0 <= i < imps.len() && imps[i] == h;
        assert(hs.contains(imps[i]));
    }
    assert forall|k: int| 0 <= k < tests_for_view(graph, target, root).len() implies #[trigger] tests_for_view(
        graph,
        target,
        root,
    )[k] == hint_view(no_tests_text(target)) || crate::paths::is_test_path(tests_for_view(graph, target, root)[k].file) by {
        if hs.len() > 0 {
            assert(tests_for_view(graph, target, root) == hs);
            assert(crate::paths::is_test_path(hs[k].file));
        }
    }
}

/// `tests for X`: test files importing X's file.
pub fn tests_for(graph: &CodeGraph, target: &str, project_root: &str) -> (r: Vec<SearchHit>)
    requires
        graph.wf(),
    ensures
        views(r@) == tests_for_view(graph, target@, project_root@),
{
    let tc = chars_of(target);
    let mut is_path = false;
    let mut k: usize = 0;
    while k < tc.len()
        invariant
            k <= tc@.len(),
            tc@ == target@,
            is_path == (exists|j: int| 0 <= j < k && (tc@[j] == '/' || tc@[j] == '\\')),
        decreases tc@.len() - k,
    {
        if tc[k] == '/' || tc[k] == '\\' {
            is_path = true;
        }
        k = k + 1;
    }
    proof {
        if is_path {
            let j = choose|j: int| 0 <= j < k && (tc@[j] == '/' || tc@[j] == '\\');
            assert(target@.contains(tc@[j]));
        } else {
            if target@.contains('/') {
                let j = choose|j: int| 0 <= j < target@.len() && target@[j] == '/';
            }
            if target@.contains('\\') {
                let j = choose|j: int| 0 <= j < target@.len() && target@[j] == '\\';
            }
        }
        assert(is_path == (target@.contains('/') || target@.contains('\\')));
    }
    let file: String = if is_path {
        target.to_owned()
    } else {
        let ids = find_by_name(graph, target);
        if ids.len() == 0 {
            let mut msg = String::new();
            push_str(&mut msg, "no same-file tests found; use grep for 'test_");
            push_str(&mut msg, target);
            push_str(&mut msg, "'");
            let mut v: Vec<SearchHit> = Vec::new();
            v.push(SearchHit::empty_hint(msg.as_str()));
            assert(views(v@) =~= seq![hint_view(no_tests_text(target@))]);
            return v;
        }
        assert(derefs(ids@)[0] == *ids@[0]);
        ids[0].file.clone()
    };
    let all = importers_of(graph, file.as_str(), project_root);
    let mut hits: Vec<SearchHit> = Vec::new();
    let mut i: usize = 0;
    while i < all.len()
        invariant
            i <= all@.len(),
            views(hits@) == test_hits(views(all@).take(i as int)),
        decreases all@.len() - i,
    {
        let ghost prev = hits@;
        proof {
            assert(views(all@).take(i + 1) =~= views(all@).take(i as int).push(all@[i as int]@));
            crate::graph::types::reveal_filter_push(views(all@).take(i as int), all@[i as int]@, |h: HitView| crate::paths::is_test_path(h.file));
        }
        if crate::paths::path_is_test(all[i].file.as_str()) {
            hits.push(all[i].clone());
            assert(views(hits@) =~= views(prev).push(all@[i as int]@));
        }
        i = i + 1;
    }
    assert(views(all@).take(all@.len() as int) =~= views(all@));
    if hits.len() == 0 {
        let mut msg = String::new();
        push_str(&mut msg, "no same-file tests found; use grep for 'test_");
        push_str(&mut msg, target);
        push_str(&mut msg, "'");
        let mut v: Vec<SearchHit> = Vec::new();
        v.push(SearchHit::empty_hint(msg.as_str()));
        assert(views(v@) =~= seq![hint_view(no_tests_text(target@))]);
        return v;
    }
    hits
}

// ---------------------------------------------------------------------------
// Chains.

/// `c` lower-cased (ASCII only) is `e`.
pub open spec fn lower_is(c: char, e: char) -> bool {
    if 'A' <= c && c <= 'Z' {
        (c as u32) + 32 == (e as u32)
    } else {
        c == e
    }
}

/// `s` ends with `e`, ignoring ASCII case in `s`.
pub open spec fn ends_with_lower(s: Seq<char>, e: Seq<char>) -> bool {
    e.len() <= s.len() && forall|k: int| 0 <= k < e.len() ==> lower_is(#[trigger] s[s.len() - e.len() + k], e[k])
}

/// Heuristic: `s` looks like a file path, not a symbol name: it holds a path
/// separator or ends in a known source extension.
pub open spec fn path_like(s: Seq<char>) -> bool {
    ||| s.contains('/')
    ||| s.contains('\\')
    ||| ends_with_lower(s, ".rs"@)
    ||| ends_with_lower(s, ".ts"@)
    ||| ends_with_lower(s, ".tsx"@)
    ||| ends_with_lower(s, ".js"@)
    ||| ends_with_lower(s, ".jsx"@)
    ||| ends_with_lower(s, ".py"@)
}

fn lower_matches(c: char, e: char) -> (r: bool)
    ensures
        r == lower_is(c, e),
{
    if 'A' <= c && c <= 'Z' {
        (c as u32) + 32 == (e as u32)
    } else {
        c == e
    }
}

fn ends_with_ext(s: &Vec<char>, ext: &str) -> (r: bool)
    ensures
        r == ends_with_lower(s@, ext@),
{
    let e = chars_of(ext);
    if e.len() > s.len() {
        return false;
    }
    let sl = s.len();
    let base = sl - e.len();
    let mut k: usize = 0;
    while k < e.len()
        invariant
            sl == s@.len(),
            e@ == ext@,
            e@.len() <= s@.len(),
            base == s@.len() - e@.len(),
            k <= e@.len(),
            forall|j: int| 0 <= j < k ==> lower_is(#[trigger] s@[s@.len() - e@.len() + j], e@[j]),
        decreases e@.len() - k,
    {
        if !lower_matches(s[base + k], e[k]) {
            return false;
        }
        k = k + 1;
    }
    true
}

/// Does `s` look like a file path?
pub fn is_path_like(s: &str) -> (r: bool)
    ensures
        r == path_like(s@),
{
    let cs = chars_of(s);
    let mut k: usize = 0;
    while k < cs.len()
        invariant
            cs@ == s@,
            k <= cs@.len(),
            forall|j: int| 0 <= j < k ==> cs@[j] != '/' && cs@[j] != '\\',
        decreases cs@.len() - k,
    {
        if cs[k] == '/' || cs[k] == '\\' {
            assert(s@.contains(cs@[k as int]));
            return true;
        }
        k = k + 1;
    }
    ends_with_ext(&cs, ".rs") || ends_with_ext(&cs, ".ts") || ends_with_ext(&cs, ".tsx")
        || ends_with_ext(&cs, ".js") || ends_with_ext(&cs, ".jsx") || ends_with_ext(&cs, ".py")
}

/// Text for an endpoint name that resolves to no symbol.
pub open spec fn no_endpoint_text(name: Seq<char>) -> Seq<char> {
    "no symbol named '"@ + name + "' found; try `find "@ + name + "` for fuzzy matches"@
}

/// Text for two symbols with no call-graph path between them.
pub open spec fn no_path_text(from: Seq<char>, to: Seq<char>) -> Seq<char> {
    "no call-graph path from "@ + from + " to "@ + to
        + " — Phase 1 doesn't follow re-export chains (`pub use`) or dynamic dispatch. Try `imports of <from-file>` and `callers of "@
        + to + "` to bridge manually, or grep for intermediate call sites."@
}

/// Text for a path with no indexed symbols.
pub open spec fn not_indexed_text(to: Seq<char>) -> Seq<char> {
    "no symbols indexed in "@ + to + "; try `outline of "@ + to + "` or check the path spelling"@
}

/// Text for a file no symbol of which can be reached.
pub open spec fn no_file_path_text(from: Seq<char>, to: Seq<char>) -> Seq<char> {
    "no call-graph path from "@ + from + " to any symbol in "@ + to + "; try `callees of "@ + from
        + "` then filter by file"@
}

/// Text for candidates cut off after the first ten.
pub open spec fn truncated_text(n: nat, to: Seq<char>) -> Seq<char> {
    decimal(n) + " more candidate symbols in "@ + to + " truncated; use `outline of "@ + to
        + "` for the full list"@
}

/// The forward edges of every node of `path`, node by node.
pub open spec fn path_edges(graph: &CodeGraph, path: Seq<SymbolId>) -> Seq<Edge>
    decreases path.len(),
{
    if path.len() == 0 {
        Seq::empty()
    } else {
        path_edges(graph, path.drop_last()) + edges_under(graph.forward_edges@, path.last()@)
    }
}

/// Targets of the call edges in `es` that lie in `to`, are indexed, are not on
/// `chain`, each kept once, in order.
pub open spec fn candidates(graph: &CodeGraph, es: Seq<Edge>, chain: Seq<SymbolId>, to: Seq<char>) -> Seq<SymbolId>
    decreases es.len(),
{
    if es.len() == 0 {
        Seq::empty()
    } else {
        let prev = candidates(graph, es.drop_last(), chain, to);
        let e = es.last();
        if e.kind == EdgeKind::Calls && crate::paths::ends_with_path(e.to.file@, to)
            && !crate::graph::ops::id_views(chain).contains(e.to@)
            && !crate::graph::ops::id_views(prev).contains(e.to@)
            && graph.symbols@.dom().contains(e.to@) {
            prev.push(e.to)
        } else {
            prev
        }
    }
}

/// The hits that follow a chain into file `to`: up to ten candidates by
/// descending centrality, and a note on how many more there were.
pub open spec fn candidate_hits(graph: &CodeGraph, path: Seq<SymbolId>, to: Seq<char>) -> Seq<HitView> {
    let cs = candidates(graph, path_edges(graph, path), path, to);
    let shown = symbol_hits(graph, first_n(by_centrality(graph, cs), 10), false);
    if cs.len() > 10 {
        shown.push(hint_view(truncated_text((cs.len() - 10) as nat, to)))
    } else {
        shown
    }
}

/// The hit for `id`'s symbol, if it has one.
pub open spec fn opt_hit(graph: &CodeGraph, id: SymbolId) -> Seq<HitView> {
    symbol_hits(graph, seq![id], false)
}

/// What `chain_to_file_path` may return.
pub open spec fn file_chain_ok(graph: &CodeGraph, from: SymbolId, to: Seq<char>, hs: Seq<HitView>) -> bool {
    if !exists|k: (Seq<char>, Seq<char>, SymbolKind)| graph.symbols@.dom().contains(k) && crate::paths::ends_with_path(k.0, to) {
        hs == seq![hint_view(not_indexed_text(to))]
    } else if forall|b: (Seq<char>, Seq<char>, SymbolKind)| crate::graph::ops::reachable(graph, from@, b) ==> !crate::paths::ends_with_path(b.0, to) {
        hs == opt_hit(graph, from) + seq![hint_view(no_file_path_text(from.name@, to))]
    } else {
        exists|path: Seq<SymbolId>|
            crate::graph::ops::is_walk(graph, crate::graph::ops::id_views(path))
            && path[0]@ == from@
            && crate::paths::ends_with_path(path.last()@.0, to)
            && (forall|p: Seq<crate::graph::ops::IdV>| #[trigger] crate::graph::ops::is_walk(graph, p) && p[0] == from@
                && crate::paths::ends_with_path(p.last().0, to) ==> path.len() <= p.len())
            && hs == symbol_hits(graph, path, false) + candidate_hits(graph, path, to)
    }
}

/// Hits for `ids` that have a symbol, all of them.
fn all_hits(graph: &CodeGraph, ids: &Vec<SymbolId>) -> (r: Vec<SearchHit>)
    requires
        graph.wf(),
    ensures
        views(r@) == symbol_hits(graph, ids@, false),
{
    let mut refs: Vec<&SymbolId> = Vec::new();
    let mut i: usize = 0;
    while i < ids.len()
        invariant
            i <= ids@.len(),
            derefs(refs@) == ids@.take(i as int),
        decreases ids@.len() - i,
    {
        let ghost prev = refs@;
        refs.push(&ids[i]);
        assert(derefs(refs@) =~= derefs(prev).push(ids@[i as int]));
        i = i + 1;
        assert(derefs(refs@) =~= ids@.take(i as int));
    }
    assert(ids@.take(ids@.len() as int) =~= ids@);
    collect_hits(graph, &refs, ids.len(), false)
}

/// Is some indexed symbol in a file ending with `to`?
fn any_symbol_in(graph: &CodeGraph, to: &str) -> (r: bool)
    requires
        graph.wf(),
    ensures
        r == exists|k: (Seq<char>, Seq<char>, SymbolKind)| graph.symbols@.dom().contains(k) && crate::paths::ends_with_path(k.0, to@),
{
    proof {
        graph.symbols.lemma_wf();
    }
    let n = graph.symbols.len();
    let mut i: usize = 0;
    while i < n
        invariant
            graph.wf(),
            n == graph.symbols.entry_seq().len(),
            i <= n,
            forall|j: int| 0 <= j < i ==> !crate::paths::ends_with_path(#[trigger] graph.symbols.entry_seq()[j].0@.0, to@),
        decreases n - i,
    {
        let k = graph.symbols.key_at(i);
        if crate::paths::path_ends_with(k.file.as_str(), to) {
            proof {
                graph.symbols.lemma_wf();
                assert(graph.symbols@.dom().contains(graph.symbols.entry_seq()[i as int].0@));
            }
            return true;
        }
        i = i + 1;
    }
    proof {
        graph.symbols.lemma_wf();
        assert forall|k: (Seq<char>, Seq<char>, SymbolKind)| graph.symbols@.dom().contains(k) implies !crate::paths::ends_with_path(k.0, to@) by {
            assert(graph.symbols.key_seq().contains(k));
            let j = choose|j: int| 0 <= j < graph.symbols.key_seq().len() && graph.symbols.key_seq()[j] == k;
            assert(graph.symbols.entry_seq()[j].0@ == k);
        }
    }
    false
}

/// Does `ids` hold an id with view `k`?
fn holds_id(ids: &Vec<SymbolId>, k: &SymbolId) -> (r: bool)
    ensures
        r == crate::graph::ops::id_views(ids@).contains(k@),
{
    let mut i: usize = 0;
    while i < ids.len()
        invariant
            i <= ids@.len(),
            forall|j: int| 0 <= j < i ==> ids@[j]@ != k@,
        decreases ids@.len() - i,
    {
        if ids[i].key_eq(k) {
            assert(crate::graph::ops::id_views(ids@)[i as int] == k@);
            return true;
        }
        i = i + 1;
    }
    proof {
        if crate::graph::ops::id_views(ids@).contains(k@) {
            let j = choose|j: int| 0 <= j < ids@.len() && crate::graph::ops::id_views(ids@)[j] == k@;
            assert(ids@[j]@ == k@);
        }
    }
    false
}

/// Candidate ids after a chain into file `to`.
fn collect_candidates<'g>(graph: &'g CodeGraph, path: &Vec<SymbolId>, to: &str) -> (r: Vec<&'g SymbolId>)
    requires
        graph.wf(),
    ensures
        derefs(r@) == candidates(graph, path_edges(graph, path@), path@, to@),
{
    let mut out: Vec<&'g SymbolId> = Vec::new();
    let mut owned: Vec<SymbolId> = Vec::new();
    let mut i: usize = 0;
    while i < path.len()
        invariant
            graph.wf(),
            i <= path@.len(),
            derefs(out@) == owned@,
            owned@ == candidates(graph, path_edges(graph, path@.take(i as int)), path@, to@),
        decreases path@.len() - i,
    {
        assert(path@.take(i + 1).drop_last() =~= path@.take(i as int));
        let ghost base = path_edges(graph, path@.take(i as int));
        match graph.forward_edges.get(&path[i]) {
            Some(edges) => {
                let mut j: usize = 0;
                while j < edges.len()
                    invariant
                        graph.wf(),
                        i < path@.len(),
                        *edges == graph.forward_edges@[path@[i as int]@],
                        graph.forward_edges@.dom().contains(path@[i as int]@),
                        j <= edges@.len(),
                        derefs(out@) == owned@,
                        owned@ == candidates(graph, base + edges@.take(j as int), path@, to@),
                    decreases edges@.len() - j,
                {
                    let e = &edges[j];
                    proof {
                        assert((base + edges@.take(j + 1)).drop_last() =~= base + edges@.take(j as int));
                        assert((base + edges@.take(j + 1)).last() == e);
                    }
                    if e.kind == EdgeKind::Calls && crate::paths::path_ends_with(e.to.file.as_str(), to)
                        && !holds_id(path, &e.to) && !holds_id(&owned, &e.to)
                        && graph.symbols.contains_key(&e.to) {
                        let ghost prev = out@;
                        out.push(&e.to);
                        owned.push(e.to.clone());
                        assert(derefs(out@) =~= derefs(prev).push(e.to));
                    }
                    j = j + 1;
                }
                assert(edges@.take(edges@.len() as int) =~= edges@);
                assert(path_edges(graph, path@.take(i + 1)) =~= base + edges@);
            },
            None => {
                assert(path_edges(graph, path@.take(i + 1)) =~= base);
            },
        }
        i = i + 1;
    }
    assert(path@.take(path@.len() as int) =~= path@);
    out
}

/// Path form of `chain from X to FILE`: a shortest walk from `from_id` to the first
/// symbol of the file reached, then up to ten other symbols of that file that
/// the walk's nodes call.
fn chain_to_file_path(graph: &CodeGraph, from_id: &SymbolId, to_path: &str) -> (r: Vec<SearchHit>)
    requires
        graph.wf(),
    ensures
        file_chain_ok(graph, *from_id, to_path@, views(r@)),
{
    if !any_symbol_in(graph, to_path) {
        let mut msg = String::new();
        push_str(&mut msg, "no symbols indexed in ");
        push_str(&mut msg, to_path);
        push_str(&mut msg, "; try `outline of ");
        push_str(&mut msg, to_path);
        push_str(&mut msg, "` or check the path spelling");
        let mut v: Vec<SearchHit> = Vec::new();
        v.push(SearchHit::empty_hint(msg.as_str()));
        assert(views(v@) =~= seq![hint_view(not_indexed_text(to_path@))]);
        return v;
    }
    let path = match crate::graph::ops::shortest_path_to_file(graph, from_id, to_path) {
        Some(p) => p,
        None => {
            let mut one: Vec<SymbolId> = Vec::new();
            one.push(from_id.clone());
            let mut hits = all_hits(graph, &one);
            let mut msg = String::new();
            push_str(&mut msg, "no call-graph path from ");
            push_str(&mut msg, from_id.name.as_str());
            push_str(&mut msg, " to any symbol in ");
            push_str(&mut msg, to_path);
            push_str(&mut msg, "; try `callees of ");
            push_str(&mut msg, from_id.name.as_str());
            push_str(&mut msg, "` then filter by file");
            let ghost before = views(hits@);
            hits.push(SearchHit::empty_hint(msg.as_str()));
            assert(one@ =~= seq![*from_id]);
            assert(views(hits@) =~= before + seq![hint_view(no_file_path_text(from_id.name@, to_path@))]);
            return hits;
        },
    };
    let mut hits = all_hits(graph, &path);
    let mut cands = collect_candidates(graph, &path, to_path);
    let total = cands.len();
    sort_by_centrality(graph, &mut cands);
    let shown = collect_hits(graph, &cands, 10, false);
    let ghost chain_part = views(hits@);
    let mut k: usize = 0;
    while k < shown.len()
        invariant
            k <= shown@.len(),
            views(hits@) == chain_part + views(shown@).take(k as int),
        decreases shown@.len() - k,
    {
        let ghost prev = hits@;
        let h = shown[k].clone();
        hits.push(h);
        assert(views(hits@) =~= views(prev).push(shown@[k as int]@));
        k = k + 1;
        assert(views(hits@) =~= chain_part + views(shown@).take(k as int));
    }
    assert(views(shown@).take(shown@.len() as int) =~= views(shown@));
    if total > 10 {
        let mut msg = String::new();
        push_decimal(&mut msg, (total - 10) as u64);
        push_str(&mut msg, " more candidate symbols in ");
        push_str(&mut msg, to_path);
        push_str(&mut msg, " truncated; use `outline of ");
        push_str(&mut msg, to_path);
        push_str(&mut msg, "` for the full list");
        let ghost before = views(hits@);
        hits.push(SearchHit::empty_hint(msg.as_str()));
        assert(views(hits@) =~= before.push(hint_view(truncated_text((total - 10) as nat, to_path@))));
    }
    assert(views(hits@) == symbol_hits(graph, path@, false) + candidate_hits(graph, path@, to_path@));
    proof {
        let p = crate::graph::ops::id_views(path@);
        assert(p[0] == from_id@);
        assert(crate::graph::ops::reachable(graph, from_id@, p.last()));
        assert(p.last() == path@.last()@);
    }
    hits
}

/// What `chain_from_to` may return for two names.
pub open spec fn chain_ok(graph: &CodeGraph, from: Seq<char>, to: Seq<char>, hs: Seq<HitView>) -> bool {
    let fids = name_matches(graph, from);
    if fids.len() == 0 {
        hs == seq![hint_view(no_endpoint_text(from))]
    } else if path_like(to) {
        file_chain_ok(graph, fids[0], to, hs)
    } else {
        let tids = name_matches(graph, to);
        if tids.len() == 0 {
            hs == seq![hint_view(no_endpoint_text(to))]
        } else if crate::graph::ops::reachable(graph, fids[0]@, tids[0]@) {
            exists|path: Seq<SymbolId>|
                crate::graph::ops::is_walk(graph, crate::graph::ops::id_views(path))
                && path[0]@ == fids[0]@
                && path.last()@ == tids[0]@
                && (forall|p: Seq<crate::graph::ops::IdV>| #[trigger] crate::graph::ops::is_walk(graph, p) && p[0] == fids[0]@
                    && p.last() == tids[0]@ ==> path.len() <= p.len())
                && hs == symbol_hits(graph, path, false)
        } else {
            hs == opt_hit(graph, fids[0]) + opt_hit(graph, tids[0]) + seq![hint_view(no_path_text(from, to))]
        }
    }
}

/// `chain from X to Y`: a shortest call-graph walk from the first match of `X` to the
/// first match of `Y` (or, when `Y` looks like a path, to that file), or the
/// endpoints and a hint when there is none.
pub fn chain_from_to(graph: &CodeGraph, from_name: &str, to_name: &str) -> (r: Vec<SearchHit>)
    requires
        graph.wf(),
    ensures
        chain_ok(graph, from_name@, to_name@, views(r@)),
{
    let from_ids = find_by_name(graph, from_name);
    if from_ids.len() == 0 {
        let mut msg = String::new();
        push_str(&mut msg, "no symbol named '");
        push_str(&mut msg, from_name);
        push_str(&mut msg, "' found; try `find ");
        push_str(&mut msg, from_name);
        push_str(&mut msg, "` for fuzzy matches");
        let mut v: Vec<SearchHit> = Vec::new();
        v.push(SearchHit::empty_hint(msg.as_str()));
        assert(views(v@) =~= seq![hint_view(no_endpoint_text(from_name@))]);
        return v;
    }
    let from_id = from_ids[0];
    assert(derefs(from_ids@)[0] == *from_id);
    if is_path_like(to_name) {
        return chain_to_file_path(graph, from_id, to_name);
    }
    let to_ids = find_by_name(graph, to_name);
    if to_ids.len() == 0 {
        let mut msg = String::new();
        push_str(&mut msg, "no symbol named '");
        push_str(&mut msg, to_name);
        push_str(&mut msg, "' found; try `find ");
        push_str(&mut msg, to_name);
        push_str(&mut msg, "` for fuzzy matches");
        let mut v: Vec<SearchHit> = Vec::new();
        v.push(SearchHit::empty_hint(msg.as_str()));
        assert(views(v@) =~= seq![hint_view(no_endpoint_text(to_name@))]);
        return v;
    }
    let to_id = to_ids[0];
    assert(derefs(to_ids@)[0] == *to_id);
    match crate::graph::ops::shortest_path(graph, from_id, to_id) {
        Some(path) => {
            let hits = all_hits(graph, &path);
            assert(chain_ok(graph, from_name@, to_name@, views(hits@))) by {
                assert(crate::graph::ops::reachable(graph, from_id@, to_id@)) by {
                    let p = crate::graph::ops::id_views(path@);
                    assert(p[0] == from_id@);
                    assert(p.last() == to_id@);
                }
            }
            hits
        },
        None => {
            let mut one: Vec<SymbolId> = Vec::new();
            one.push(from_id.clone());
            one.push(to_id.clone());
            let mut hits = all_hits(graph, &one);
            let mut msg = String::new();
            push_str(&mut msg, "no call-graph path from ");
            push_str(&mut msg, from_name);
            push_str(&mut msg, " to ");
            push_str(&mut msg, to_name);
            push_str(&mut msg, " — Phase 1 doesn't follow re-export chains (`pub use`) or dynamic dispatch. Try `imports of <from-file>` and `callers of ");
            push_str(&mut msg, to_name);
            push_str(&mut msg, "` to bridge manually, or grep for intermediate call sites.");
            let ghost before = views(hits@);
            hits.push(SearchHit::empty_hint(msg.as_str()));
            proof {
                assert(one@ =~= seq![*from_id, *to_id]);
                assert(seq![*from_id, *to_id].drop_last() =~= seq![*from_id]);
                let sa = seq![*from_id];
                let sb = seq![*to_id];
                assert(sa.drop_last() =~= Seq::<SymbolId>::empty());
                assert(sb.drop_last() =~= Seq::<SymbolId>::empty());
                assert(symbol_hits(graph, Seq::<SymbolId>::empty(), false) =~= Seq::<HitView>::empty());
                assert(symbol_hits(graph, seq![*from_id, *to_id], false) =~= opt_hit(graph, *from_id) + opt_hit(graph, *to_id));
            }
            assert(views(hits@) =~= before + seq![hint_view(no_path_text(from_name@, to_name@))]);
            hits
        },
    }
}

// ---------------------------------------------------------------------------
// Outline.

/// Index of the last whitespace character of `s`, or `-1`.
pub open spec fn last_ws(s: Seq<char>) -> int
    decreases s.len(),
{
    if s.len() == 0 {
        -1
    } else if crate::strings::is_ws(s.last()) {
        s.len() - 1
    } else {
        last_ws(s.drop_last())
    }
}

/// The last whitespace-separated word of `s`, or the empty text.
pub open spec fn last_word(s: Seq<char>) -> Seq<char> {
    let u = crate::strings::trim_end(s);
    u.skip(last_ws(u) + 1)
}

/// The bare function name of a signature: the last word before the first
/// `(`, after dropping a leading `fn `.
pub open spec fn fn_name(sig: Seq<char>) -> Seq<char> {
    let open = crate::search::hit::first_index(sig, '(');
    let head = if open < 0 {
        sig
    } else {
        sig.take(open)
    };
    last_word(crate::search::hit::strip_fn(head))
}

proof fn lemma_first_index_from(s: Seq<char>, c: char, i: int)
    requires
        0 <= i,
    ensures
        crate::search::hit::first_index_from(s, c, i) == -1 || (i <= crate::search::hit::first_index_from(s, c, i) < s.len()),
    decreases s.len() - i,
{
    if i < s.len() && s[i] != c {
        lemma_first_index_from(s, c, i + 1);
    }
}

proof fn lemma_last_ws(s: Seq<char>)
    ensures
        -1 <= last_ws(s) < s.len(),
    decreases s.len(),
{
    if s.len() > 0 && !crate::strings::is_ws(s.last()) {
        lemma_last_ws(s.drop_last());
    }
}

proof fn lemma_trim_end_prefix(s: Seq<char>)
    ensures
        crate::strings::trim_end(s).is_prefix_of(s),
    decreases s.len(),
{
    if s.len() > 0 && crate::strings::is_ws(s.last()) {
        lemma_trim_end_prefix(s.drop_last());
    }
}

/// The bare function name of `sig`.
pub fn extract_fn_name(sig: &str) -> (r: String)
    ensures
        r@ == fn_name(sig@),
{
    let cs = chars_of(sig);
    let n = cs.len();
    let mut open: usize = 0;
    while open < n && cs[open] != '('
        invariant
            n == cs@.len(),
            open <= n,
            crate::search::hit::first_index(cs@, '(') == crate::search::hit::first_index_from(cs@, '(', open as int),
        decreases n - open,
    {
        open = open + 1;
    }
    let ghost head = if open < n {
        cs@.take(open as int)
    } else {
        cs@
    };
    assert(cs@.take(open as int) =~= head);
    let fn_kw = chars_of("fn ");
    proof {
        reveal_strlit("fn ");
    }
    let mut hv: Vec<char> = Vec::new();
    let mut k: usize = 0;
    while k < open
        invariant
            k <= open <= n,
            n == cs@.len(),
            hv@ == cs@.take(k as int),
        decreases open - k,
    {
        hv.push(cs[k]);
        k = k + 1;
        assert(hv@ =~= cs@.take(k as int));
    }
    let start: usize = if crate::strings::starts_with_chars(&hv, &fn_kw) {
        3
    } else {
        0
    };
    let ghost t = crate::search::hit::strip_fn(head);
    assert(t =~= hv@.skip(start as int));
    // Trailing whitespace end.
    let mut end = open;
    while end > start && crate::strings::char_is_ws(hv[end - 1])
        invariant
            start <= end <= open,
            hv@.len() == open,
            crate::strings::trim_end(t) == crate::strings::trim_end(hv@.subrange(start as int, end as int)),
        decreases end,
    {
        assert(hv@.subrange(start as int, end as int).drop_last() =~= hv@.subrange(start as int, end - 1));
        end = end - 1;
    }
    let ghost u = hv@.subrange(start as int, end as int);
    assert(crate::strings::trim_end(u) == u);
    let mut w = end;
    while w > start && !crate::strings::char_is_ws(hv[w - 1])
        invariant
            start <= w <= end,
            end <= open,
            hv@.len() == open,
            u == hv@.subrange(start as int, end as int),
            last_ws(u) == last_ws(hv@.subrange(start as int, w as int)),
        decreases w,
    {
        assert(hv@.subrange(start as int, w as int).drop_last() =~= hv@.subrange(start as int, w - 1));
        w = w - 1;
    }
    proof {
        let pre = hv@.subrange(start as int, w as int);
        if w > start {
            assert(pre.last() == hv@[w - 1]);
        }
        assert(last_ws(u) + 1 == w - start);
        assert(u.skip(last_ws(u) + 1) =~= hv@.subrange(w as int, end as int));
    }
    crate::strings::string_of_range(&hv, w, end)
}

/// The symbols of `ids` that are functions, async functions or methods, in order.
pub open spec fn outline_symbols(graph: &CodeGraph, ids: Seq<SymbolId>) -> Seq<Symbol>
    decreases ids.len(),
{
    if ids.len() == 0 {
        Seq::empty()
    } else {
        let prev = outline_symbols(graph, ids.drop_last());
        match symbol_at(graph, ids.last()) {
            Some(s) => if s.id.kind == SymbolKind::Function || s.id.kind == SymbolKind::AsyncFunction
                || s.id.kind == SymbolKind::Method {
                prev.push(s)
            } else {
                prev
            },
            None => prev,
        }
    }
}

/// `syms` stably sorted by starting line.
pub open spec fn by_line(syms: Seq<Symbol>) -> Seq<Symbol> {
    crate::sorting::stable_sorted(Seq::new(syms.len(), |i: int| (i as usize, syms[i].line_start as u64))).map_values(
        |p: (usize, u64)| syms[p.0 as int],
    )
}

/// An outline lists symbols by line: along `by_line(syms)` the start line
/// never decreases, and every listed symbol is one of `syms`.
pub proof fn lemma_by_line_ascending(syms: Seq<Symbol>)
    requires
        syms.len() <= usize::MAX,
    ensures
        by_line(syms).len() == syms.len(),
        forall|i: int, j: int| 0 <= i < j < syms.len() ==> (#[trigger] by_line(syms)[i]).line_start <= (#[trigger] by_line(syms)[j]).line_start,
        forall|i: int| 0 <= i < syms.len() ==> syms.contains(#[trigger] by_line(syms)[i]),
{
    let keyed = Seq::new(syms.len(), |i: int| (i as usize, syms[i].line_start as u64));
    let sorted = crate::sorting::stable_sorted(keyed);
    crate::sorting::lemma_sorted_members(keyed);
    crate::sorting::lemma_stable_sorted_ascending(keyed);
    assert forall|k: int| 0 <= k < sorted.len() implies 0 <= #[trigger] sorted[k].0 < syms.len() && sorted[k].1
        == syms[sorted[k].0 as int].line_start as u64 by {
        assert(keyed.contains(sorted[k]));
        let w = choose|w: int| 0 <= w < keyed.len() && keyed[w] == sorted[k];
        assert(keyed[w] == (w as usize, syms[w].line_start as u64));
        assert((w as usize) as int == w);
    }
    assert forall|i: int, j: int| 0 <= i < j < syms.len() implies (#[trigger] by_line(syms)[i]).line_start <= (
    #[trigger] by_line(syms)[j]).line_start by {
        assert(sorted[i].1 <= sorted[j].1);
        assert(by_line(syms)[i] == syms[sorted[i].0 as int]);
        assert(by_line(syms)[j] == syms[sorted[j].0 as int]);
    }
    assert forall|i: int| 0 <= i < syms.len() implies syms.contains(#[trigger] by_line(syms)[i]) by {
        assert(by_line(syms)[i] == syms[sorted[i].0 as int]);
    }
}

/// `h` is signed and its function name is `name`.
pub open spec fn named(h: HitView, name: Seq<char>) -> bool {
    h.signature matches Some(s) && fn_name(s) == name
}

/// Hits after the first with the same function name are tagged `[test]`.
pub open spec fn tag_duplicates(hs: Seq<HitView>) -> Seq<HitView> {
    Seq::new(
        hs.len(),
        |i: int|
            match hs[i].signature {
                Some(sig) => if exists|j: int| 0 <= j < i && #[trigger] named(hs[j], fn_name(sig)) {
                    HitView { signature: Some("[test] "@ + sig), ..hs[i] }
                } else {
                    hs[i]
                },
                None => hs[i],
            },
    )
}

/// Which run label an outline collapse pass uses.
pub enum Collapse {
    Methods,
    Helpers,
    Tests,
}

/// First index at or after `i` (below `n`) whose flag is off, or `n`.
pub open spec fn run_end(flags: Seq<bool>, i: int, n: int) -> int
    decreases n - i,
{
    if i >= n || !flags[i] {
        i
    } else {
        run_end(flags, i + 1, n)
    }
}

/// The function names of the signed hits of `g`, in order.
pub open spec fn group_names(g: Seq<HitView>) -> Seq<Seq<char>>
    decreases g.len(),
{
    if g.len() == 0 {
        Seq::empty()
    } else {
        match g.last().signature {
            Some(sig) => group_names(g.drop_last()).push(fn_name(sig)),
            None => group_names(g.drop_last()),
        }
    }
}

/// The signature that stands for a run `g` of two or more hits.
pub open spec fn group_signature(kind: Collapse, g: Seq<HitView>) -> Seq<char> {
    match kind {
        Collapse::Methods => "impl { ("@ + decimal(g.len()) + " methods) }"@,
        Collapse::Helpers => "[helpers] "@ + join_with(group_names(g), ", "@),
        Collapse::Tests => "[test] ("@ + decimal(g.len()) + " functions)"@,
    }
}

/// `hs[i..]` with each run of two or more flagged hits replaced by one hit:
/// the run's first, carrying the run's signature.
pub open spec fn collapse_from(hs: Seq<HitView>, flags: Seq<bool>, kind: Collapse, i: int) -> Seq<HitView>
    decreases hs.len() - i,
{
    if i < 0 || i >= hs.len() {
        Seq::empty()
    } else if flags[i] {
        let j = run_end(flags, i + 1, hs.len() as int);
        proof {
            lemma_run_end(flags, i + 1, hs.len() as int);
        }
        let head = if j - i >= 2 {
            HitView { signature: Some(group_signature(kind, hs.subrange(i, j))), ..hs[i] }
        } else {
            hs[i]
        };
        seq![head] + collapse_from(hs, flags, kind, j)
    } else {
        seq![hs[i]] + collapse_from(hs, flags, kind, i + 1)
    }
}

pub proof fn lemma_run_end(flags: Seq<bool>, i: int, n: int)
    ensures
        i <= n ==> i <= run_end(flags, i, n) <= n,
        forall|k: int| i <= k < run_end(flags, i, n) ==> flags[k],
    decreases n - i,
{
    if i < n && flags[i] {
        lemma_run_end(flags, i + 1, n);
    }
}

/// A hit whose function name marks a test.
pub open spec fn test_named(h: HitView) -> bool {
    h.signature matches Some(sig) && "test_"@.is_prefix_of(fn_name(sig))
}

/// Entry counts by category: regular, method groups, test groups, helper groups.
pub open spec fn outline_counts(hs: Seq<HitView>) -> (nat, nat, nat, nat)
    decreases hs.len(),
{
    if hs.len() == 0 {
        (0, 0, 0, 0)
    } else {
        let (r, m, t, h) = outline_counts(hs.drop_last());
        match hs.last().signature {
            Some(sig) => if "impl { ("@.is_prefix_of(sig) {
                (r, m + 1, t, h)
            } else if "[test]"@.is_prefix_of(sig) {
                (r, m, t + 1, h)
            } else if "[helpers]"@.is_prefix_of(sig) {
                (r, m, t, h + 1)
            } else {
                (r + 1, m, t, h)
            },
            None => (r + 1, m, t, h),
        }
    }
}

/// `"{n} {label}"` when `n` is positive.
pub open spec fn count_part(n: nat, label: Seq<char>) -> Seq<Seq<char>> {
    if n > 0 {
        seq![decimal(n) + seq![' '] + label]
    } else {
        Seq::empty()
    }
}

/// The outline's summary header.
pub open spec fn outline_summary(hs: Seq<HitView>) -> Seq<char> {
    let (r, m, t, h) = outline_counts(hs);
    let parts = count_part(r, "functions"@) + count_part(m, "method groups"@) + count_part(t, "test groups"@)
        + count_part(h, "helper groups"@);
    decimal(r + m + t + h) + " entries ("@ + join_with(parts, ", "@) + ")"@
}

/// The flags `other` of the entries a collapse of the runs flagged by
/// `flags` (over `n` entries, from `i` on) keeps: one per kept entry, a
/// collapsed run taking the flag of its first entry.
pub open spec fn kept_flags(other: Seq<bool>, flags: Seq<bool>, n: int, i: int) -> Seq<bool>
    decreases n - i,
{
    if i < 0 || i >= n {
        Seq::empty()
    } else if flags[i] {
        let j = run_end(flags, i + 1, n);
        proof {
            lemma_run_end(flags, i + 1, n);
        }
        seq![other[i]] + kept_flags(other, flags, n, j)
    } else {
        seq![other[i]] + kept_flags(other, flags, n, i + 1)
    }
}

/// A collapse and the flags it keeps have the same length.
proof fn lemma_kept_flags_len(hs: Seq<HitView>, other: Seq<bool>, flags: Seq<bool>, kind: Collapse, i: int)
    requires
        0 <= i,
    ensures
        kept_flags(other, flags, hs.len() as int, i).len() == collapse_from(hs, flags, kind, i).len(),
    decreases hs.len() - i,
{
    if i < hs.len() {
        lemma_run_end(flags, i + 1, hs.len() as int);
        if flags[i] {
            lemma_kept_flags_len(hs, other, flags, kind, run_end(flags, i + 1, hs.len() as int));
        } else {
            lemma_kept_flags_len(hs, other, flags, kind, i + 1);
        }
    }
}

/// The flags `other` of the entries that collapsing the runs flagged by
/// `flags` among the first `n` entries keeps.
fn keep_flags(other: &Vec<bool>, flags: &Vec<bool>, n: usize) -> (r: Vec<bool>)
    requires
        other@.len() >= n,
        flags@.len() >= n,
    ensures
        r@ == kept_flags(other@, flags@, n as int, 0),
{
    let mut out: Vec<bool> = Vec::new();
    let mut i: usize = 0;
    while i < n
        invariant
            other@.len() >= n,
            flags@.len() >= n,
            i <= n,
            out@ + kept_flags(other@, flags@, n as int, i as int) == kept_flags(other@, flags@, n as int, 0),
        decreases n - i,
    {
        let ghost rest = kept_flags(other@, flags@, n as int, i as int);
        let ghost prev = out@;
        out.push(other[i]);
        if flags[i] {
            let start = i;
            i = i + 1;
            proof {
                lemma_run_end(flags@, start + 1, n as int);
            }
            while i < n && flags[i]
                invariant
                    start < i <= n,
                    flags@.len() >= n,
                    run_end(flags@, start + 1, n as int) == run_end(flags@, i as int, n as int),
                decreases n - i,
            {
                i = i + 1;
            }
            assert(rest =~= seq![other@[start as int]] + kept_flags(other@, flags@, n as int, i as int));
        } else {
            assert(rest =~= seq![other@[i as int]] + kept_flags(other@, flags@, n as int, i + 1));
            i = i + 1;
        }
        assert(out@ =~= prev.push(rest[0]));
    }
    assert(out@ + kept_flags(other@, flags@, n as int, i as int) =~= out@);
    out
}

/// `outline of FILE`: the file's functions and methods by line, later
/// duplicates of a name tagged `[test]`, runs of methods, then runs of
/// private helpers among what remains, then runs of `test_` functions
/// collapsed, after a summary header.
pub open spec fn outline_view(graph: &CodeGraph, file: Seq<char>) -> Seq<HitView> {
    match file_ids(graph, file) {
        None => Seq::empty(),
        Some(ids) => {
            let syms = by_line(outline_symbols(graph, ids));
            let hs = tag_duplicates(syms.map_values(|s: Symbol| short_view(s)));
            let methods = syms.map_values(|s: Symbol| s.id.kind == SymbolKind::Method);
            let private = syms.map_values(
                |s: Symbol| s.id.kind != SymbolKind::Method && s.visibility == Visibility::Private,
            );
            let a = collapse_from(hs, methods, Collapse::Methods, 0);
            let b = collapse_from(a, kept_flags(private, methods, hs.len() as int, 0), Collapse::Helpers, 0);
            let c = collapse_from(b, b.map_values(|h: HitView| test_named(h)), Collapse::Tests, 0);
            seq![hint_view(outline_summary(c))] + c
        },
    }
}

/// The outline symbols of `ids`.
fn gather_outline_symbols<'g>(graph: &'g CodeGraph, ids: &Vec<SymbolId>) -> (r: Vec<&'g Symbol>)
    requires
        graph.wf(),
    ensures
        r@.map_values(|s: &Symbol| *s) == outline_symbols(graph, ids@),
{
    let mut out: Vec<&'g Symbol> = Vec::new();
    let mut i: usize = 0;
    while i < ids.len()
        invariant
            graph.wf(),
            i <= ids@.len(),
            out@.map_values(|s: &Symbol| *s) == outline_symbols(graph, ids@.take(i as int)),
        decreases ids@.len() - i,
    {
        assert(ids@.take(i + 1).drop_last() =~= ids@.take(i as int));
        match graph.symbols.get(&ids[i]) {
            Some(sym) => {
                if sym.id.kind == SymbolKind::Function || sym.id.kind == SymbolKind::AsyncFunction
                    || sym.id.kind == SymbolKind::Method {
                    let ghost prev = out@;
                    out.push(sym);
                    assert(out@.map_values(|s: &Symbol| *s) =~= prev.map_values(|s: &Symbol| *s).push(*sym));
                }
            },
            None => {},
        }
        i = i + 1;
    }
    assert(ids@.take(ids@.len() as int) =~= ids@);
    out
}

/// `syms` stably sorted by starting line.
fn sort_by_line<'g>(syms: &Vec<&'g Symbol>) -> (r: Vec<&'g Symbol>)
    ensures
        r@.map_values(|s: &Symbol| *s) == by_line(syms@.map_values(|s: &Symbol| *s)),
{
    let ghost sv = syms@.map_values(|s: &Symbol| *s);
    let ghost keyed_spec = Seq::new(sv.len(), |i: int| (i as usize, sv[i].line_start as u64));
    let n = syms.len();
    let mut keyed: Vec<(usize, u64)> = Vec::new();
    let mut i: usize = 0;
    while i < n
        invariant
            n == syms@.len(),
            sv == syms@.map_values(|s: &Symbol| *s),
            keyed_spec == Seq::new(sv.len(), |i: int| (i as usize, sv[i].line_start as u64)),
            i <= n,
            keyed@ == keyed_spec.take(i as int),
        decreases n - i,
    {
        keyed.push((i, syms[i].line_start as u64));
        i = i + 1;
        assert(keyed@ =~= keyed_spec.take(i as int));
    }
    assert(keyed@ =~= keyed_spec);
    let sorted = crate::sorting::stable_sort(keyed);
    proof {
        crate::sorting::lemma_sorted_members(keyed_spec);
    }
    let mut out: Vec<&'g Symbol> = Vec::new();
    let mut j: usize = 0;
    while j < sorted.len()
        invariant
            n == syms@.len(),
            sv == syms@.map_values(|s: &Symbol| *s),
            keyed_spec == Seq::new(sv.len(), |i: int| (i as usize, sv[i].line_start as u64)),
            sorted@ == crate::sorting::stable_sorted(keyed_spec),
            sorted@.len() == n,
            forall|k: int| 0 <= k < sorted@.len() ==> keyed_spec.contains(#[trigger] sorted@[k]),
            j <= sorted@.len(),
            out@.map_values(|s: &Symbol| *s) == by_line(sv).take(j as int),
        decreases sorted@.len() - j,
    {
        let pos = sorted[j].0;
        proof {
            assert(keyed_spec.contains(sorted@[j as int]));
            let w = choose|w: int| 0 <= w < keyed_spec.len() && keyed_spec[w] == sorted@[j as int];
            assert(pos as int == w);
        }
        let ghost prev = out@;
        out.push(syms[pos]);
        proof {
            assert(out@.map_values(|s: &Symbol| *s) =~= prev.map_values(|s: &Symbol| *s).push(sv[pos as int]));
            assert(by_line(sv).take(j + 1) =~= by_line(sv).take(j as int).push(sv[pos as int]));
        }
        j = j + 1;
    }
    assert(by_line(sv).take(n as int) =~= by_line(sv));
    out
}

/// Does `names` hold `x`?
fn holds_text(names: &Vec<Vec<char>>, x: &Vec<char>) -> (r: bool)
    ensures
        r == names@.map_values(|v: Vec<char>| v@).contains(x@),
{
    let mut i: usize = 0;
    while i < names.len()
        invariant
            i <= names@.len(),
            forall|j: int| 0 <= j < i ==> names@[j]@ != x@,
        decreases names@.len() - i,
    {
        let a = string_of(&names[i]);
        let b = string_of(x);
        if a == b {
            assert(names@.map_values(|v: Vec<char>| v@)[i as int] == x@);
            return true;
        }
        i = i + 1;
    }
    proof {
        let nv = names@.map_values(|v: Vec<char>| v@);
        if nv.contains(x@) {
            let j = choose|j: int| 0 <= j < nv.len() && #[trigger] nv[j] == x@;
            assert(names@[j]@ == x@);
        }
    }
    false
}

/// Tag later duplicates of a function name with `[test]`.
fn tag_duplicate_names(hs: Vec<SearchHit>) -> (r: Vec<SearchHit>)
    ensures
        views(r@) == tag_duplicates(views(hs@)),
{
    let ghost src = views(hs@);
    let mut out: Vec<SearchHit> = Vec::new();
    let mut seen: Vec<Vec<char>> = Vec::new();
    let mut i: usize = 0;
    while i < hs.len()
        invariant
            src == views(hs@),
            i <= hs@.len(),
            views(out@) == tag_duplicates(src).take(i as int),
            forall|x: Seq<char>| #[trigger] texts(seen@).contains(x) <==> exists|j: int| 0 <= j < i && #[trigger] named(src[j], x),
        decreases hs@.len() - i,
    {
        let mut h = hs[i].clone();
        let ghost prev_out = out@;
        let ghost prev_seen = texts(seen@);
        match &hs[i].signature {
            Some(sig) => {
                let name = chars_of(extract_fn_name(sig.as_str()).as_str());
                let dup = holds_text(&seen, &name);
                if dup {
                    let mut tagged = String::new();
                    push_str(&mut tagged, "[test] ");
                    push_str(&mut tagged, sig.as_str());
                    h.signature = Some(tagged);
                }
                seen.push(name);
                proof {
                    assert(texts(seen@) =~= prev_seen.push(fn_name(sig@)));
                    assert forall|x: Seq<char>| #[trigger] texts(seen@).contains(x) <==> exists|j: int| 0 <= j < i + 1 && #[trigger] named(src[j], x) by {
                        if texts(seen@).contains(x) {
                            if x == fn_name(sig@) {
                                assert(named(src[i as int], x));
                            } else {
                                let sv2 = texts(seen@);
                                let k = choose|k: int| 0 <= k < sv2.len() && #[trigger] sv2[k] == x;
                                assert(prev_seen[k] == x);
                                assert(prev_seen.contains(x));
                            }
                        }
                        if exists|j: int| 0 <= j < i + 1 && #[trigger] named(src[j], x) {
                            let j = choose|j: int| 0 <= j < i + 1 && #[trigger] named(src[j], x);
                            if j == i {
                                assert(texts(seen@)[prev_seen.len() as int] == x);
                            } else {
                                assert(prev_seen.contains(x));
                                let k = choose|k: int| 0 <= k < prev_seen.len() && #[trigger] prev_seen[k] == x;
                                assert(texts(seen@)[k] == x);
                            }
                        }
                    }
                }
            },
            None => {
                proof {
                    assert forall|x: Seq<char>| #[trigger] texts(seen@).contains(x) <==> exists|j: int| 0 <= j < i + 1 && #[trigger] named(src[j], x) by {
                        if exists|j: int| 0 <= j < i + 1 && #[trigger] named(src[j], x) {
                            let j = choose|j: int| 0 <= j < i + 1 && #[trigger] named(src[j], x);
                            assert(j != i);
                        }
                    }
                }
            },
        }
        out.push(h);
        proof {
            assert(views(out@) =~= views(prev_out).push(tag_duplicates(src)[i as int]));
            assert(tag_duplicates(src).take(i + 1) =~= tag_duplicates(src).take(i as int).push(tag_duplicates(src)[i as int]));
        }
        i = i + 1;
    }
    assert(tag_duplicates(src).take(hs@.len() as int) =~= tag_duplicates(src));
    out
}

/// The signature that stands for the run `hs[start..end]`.
fn run_signature(hs: &Vec<SearchHit>, start: usize, end: usize, kind: &Collapse) -> (r: String)
    requires
        start < end <= hs@.len(),
    ensures
        r@ == group_signature(*kind, views(hs@).subrange(start as int, end as int)),
{
    let mut out = String::new();
    match kind {
        Collapse::Methods => {
            push_str(&mut out, "impl { (");
            push_decimal(&mut out, (end - start) as u64);
            push_str(&mut out, " methods) }");
        },
        Collapse::Tests => {
            push_str(&mut out, "[test] (");
            push_decimal(&mut out, (end - start) as u64);
            push_str(&mut out, " functions)");
        },
        Collapse::Helpers => {
            push_str(&mut out, "[helpers] ");
            let ghost g = views(hs@).subrange(start as int, end as int);
            let mut names: Vec<Vec<char>> = Vec::new();
            let mut k = start;
            while k < end
                invariant
                    start <= k <= end <= hs@.len(),
                    g == views(hs@).subrange(start as int, end as int),
                    names@.map_values(|v: Vec<char>| v@) == group_names(g.take(k - start)),
                decreases end - k,
            {
                assert(g.take(k + 1 - start).drop_last() =~= g.take(k - start));
                assert(g.take(k + 1 - start).last() == hs@[k as int]@);
                match &hs[k].signature {
                    Some(sig) => {
                        let ghost prev = names@;
                        names.push(chars_of(extract_fn_name(sig.as_str()).as_str()));
                        assert(names@.map_values(|v: Vec<char>| v@) =~= prev.map_values(|v: Vec<char>| v@).push(fn_name(sig@)));
                    },
                    None => {},
                }
                k = k + 1;
            }
            assert(g.take(end - start) =~= g);
            let cnt = names.len();
            push_joined(&mut out, &names, cnt, ", ");
            assert(names@.map_values(|v: Vec<char>| v@).take(cnt as int) =~= names@.map_values(|v: Vec<char>| v@));
        },
    }
    out
}

/// Replace each run of two or more flagged hits with one summary hit.
fn collapse_runs(hs: &Vec<SearchHit>, flags: &Vec<bool>, kind: &Collapse) -> (r: Vec<SearchHit>)
    requires
        flags@.len() >= hs@.len(),
    ensures
        views(r@) == collapse_from(views(hs@), flags@, *kind, 0),
{
    let ghost src = views(hs@);
    let n = hs.len();
    let mut out: Vec<SearchHit> = Vec::new();
    let mut i: usize = 0;
    while i < n
        invariant
            n == hs@.len(),
            src == views(hs@),
            flags@.len() >= n,
            i <= n,
            views(out@) + collapse_from(src, flags@, *kind, i as int) == collapse_from(src, flags@, *kind, 0),
        decreases n - i,
    {
        let ghost rest = collapse_from(src, flags@, *kind, i as int);
        let ghost prev = out@;
        if flags[i] {
            let start = i;
            i = i + 1;
            proof {
                lemma_run_end(flags@, start + 1, n as int);
            }
            while i < n && flags[i]
                invariant
                    start < i <= n,
                    n == hs@.len(),
                    flags@.len() >= n,
                    run_end(flags@, start + 1, n as int) == run_end(flags@, i as int, n as int),
                decreases n - i,
            {
                i = i + 1;
            }
            let mut h = hs[start].clone();
            if i - start >= 2 {
                let sig = run_signature(hs, start, i, kind);
                h.signature = Some(sig);
            }
            out.push(h);
            assert(views(out@) =~= views(prev).push(rest[0]));
            assert(rest =~= seq![rest[0]] + collapse_from(src, flags@, *kind, i as int));
        } else {
            out.push(hs[i].clone());
            assert(views(out@) =~= views(prev).push(rest[0]));
            assert(rest =~= seq![rest[0]] + collapse_from(src, flags@, *kind, i + 1));
            i = i + 1;
        }
    }
    assert(views(out@) + collapse_from(src, flags@, *kind, i as int) =~= views(out@));
    out
}

/// Append `"{n} {label}"` to `parts` when `n` is positive.
fn push_count_part(parts: &mut Vec<Vec<char>>, n: u64, label: &str)
    ensures
        final(parts)@.map_values(|v: Vec<char>| v@) == old(parts)@.map_values(|v: Vec<char>| v@) + count_part(n as nat, label@),
{
    if n > 0 {
        let mut s = String::new();
        push_decimal(&mut s, n);
        crate::strings::push_char(&mut s, ' ');
        push_str(&mut s, label);
        let ghost prev = parts@;
        assert(s@ =~= decimal(n as nat) + seq![' '] + label@);
        parts.push(chars_of(s.as_str()));
        assert(parts@.map_values(|v: Vec<char>| v@) =~= prev.map_values(|v: Vec<char>| v@) + count_part(n as nat, label@));
    } else {
        assert(parts@.map_values(|v: Vec<char>| v@) =~= parts@.map_values(|v: Vec<char>| v@) + count_part(n as nat, label@));
    }
}

/// The outline's summary header for `hs`.
fn summary_of(hs: &Vec<SearchHit>) -> (r: String)
    ensures
        r@ == outline_summary(views(hs@)),
{
    let mut regular: u64 = 0;
    let mut methods: u64 = 0;
    let mut tests: u64 = 0;
    let mut helpers: u64 = 0;
    let mut i: usize = 0;
    while i < hs.len()
        invariant
            i <= hs@.len(),
            (regular as nat, methods as nat, tests as nat, helpers as nat) == outline_counts(views(hs@).take(i as int)),
            regular + methods + tests + helpers == i,
        decreases hs@.len() - i,
    {
        assert(views(hs@).take(i + 1).drop_last() =~= views(hs@).take(i as int));
        assert(views(hs@).take(i + 1).last() == hs@[i as int]@);
        match &hs[i].signature {
            Some(sig) => {
                let cs = chars_of(sig.as_str());
                if crate::strings::starts_with_chars(&cs, &chars_of("impl { (")) {
                    methods = methods + 1;
                } else if crate::strings::starts_with_chars(&cs, &chars_of("[test]")) {
                    tests = tests + 1;
                } else if crate::strings::starts_with_chars(&cs, &chars_of("[helpers]")) {
                    helpers = helpers + 1;
                } else {
                    regular = regular + 1;
                }
            },
            None => {
                regular = regular + 1;
            },
        }
        i = i + 1;
    }
    assert(views(hs@).take(hs@.len() as int) =~= views(hs@));
    let mut parts: Vec<Vec<char>> = Vec::new();
    push_count_part(&mut parts, regular, "functions");
    push_count_part(&mut parts, methods, "method groups");
    push_count_part(&mut parts, tests, "test groups");
    push_count_part(&mut parts, helpers, "helper groups");
    let mut out = String::new();
    push_decimal(&mut out, regular + methods + tests + helpers);
    push_str(&mut out, " entries (");
    let cnt = parts.len();
    push_joined(&mut out, &parts, cnt, ", ");
    assert(parts@.map_values(|v: Vec<char>| v@).take(cnt as int) =~= parts@.map_values(|v: Vec<char>| v@));
    push_str(&mut out, ")");
    out
}

/// `outline of FILE`: the file's functions and methods sorted by line, with a
/// summary header. Later duplicates of a name are tagged `[test]`; runs of
/// methods, of private helpers and of `test_` functions are collapsed.
pub fn outline_of(graph: &CodeGraph, file: &str) -> (r: Vec<SearchHit>)
    requires
        graph.wf(),
    ensures
        views(r@) == outline_view(graph, file@),
{
    let key = file.to_owned();
    let ids = match graph.file_symbols.get(&key) {
        Some(ids) => ids,
        None => {
            return Vec::new();
        },
    };
    let gathered = gather_outline_symbols(graph, ids);
    let syms = sort_by_line(&gathered);
    let ghost sv = syms@.map_values(|s: &Symbol| *s);
    let mut hits: Vec<SearchHit> = Vec::new();
    let mut is_method: Vec<bool> = Vec::new();
    let mut is_private: Vec<bool> = Vec::new();
    let mut i: usize = 0;
    while i < syms.len()
        invariant
            sv == syms@.map_values(|s: &Symbol| *s),
            i <= syms@.len(),
            views(hits@) == sv.map_values(|s: Symbol| short_view(s)).take(i as int),
            is_method@ == sv.map_values(|s: Symbol| s.id.kind == SymbolKind::Method).take(i as int),
            is_private@ == sv.map_values(
                |s: Symbol| s.id.kind != SymbolKind::Method && s.visibility == Visibility::Private,
            ).take(i as int),
        decreases syms@.len() - i,
    {
        let s = syms[i];
        let ghost prev = hits@;
        hits.push(SearchHit::structural(s).without_return_type());
        is_method.push(s.id.kind == SymbolKind::Method);
        is_private.push(s.id.kind != SymbolKind::Method && s.visibility == Visibility::Private);
        assert(sv[i as int] == *s);
        assert(views(hits@) =~= views(prev).push(short_view(sv[i as int])));
        i = i + 1;
        assert(views(hits@) =~= sv.map_values(|s: Symbol| short_view(s)).take(i as int));
        assert(is_method@ =~= sv.map_values(|s: Symbol| s.id.kind == SymbolKind::Method).take(i as int));
        assert(is_private@ =~= sv.map_values(
            |s: Symbol| s.id.kind != SymbolKind::Method && s.visibility == Visibility::Private,
        ).take(i as int));
    }
    assert(sv.map_values(|s: Symbol| short_view(s)).take(i as int) =~= sv.map_values(|s: Symbol| short_view(s)));
    assert(is_method@ =~= sv.map_values(|s: Symbol| s.id.kind == SymbolKind::Method));
    assert(is_private@ =~= sv.map_values(
        |s: Symbol| s.id.kind != SymbolKind::Method && s.visibility == Visibility::Private,
    ));
    let tagged = tag_duplicate_names(hits);
    let a = collapse_runs(&tagged, &is_method, &Collapse::Methods);
    proof {
        lemma_collapse_len(views(tagged@), is_method@, Collapse::Methods, 0);
    }
    let kept_private = keep_flags(&is_private, &is_method, tagged.len());
    proof {
        lemma_kept_flags_len(views(tagged@), is_private@, is_method@, Collapse::Methods, 0);
    }
    let b = collapse_runs(&a, &kept_private, &Collapse::Helpers);
    let mut test_flags: Vec<bool> = Vec::new();
    let mut k: usize = 0;
    while k < b.len()
        invariant
            k <= b@.len(),
            test_flags@ == views(b@).map_values(|h: HitView| test_named(h)).take(k as int),
        decreases b@.len() - k,
    {
        let t = match &b[k].signature {
            Some(sig) => {
                let name = chars_of(extract_fn_name(sig.as_str()).as_str());
                crate::strings::starts_with_chars(&name, &chars_of("test_"))
            },
            None => false,
        };
        test_flags.push(t);
        k = k + 1;
        assert(test_flags@ =~= views(b@).map_values(|h: HitView| test_named(h)).take(k as int));
    }
    assert(test_flags@ =~= views(b@).map_values(|h: HitView| test_named(h)));
    let c = collapse_runs(&b, &test_flags, &Collapse::Tests);
    let summary = summary_of(&c);
    let mut result: Vec<SearchHit> = Vec::new();
    result.push(SearchHit::empty_hint(summary.as_str()));
    let mut m: usize = 0;
    while m < c.len()
        invariant
            m <= c@.len(),
            views(result@) == seq![hint_view(outline_summary(views(c@)))] + views(c@).take(m as int),
        decreases c@.len() - m,
    {
        let ghost prev = result@;
        result.push(c[m].clone());
        assert(views(result@) =~= views(prev).push(c@[m as int]@));
        m = m + 1;
        assert(views(result@) =~= seq![hint_view(outline_summary(views(c@)))] + views(c@).take(m as int));
    }
    assert(views(c@).take(c@.len() as int) =~= views(c@));
    result
}

/// Collapsing never lengthens the list.
pub proof fn lemma_collapse_len(hs: Seq<HitView>, flags: Seq<bool>, kind: Collapse, i: int)
    requires
        0 <= i,
    ensures
        collapse_from(hs, flags, kind, i).len() <= if i <= hs.len() { hs.len() - i } else { 0 },
    decreases hs.len() - i,
{
    if i < hs.len() {
        if flags[i] {
            lemma_run_end(flags, i + 1, hs.len() as int);
            lemma_collapse_len(hs, flags, kind, run_end(flags, i + 1, hs.len() as int));
        } else {
            lemma_collapse_len(hs, flags, kind, i + 1);
        }
    }
}

// ---------------------------------------------------------------------------
// Callers.

/// Number of distinct non-empty file paths among `hs`.
pub open spec fn file_count(hs: Seq<HitView>) -> nat {
    sorted_distinct(nonempty_files(hs)).len()
}

/// Number of distinct non-empty file paths among the non-hint hits of `hs`.
pub open spec fn nonhint(hs: Seq<HitView>) -> Seq<HitView> {
    hs.filter(|h: HitView| !crate::search::hit::is_hint_view(h))
}

/// The header `callers_of_id` puts before its hits.
pub open spec fn id_callers_header(name: Seq<char>, hs: Seq<HitView>) -> Seq<char> {
    if hs.len() > 0 {
        "=== "@ + decimal(hs.len()) + " caller"@ + plural(hs.len()) + " of "@ + name + " in "@ + decimal(
            file_count(hs),
        ) + " file"@ + plural(file_count(hs)) + " ==="@
    } else {
        "=== 0 callers of "@ + name + " ==="@
    }
}

/// The `from` ids of the reverse edges stored under keys with `id`'s file and
/// name (any kind), key by key in table order.
pub open spec fn callers_by_name(entries: Seq<(SymbolId, Vec<Edge>)>, id: SymbolId) -> Seq<SymbolId>
    decreases entries.len(),
{
    if entries.len() == 0 {
        Seq::empty()
    } else {
        let prev = callers_by_name(entries.drop_last(), id);
        let (k, es) = entries.last();
        if k.file@ == id.file@ && k.name@ == id.name@ {
            prev + crate::graph::ops::froms(es@)
        } else {
            prev
        }
    }
}

/// The callers `callers_of_id` ranks: the direct callers of `id`, or, when it
/// has none, the callers of any symbol with its file and name.
pub open spec fn id_caller_ids(graph: &CodeGraph, id: SymbolId) -> Seq<SymbolId> {
    let direct = crate::graph::ops::froms(edges_under(graph.reverse_edges@, id@));
    if direct.len() > 0 {
        direct
    } else {
        callers_by_name(graph.reverse_edges.entry_seq(), id)
    }
}

/// `callers_of_id`: short hits for the callers by descending centrality, at
/// most `max_hits`, after a count header.
pub open spec fn callers_of_id_view(graph: &CodeGraph, id: SymbolId, max_hits: int) -> Seq<HitView> {
    let hs = symbol_hits(graph, first_n(by_centrality(graph, id_caller_ids(graph, id)), max_hits), true);
    seq![hint_view(id_callers_header(id.name@, hs))] + hs
}

/// Append `"s"` unless `n` is one.
fn push_plural(out: &mut String, n: u64)
    ensures
        final(out)@ == old(out)@ + plural(n as nat),
{
    if n != 1 {
        crate::strings::push_char(out, 's');
    } else {
        assert(old(out)@ + plural(n as nat) =~= old(out)@);
    }
}

/// Number of distinct non-empty paths among `hits`.
fn count_files(hits: &Vec<SearchHit>) -> (r: usize)
    ensures
        r == file_count(views(hits@)),
{
    let files = hit_files(hits);
    sort_distinct(&files).len()
}

/// Caller lookup by a resolved id, falling back to a match on file and name
/// when the id has no direct callers.
pub fn callers_of_id(graph: &CodeGraph, id: &SymbolId, max_hits: usize) -> (r: Vec<SearchHit>)
    requires
        graph.wf(),
    ensures
        views(r@) == callers_of_id_view(graph, *id, max_hits as int),
{
    let mut caller_ids = callers(graph, id);
    if caller_ids.len() == 0 {
        let n = graph.reverse_edges.len();
        let mut i: usize = 0;
        while i < n
            invariant
                graph.wf(),
                n == graph.reverse_edges.entry_seq().len(),
                i <= n,
                derefs(caller_ids@) == callers_by_name(graph.reverse_edges.entry_seq().take(i as int), *id),
            decreases n - i,
        {
            let k = graph.reverse_edges.key_at(i);
            let es = graph.reverse_edges.value_at(i);
            assert(graph.reverse_edges.entry_seq().take(i + 1).drop_last() =~= graph.reverse_edges.entry_seq().take(i as int));
            assert(graph.reverse_edges.entry_seq().take(i + 1).last() == graph.reverse_edges.entry_seq()[i as int]);
            if k.file == id.file && k.name == id.name {
                let ghost base = caller_ids@;
                let mut j: usize = 0;
                while j < es.len()
                    invariant
                        j <= es@.len(),
                        derefs(caller_ids@) == derefs(base) + crate::graph::ops::froms(es@.take(j as int)),
                    decreases es@.len() - j,
                {
                    let ghost prev = caller_ids@;
                    caller_ids.push(&es[j].from);
                    assert(derefs(caller_ids@) =~= derefs(prev).push(es@[j as int].from));
                    assert(crate::graph::ops::froms(es@.take(j + 1)) =~= crate::graph::ops::froms(es@.take(j as int)).push(es@[j as int].from));
                    j = j + 1;
                }
                assert(es@.take(es@.len() as int) =~= es@);
            }
            i = i + 1;
        }
        assert(graph.reverse_edges.entry_seq().take(n as int) =~= graph.reverse_edges.entry_seq());
    }
    sort_by_centrality(graph, &mut caller_ids);
    let mut hits = collect_hits(graph, &caller_ids, max_hits, true);
    let count = hits.len();
    let fc = count_files(&hits);
    let mut header = String::new();
    if count > 0 {
        push_str(&mut header, "=== ");
        push_decimal(&mut header, count as u64);
        push_str(&mut header, " caller");
        push_plural(&mut header, count as u64);
        push_str(&mut header, " of ");
        push_str(&mut header, id.name.as_str());
        push_str(&mut header, " in ");
        push_decimal(&mut header, fc as u64);
        push_str(&mut header, " file");
        push_plural(&mut header, fc as u64);
        push_str(&mut header, " ===");
    } else {
        push_str(&mut header, "=== 0 callers of ");
        push_str(&mut header, id.name.as_str());
        push_str(&mut header, " ===");
    }
    let ghost hs = views(hits@);
    hits.insert(0, SearchHit::empty_hint(header.as_str()));
    assert(views(hits@) =~= seq![hint_view(id_callers_header(id.name@, hs))] + hs);
    hits
}

/// Text of a cross-file importer hint.
pub open spec fn importer_text(rel: Seq<char>, name: Seq<char>) -> Seq<char> {
    "cross-file importer — file imports `"@ + rel + "`; grep `"@ + name + "` here for call sites"@
}

/// The files of a list of hits.
pub open spec fn hit_paths(hs: Seq<HitView>) -> Seq<Seq<char>> {
    hs.map_values(|h: HitView| h.file)
}

/// One importer hint per importing file that is not the target's own file,
/// produced no caller hit, and was not hinted already.
pub open spec fn importer_hints(
    ihs: Seq<HitView>,
    target_file: Seq<char>,
    caller_files: Seq<Seq<char>>,
    text: Seq<char>,
) -> Seq<HitView>
    decreases ihs.len(),
{
    if ihs.len() == 0 {
        Seq::empty()
    } else {
        let prev = importer_hints(ihs.drop_last(), target_file, caller_files, text);
        let h = ihs.last();
        if h.file == target_file || caller_files.contains(h.file) || hit_paths(prev).contains(h.file) {
            prev
        } else {
            prev.push(HitView { file: h.file, line: h.line, signature: Some(text), snippet: None, context: None })
        }
    }
}

/// The header `callers_of` puts before its hits, counting the direct
/// callers `hs` and their files; importer hints are not callers.
pub open spec fn callers_header(name: Seq<char>, hs: Seq<HitView>) -> Seq<char> {
    let actual = nonhint(hs);
    if actual.len() > 0 {
        "=== "@ + decimal(actual.len()) + " caller"@ + plural(actual.len()) + " of "@ + name + " in "@
            + decimal(file_count(actual)) + " file"@ + plural(file_count(actual)) + " ==="@
    } else {
        "=== 0 callers of "@ + name + " (only cross-file importers) ==="@
    }
}

/// Text for a caller query whose name resolves to nothing.
pub open spec fn no_callers_target_text(name: Seq<char>) -> Seq<char> {
    "no symbol named '"@ + name + "' found; try `find "@ + name + "` for fuzzy matches or grep across files"@
}

/// Text for a target with neither callers nor importers.
pub open spec fn no_callers_text() -> Seq<char> {
    "no same-file callers and no cross-file importers in Phase 1 graph; use grep"@
}

/// `callers of X`: short hits for the direct callers of the most central
/// match, by descending centrality, at most `max_hits`; then one hint per file
/// that imports the target's file without calling it; after a count header.
pub open spec fn callers_view(graph: &CodeGraph, name: Seq<char>, max_hits: int, root: Seq<char>) -> Seq<HitView> {
    let ids = name_matches(graph, name);
    if ids.len() == 0 {
        seq![hint_view(no_callers_target_text(name))]
    } else {
        let target = by_centrality(graph, ids)[0];
        let direct = crate::graph::ops::froms(edges_under(graph.reverse_edges@, target@));
        let hs = symbol_hits(graph, first_n(by_centrality(graph, direct), max_hits), true);
        let rel = relative_to(target.file@, root);
        let extra = importer_hints(importers_view(graph, target.file@, root), target.file@, hit_paths(hs), importer_text(rel, name));
        let all = hs + extra;
        if all.len() == 0 {
            seq![hint_view(no_callers_text())]
        } else {
            seq![hint_view(callers_header(name, hs))] + all
        }
    }
}

/// Does `hs` hold a hit at path `f`?
fn has_path(hs: &Vec<SearchHit>, f: &String) -> (r: bool)
    ensures
        r == hit_paths(views(hs@)).contains(f@),
{
    let mut i: usize = 0;
    while i < hs.len()
        invariant
            i <= hs@.len(),
            forall|j: int| 0 <= j < i ==> hs@[j].file@ != f@,
        decreases hs@.len() - i,
    {
        if hs[i].file == *f {
            assert(hit_paths(views(hs@))[i as int] == f@);
            return true;
        }
        i = i + 1;
    }
    proof {
        let hp = hit_paths(views(hs@));
        if hp.contains(f@) {
            let j = choose|j: int| 0 <= j < hp.len() && #[trigger] hp[j] == f@;
            assert(hs@[j].file@ == f@);
        }
    }
    false
}

/// The non-hint hits of `hs`.
fn real_hits(hs: &Vec<SearchHit>) -> (r: Vec<SearchHit>)
    ensures
        views(r@) == nonhint(views(hs@)),
{
    let mut out: Vec<SearchHit> = Vec::new();
    let mut i: usize = 0;
    while i < hs.len()
        invariant
            i <= hs@.len(),
            views(out@) == nonhint(views(hs@).take(i as int)),
        decreases hs@.len() - i,
    {
        proof {
            assert(views(hs@).take(i + 1) =~= views(hs@).take(i as int).push(hs@[i as int]@));
            crate::graph::types::reveal_filter_push(views(hs@).take(i as int), hs@[i as int]@, |h: HitView| !crate::search::hit::is_hint_view(h));
        }
        if !hs[i].is_hint() {
            let ghost prev = out@;
            out.push(hs[i].clone());
            assert(views(out@) =~= views(prev).push(hs@[i as int]@));
        }
        i = i + 1;
    }
    assert(views(hs@).take(hs@.len() as int) =~= views(hs@));
    out
}

/// The symbol `callers of name` reports on: the most central of the
/// symbols matching `name`, if any matches.
pub fn callers_target<'g>(graph: &'g CodeGraph, name: &str) -> (r: Option<&'g SymbolId>)
    requires
        graph.wf(),
    ensures
        match r {
            Some(t) => name_matches(graph, name@).len() > 0 && *t == by_centrality(graph, name_matches(graph, name@))[0],
            None => name_matches(graph, name@).len() == 0,
        },
{
    let mut targets = find_by_name(graph, name);
    if targets.len() == 0 {
        return None;
    }
    let ghost before = derefs(targets@);
    sort_by_centrality(graph, &mut targets);
    proof {
        crate::sorting::lemma_stable_sorted_len(crate::search::hit::rank_positions(graph, before));
        assert(derefs(targets@).len() == targets@.len());
    }
    Some(targets[0])
}

/// `callers of X` / `what calls X`: direct callers of the most central match
/// with inline signatures, then cross-file importer hints, after a count header.
///
/// No hit carries context, whatever `with_context` asks: call-site context
/// is read from the callers' source files, which this library does not
/// read. [`with_call_contexts`] attaches it from the texts of those files.
pub fn callers_of(graph: &CodeGraph, name: &str, max_hits: usize, project_root: &str, with_context: bool) -> (r: Vec<SearchHit>)
    requires
        graph.wf(),
    ensures
        views(r@) == callers_view(graph, name@, max_hits as int, project_root@),
        forall|i: int| 0 <= i < r@.len() ==> #[trigger] r@[i].context is None,
{
    let r = caller_hits(graph, name, max_hits, project_root);
    proof {
        lemma_callers_view_bare(graph, name@, max_hits as int, project_root@);
        assert forall|i: int| 0 <= i < r@.len() implies #[trigger] r@[i].context is None by {
            assert(views(r@)[i] == r@[i]@);
        }
    }
    r
}

/// No hit of a symbol list carries context.
proof fn lemma_symbol_hits_bare(graph: &CodeGraph, ids: Seq<SymbolId>, short: bool)
    ensures
        forall|i: int| 0 <= i < symbol_hits(graph, ids, short).len() ==> (#[trigger] symbol_hits(graph, ids, short)[i]).context is None,
    decreases ids.len(),
{
    if ids.len() > 0 {
        lemma_symbol_hits_bare(graph, ids.drop_last(), short);
    }
}

/// No importer hint carries context.
proof fn lemma_importer_hints_bare(ihs: Seq<HitView>, target_file: Seq<char>, caller_files: Seq<Seq<char>>, text: Seq<char>)
    ensures
        forall|i: int|
            0 <= i < importer_hints(ihs, target_file, caller_files, text).len() ==> (#[trigger] importer_hints(
                ihs,
                target_file,
                caller_files,
                text,
            )[i]).context is None,
    decreases ihs.len(),
{
    if ihs.len() > 0 {
        lemma_importer_hints_bare(ihs.drop_last(), target_file, caller_files, text);
    }
}

/// No hit of `callers of` carries context.
proof fn lemma_callers_view_bare(graph: &CodeGraph, name: Seq<char>, max_hits: int, root: Seq<char>)
    ensures
        forall|i: int| 0 <= i < callers_view(graph, name, max_hits, root).len() ==> (#[trigger] callers_view(graph, name, max_hits, root)[i]).context is None,
{
    let ids = name_matches(graph, name);
    if ids.len() > 0 {
        let target = by_centrality(graph, ids)[0];
        let direct = crate::graph::ops::froms(edges_under(graph.reverse_edges@, target@));
        let hs = symbol_hits(graph, first_n(by_centrality(graph, direct), max_hits), true);
        let rel = relative_to(target.file@, root);
        let extra = importer_hints(importers_view(graph, target.file@, root), target.file@, hit_paths(hs), importer_text(rel, name));
        lemma_symbol_hits_bare(graph, first_n(by_centrality(graph, direct), max_hits), true);
        lemma_importer_hints_bare(importers_view(graph, target.file@, root), target.file@, hit_paths(hs), importer_text(rel, name));
        let all = hs + extra;
        if all.len() > 0 {
            let v = seq![hint_view(callers_header(name, hs))] + all;
            assert forall|i: int| 0 <= i < v.len() implies (#[trigger] v[i]).context is None by {
                if i > 0 {
                    if i - 1 < hs.len() {
                        assert(v[i] == hs[i - 1]);
                    } else {
                        assert(v[i] == extra[i - 1 - hs.len()]);
                    }
                }
            }
        }
    }
}

/// The hits of `callers of`, as [`callers_of`] gives them.
fn caller_hits(graph: &CodeGraph, name: &str, max_hits: usize, project_root: &str) -> (r: Vec<SearchHit>)
    requires
        graph.wf(),
    ensures
        views(r@) == callers_view(graph, name@, max_hits as int, project_root@),
{
    let mut targets = find_by_name(graph, name);
    if targets.len() == 0 {
        let mut msg = String::new();
        push_str(&mut msg, "no symbol named '");
        push_str(&mut msg, name);
        push_str(&mut msg, "' found; try `find ");
        push_str(&mut msg, name);
        push_str(&mut msg, "` for fuzzy matches or grep across files");
        let mut v: Vec<SearchHit> = Vec::new();
        v.push(SearchHit::empty_hint(msg.as_str()));
        assert(views(v@) =~= seq![hint_view(no_callers_target_text(name@))]);
        return v;
    }
    let ghost before = derefs(targets@);
    sort_by_centrality(graph, &mut targets);
    proof {
        crate::sorting::lemma_stable_sorted_len(crate::search::hit::rank_positions(graph, before));
        assert(derefs(targets@).len() == targets@.len());
    }
    let target_id = targets[0];
    let mut caller_ids = callers(graph, target_id);
    sort_by_centrality(graph, &mut caller_ids);
    let mut hits = collect_hits(graph, &caller_ids, max_hits, true);
    let ghost hs = views(hits@);
    let actual = real_hits(&hits);
    let count = actual.len();
    let fc = count_files(&actual);
    let target_file = &target_id.file;
    let rel = path_relative_to(target_file.as_str(), project_root);
    let mut text = String::new();
    push_str(&mut text, "cross-file importer — file imports `");
    push_str(&mut text, rel.as_str());
    push_str(&mut text, "`; grep `");
    push_str(&mut text, name);
    push_str(&mut text, "` here for call sites");
    let importers = importers_of(graph, target_file.as_str(), project_root);
    let mut extra: Vec<SearchHit> = Vec::new();
    let mut i: usize = 0;
    while i < importers.len()
        invariant
            i <= importers@.len(),
            views(extra@) == importer_hints(views(importers@).take(i as int), target_file@, hit_paths(hs), text@),
            views(hits@) == hs,
        decreases importers@.len() - i,
    {
        let h = &importers[i];
        assert(views(importers@).take(i + 1).drop_last() =~= views(importers@).take(i as int));
        assert(views(importers@).take(i + 1).last() == h@);
        if !(h.file == *target_file) && !has_path(&hits, &h.file) && !has_path(&extra, &h.file) {
            let ghost prev = extra@;
            extra.push(SearchHit { file: h.file.clone(), line: h.line, signature: Some(text.clone()), snippet: None, context: None });
            assert(views(extra@) =~= views(prev).push(extra@[prev.len() as int]@));
        }
        i = i + 1;
    }
    assert(views(importers@).take(importers@.len() as int) =~= views(importers@));
    let ghost ex = views(extra@);
    let mut k: usize = 0;
    while k < extra.len()
        invariant
            k <= extra@.len(),
            ex == views(extra@),
            views(hits@) == hs + ex.take(k as int),
        decreases extra@.len() - k,
    {
        let ghost prev = hits@;
        hits.push(extra[k].clone());
        assert(views(hits@) =~= views(prev).push(extra@[k as int]@));
        k = k + 1;
        assert(views(hits@) =~= hs + ex.take(k as int));
    }
    assert(ex.take(ex.len() as int) =~= ex);
    if hits.len() == 0 {
        let mut v: Vec<SearchHit> = Vec::new();
        v.push(SearchHit::empty_hint("no same-file callers and no cross-file importers in Phase 1 graph; use grep"));
        assert(views(v@) =~= seq![hint_view(no_callers_text())]);
        return v;
    }
    let mut header = String::new();
    if count > 0 {
        push_str(&mut header, "=== ");
        push_decimal(&mut header, count as u64);
        push_str(&mut header, " caller");
        push_plural(&mut header, count as u64);
        push_str(&mut header, " of ");
        push_str(&mut header, name);
        push_str(&mut header, " in ");
        push_decimal(&mut header, fc as u64);
        push_str(&mut header, " file");
        push_plural(&mut header, fc as u64);
        push_str(&mut header, " ===");
    } else {
        push_str(&mut header, "=== 0 callers of ");
        push_str(&mut header, name);
        push_str(&mut header, " (only cross-file importers) ===");
    }
    let ghost all = views(hits@);
    hits.insert(0, SearchHit::empty_hint(header.as_str()));
    assert(views(hits@) =~= seq![hint_view(callers_header(name@, hs))] + all);
    hits
}

// ---------------------------------------------------------------------------
// Libraries.

/// A library name that is the project's own package: its crate name, or a
/// directory directly under the project root.
pub open spec fn internal_library(lib: Seq<char>, root: Seq<char>, own: Option<Seq<char>>, dirs: Seq<Seq<char>>) -> bool {
    own == Some(lib) || dirs.contains(crate::paths::join(root, lib))
}

/// The external library names of `imports`, one per import site, in order.
pub open spec fn external_libraries(
    imports: Seq<crate::graph::types::LibraryImport>,
    root: Seq<char>,
    own: Option<Seq<char>>,
    dirs: Seq<Seq<char>>,
) -> Seq<Seq<char>>
    decreases imports.len(),
{
    if imports.len() == 0 {
        Seq::empty()
    } else {
        let prev = external_libraries(imports.drop_last(), root, own, dirs);
        let lib = imports.last().library@;
        if internal_library(lib, root, own, dirs) {
            prev
        } else {
            prev.push(lib)
        }
    }
}

/// Occurrences of `x` in `s`.
pub open spec fn occurrences(s: Seq<Seq<char>>, x: Seq<char>) -> nat
    decreases s.len(),
{
    if s.len() == 0 {
        0
    } else {
        occurrences(s.drop_last(), x) + if s.last() == x {
            1nat
        } else {
            0nat
        }
    }
}

/// `libraries`: one line per external library, alphabetically, with its use count.
pub open spec fn libraries_view(graph: &CodeGraph, root: Seq<char>, own: Option<Seq<char>>, dirs: Seq<Seq<char>>) -> Seq<HitView> {
    let libs = external_libraries(graph.library_imports@, root, own, dirs);
    sorted_distinct(libs).map_values(
        |n: Seq<char>| HitView {
            file: Seq::empty(),
            line: 0,
            signature: Some(n + " ("@ + decimal(occurrences(libs, n)) + " uses)"@),
            snippet: None,
            context: None,
        },
    )
}

/// Does `dirs` hold `p`?
fn holds_path(dirs: &Vec<String>, p: &String) -> (r: bool)
    ensures
        r == dirs@.map_values(|d: String| d@).contains(p@),
{
    let mut i: usize = 0;
    while i < dirs.len()
        invariant
            i <= dirs@.len(),
            forall|j: int| 0 <= j < i ==> dirs@[j]@ != p@,
        decreases dirs@.len() - i,
    {
        if dirs[i] == *p {
            assert(dirs@.map_values(|d: String| d@)[i as int] == p@);
            return true;
        }
        i = i + 1;
    }
    proof {
        let dv = dirs@.map_values(|d: String| d@);
        if dv.contains(p@) {
            let j = choose|j: int| 0 <= j < dv.len() && #[trigger] dv[j] == p@;
            assert(dirs@[j]@ == p@);
        }
    }
    false
}

/// The string under `key` in the table `table` of the TOML document `body`,
/// as the `toml` crate reads it; `None` when `body` is not a TOML document
/// or holds no string there.
pub uninterp spec fn toml_string_at(body: Seq<char>, table: Seq<char>, key: Seq<char>) -> Option<Seq<char>>;

/// Parses `body` with `toml::from_str` into a `toml::Table` and reads the
/// string at `[table].key`; the result is `toml_string_at` of the three texts.
#[verifier::external_body]
fn toml_string(body: &str, table: &str, key: &str) -> (r: Option<String>)
    ensures
        match r {
            Some(s) => toml_string_at(body@, table@, key@) == Some(s@),
            None => toml_string_at(body@, table@, key@) is None,
        },
{
    let doc: toml::Table = toml::from_str(body).ok()?;
    doc.get(table)?.get(key)?.as_str().map(str::to_owned)
}

/// The package name a Cargo manifest declares: `[package].name`, when the
/// manifest is valid TOML and names one.
pub fn cargo_package_name(manifest: &str) -> (r: Option<String>)
    ensures
        match r {
            Some(n) => toml_string_at(manifest@, "package"@, "name"@) == Some(n@),
            None => toml_string_at(manifest@, "package"@, "name"@) is None,
        },
{
    toml_string(manifest, "package", "name")
}

/// `libraries`: external imports grouped by library name with use counts,
/// sorted by name. A library is left out when it is the project's own crate
/// (`own_crate_name`) or when the project root joined with its name is one of
/// `dir_paths`, the paths the caller found to be directories.
pub fn libraries(graph: &CodeGraph, project_root: &str, own_crate_name: Option<&str>, dir_paths: &Vec<String>) -> (r: Vec<SearchHit>)
    ensures
        views(r@) == libraries_view(
            graph,
            project_root@,
            match own_crate_name {
                Some(o) => Some(o@),
                None => None,
            },
            dir_paths@.map_values(|d: String| d@),
        ),
{
    let ghost own = match own_crate_name {
        Some(o) => Some(o@),
        None => None,
    };
    let ghost dirs = dir_paths@.map_values(|d: String| d@);
    let imports = &graph.library_imports;
    let mut libs: Vec<Vec<char>> = Vec::new();
    let mut i: usize = 0;
    while i < imports.len()
        invariant
            i <= imports@.len(),
            own == match own_crate_name {
                Some(o) => Some(o@),
                None => None,
            },
            dirs == dir_paths@.map_values(|d: String| d@),
            texts(libs@) == external_libraries(imports@.take(i as int), project_root@, own, dirs),
        decreases imports@.len() - i,
    {
        assert(imports@.take(i + 1).drop_last() =~= imports@.take(i as int));
        let lib = &imports[i].library;
        let is_own = match own_crate_name {
            Some(o) => {
                let os = o.to_owned();
                os == *lib
            },
            None => false,
        };
        let joined = crate::paths::path_join(project_root, lib.as_str());
        let internal = is_own || holds_path(dir_paths, &joined);
        if !internal {
            let ghost prev = libs@;
            libs.push(chars_of(lib.as_str()));
            assert(texts(libs@) =~= texts(prev).push(lib@));
        }
        i = i + 1;
    }
    assert(imports@.take(imports@.len() as int) =~= imports@);
    let names = sort_distinct(&libs);
    let ghost ls = texts(libs@);
    let mut out: Vec<SearchHit> = Vec::new();
    let mut j: usize = 0;
    while j < names.len()
        invariant
            j <= names@.len(),
            ls == texts(libs@),
            ls == external_libraries(imports@, project_root@, own, dirs),
            imports@ == graph.library_imports@,
            texts(names@) == sorted_distinct(ls),
            views(out@) == libraries_view(graph, project_root@, own, dirs).take(j as int),
        decreases names@.len() - j,
    {
        let mut count: u64 = 0;
        let mut k: usize = 0;
        let target = string_of(&names[j]);
        while k < libs.len()
            invariant
                k <= libs@.len(),
                ls == texts(libs@),
                count == occurrences(ls.take(k as int), target@),
                count <= k,
            decreases libs@.len() - k,
        {
            assert(ls.take(k + 1).drop_last() =~= ls.take(k as int));
            let cand = string_of(&libs[k]);
            if cand == target {
                count = count + 1;
            }
            k = k + 1;
        }
        assert(ls.take(libs@.len() as int) =~= ls);
        let mut sig = string_of(&names[j]);
        push_str(&mut sig, " (");
        push_decimal(&mut sig, count);
        push_str(&mut sig, " uses)");
        let ghost prev = out@;
        out.push(SearchHit { file: String::new(), line: 0, signature: Some(sig), snippet: None, context: None });
        proof {
            assert(texts(names@)[j as int] == names@[j as int]@);
            assert(texts(names@).len() == names@.len());
            let lv = libraries_view(graph, project_root@, own, dirs);
            assert(lv.len() == names@.len());
            assert(lv[j as int] == HitView {
                file: Seq::empty(),
                line: 0,
                signature: Some(names@[j as int]@ + " ("@ + decimal(count as nat) + " uses)"@),
                snippet: None,
                context: None,
            });
            assert(views(out@) =~= views(prev).push(libraries_view(graph, project_root@, own, dirs)[j as int]));
            assert(libraries_view(graph, project_root@, own, dirs).take(j + 1) =~= libraries_view(graph, project_root@, own, dirs).take(j as int).push(libraries_view(graph, project_root@, own, dirs)[j as int]));
        }
        j = j + 1;
    }
    assert(libraries_view(graph, project_root@, own, dirs).take(names@.len() as int) =~= libraries_view(graph, project_root@, own, dirs));
    out
}

// ---------------------------------------------------------------------------
// Call-site context for caller hits.

/// The first indexed symbol (in table order) defined in `file` at `line`.
pub open spec fn symbol_defined_at(graph: &CodeGraph, file: Seq<char>, line: u32, n: int) -> Option<SymbolId>
    decreases n,
{
    if n <= 0 {
        None
    } else {
        match symbol_defined_at(graph, file, line, n - 1) {
            Some(id) => Some(id),
            None => {
                let s = graph.symbols.entry_seq()[n - 1].1;
                if s.id.file@ == file && s.line_start == line {
                    Some(graph.symbols.entry_seq()[n - 1].0)
                } else {
                    None
                }
            },
        }
    }
}

/// The line of the last call edge in `es` from `caller`, if any.
pub open spec fn last_call_line(es: Seq<Edge>, caller: SymbolId) -> Option<u32>
    decreases es.len(),
{
    if es.len() == 0 {
        None
    } else if es.last().kind == EdgeKind::Calls && es.last().from@ == caller@ {
        Some(es.last().line)
    } else {
        last_call_line(es.drop_last(), caller)
    }
}

/// Where a caller hit at (`file`, `line`) calls `target`: the line of the call
/// edge from the symbol defined there, falling back to `line`.
pub open spec fn call_site(graph: &CodeGraph, target: SymbolId, file: Seq<char>, line: u32) -> u32 {
    match symbol_defined_at(graph, file, line, graph.symbols.entry_seq().len() as int) {
        Some(caller) => match last_call_line(edges_under(graph.reverse_edges@, target@), caller) {
            Some(l) => l,
            None => line,
        },
        None => line,
    }
}

/// The line at which the caller hit at (`file`, `line`) calls `target`.
pub fn call_site_line(graph: &CodeGraph, target: &SymbolId, file: &str, line: u32) -> (r: u32)
    requires
        graph.wf(),
    ensures
        r == call_site(graph, *target, file@, line),
{
    let n = graph.symbols.len();
    let mut i: usize = 0;
    let mut found: Option<&SymbolId> = None;
    while i < n
        invariant
            graph.wf(),
            n == graph.symbols.entry_seq().len(),
            i <= n,
            match found {
                Some(id) => symbol_defined_at(graph, file@, line, n as int) == Some(*id),
                None => symbol_defined_at(graph, file@, line, i as int) is None,
            },
        decreases n - i,
    {
        if found.is_none() {
            let s = graph.symbols.value_at(i);
            let fc = s.id.file.as_str().to_owned();
            let ft = file.to_owned();
            if fc == ft && s.line_start == line {
                found = Some(graph.symbols.key_at(i));
                proof {
                    assert(symbol_defined_at(graph, file@, line, i + 1) == Some(graph.symbols.entry_seq()[i as int].0));
                    lemma_defined_at_stable(graph, file@, line, i + 1, n as int);
                }
            }
        }
        i = i + 1;
    }
    let caller = match found {
        Some(c) => c,
        None => {
            return line;
        },
    };
    let mut result: Option<u32> = None;
    match graph.reverse_edges.get(target) {
        Some(es) => {
            let mut j: usize = 0;
            while j < es.len()
                invariant
                    j <= es@.len(),
                    result == last_call_line(es@.take(j as int), *caller),
                decreases es@.len() - j,
            {
                assert(es@.take(j + 1).drop_last() =~= es@.take(j as int));
                if es[j].kind == EdgeKind::Calls && es[j].from.key_eq(caller) {
                    result = Some(es[j].line);
                }
                j = j + 1;
            }
            assert(es@.take(es@.len() as int) =~= es@);
        },
        None => {},
    }
    match result {
        Some(l) => l,
        None => line,
    }
}

proof fn lemma_defined_at_stable(graph: &CodeGraph, file: Seq<char>, line: u32, i: int, n: int)
    requires
        0 <= i <= n,
        symbol_defined_at(graph, file, line, i) is Some,
    ensures
        symbol_defined_at(graph, file, line, n) == symbol_defined_at(graph, file, line, i),
    decreases n - i,
{
    if i < n {
        lemma_defined_at_stable(graph, file, line, i, n - 1);
    }
}

/// The callee name in a signature: the text between its first space and the
/// first `(` after it, trimmed.
pub open spec fn callee_name(sig: Seq<char>) -> Option<Seq<char>> {
    let sp = crate::search::hit::first_index(sig, ' ');
    if sp < 0 {
        None
    } else {
        let rest = sig.skip(sp + 1);
        let open = crate::search::hit::first_index(rest, '(');
        if open < 0 {
            None
        } else {
            Some(crate::strings::trim(rest.take(open)))
        }
    }
}

/// Position of the first `c` in `cs[from..]`, if any.
fn position_of(cs: &Vec<char>, c: char, from: usize) -> (r: Option<usize>)
    requires
        from <= cs@.len(),
    ensures
        match r {
            Some(i) => from <= i < cs@.len() && i - from == crate::search::hit::first_index(cs@.skip(from as int), c),
            None => crate::search::hit::first_index(cs@.skip(from as int), c) < 0,
        },
{
    let ghost t = cs@.skip(from as int);
    let mut i = from;
    while i < cs.len() && cs[i] != c
        invariant
            from <= i <= cs@.len(),
            t == cs@.skip(from as int),
            crate::search::hit::first_index(t, c) == crate::search::hit::first_index_from(t, c, i - from),
        decreases cs@.len() - i,
    {
        i = i + 1;
    }
    if i < cs.len() {
        Some(i)
    } else {
        None
    }
}

/// The callee name in `sig`, used to find the call's arguments.
pub fn callee_name_of(sig: &str) -> (r: Option<String>)
    ensures
        match r {
            Some(n) => callee_name(sig@) == Some(n@),
            None => callee_name(sig@) is None,
        },
{
    let cs = chars_of(sig);
    let n = cs.len();
    assert(cs@.skip(0) =~= cs@);
    let sp = match position_of(&cs, ' ', 0) {
        Some(i) => i,
        None => {
            return None;
        },
    };
    assert(sp < n);
    let open = match position_of(&cs, '(', sp + 1) {
        Some(i) => i,
        None => {
            return None;
        },
    };
    let name = crate::strings::string_of_range(&cs, sp + 1, open);
    assert(name@ =~= cs@.skip(sp + 1).take(open - (sp + 1)));
    Some(crate::strings::trim_string(name.as_str()))
}

/// A call-site context annotated with the callee's signature and, when they
/// were found, the call's arguments, each on a comment line above it.
pub open spec fn decorated(ctx: Seq<char>, callee_sig: Seq<char>, args: Option<Seq<char>>) -> Seq<char> {
    let with_sig = "// callee: "@ + callee_sig + seq!['\n'] + ctx;
    match args {
        Some(a) => "// args: "@ + a + seq!['\n'] + with_sig,
        None => with_sig,
    }
}

/// Annotate a call-site context with the callee's signature and arguments.
pub fn decorate_context(ctx: &str, callee_sig: &str, args: Option<&str>) -> (r: String)
    ensures
        r@ == decorated(
            ctx@,
            callee_sig@,
            match args {
                Some(a) => Some(a@),
                None => None,
            },
        ),
{
    let mut out = String::new();
    match args {
        Some(a) => {
            push_str(&mut out, "// args: ");
            push_str(&mut out, a);
            crate::strings::push_char(&mut out, '\n');
        },
        None => {},
    }
    push_str(&mut out, "// callee: ");
    push_str(&mut out, callee_sig);
    crate::strings::push_char(&mut out, '\n');
    push_str(&mut out, ctx);
    out
}

// ------------------------------------------------------------------
// Call-site context for caller hits.
// ------------------------------------------------------------------

/// The caller hit `h` with the context of its call to `target` attached,
/// read from `src`, the text of the hit's file: the statement around the
/// call site, decorated with the callee's signature `sig` and the call's
/// arguments. A hint, or a hit whose file text is missing, is left as it is.
pub open spec fn context_view(graph: &CodeGraph, target: SymbolId, sig: Seq<char>, h: HitView, src: Option<Seq<char>>) -> HitView {
    if crate::search::hit::is_hint_view(h) {
        h
    } else {
        match src {
            None => h,
            Some(t) => {
                let line = call_site(graph, target, h.file, h.line);
                HitView {
                    context: match crate::search::syntax::enclosing(h.file, t, line) {
                        Some(st) => Some(crate::search::context_extract::call_context_text(t, st, sig, line)),
                        None => None,
                    },
                    ..h
                }
            },
        }
    }
}

/// The hits `hs` of `callers of` on `target`, each with its call-site
/// context attached from the matching text of `srcs`; unchanged when the
/// graph holds no symbol `target`.
pub open spec fn contexts_view(graph: &CodeGraph, target: SymbolId, hs: Seq<HitView>, srcs: Seq<Option<Seq<char>>>) -> Seq<HitView> {
    if graph.symbols@.dom().contains(target@) {
        Seq::new(hs.len(), |i: int| context_view(graph, target, graph.symbols@[target@].signature@, hs[i], srcs[i]))
    } else {
        hs
    }
}

/// Optional texts by value.
pub open spec fn opt_texts(v: Seq<Option<String>>) -> Seq<Option<Seq<char>>> {
    v.map_values(|o: Option<String>| crate::search::hit::opt_text(o))
}

/// Attach to each caller hit of `target` the context of its call, read
/// from `sources[i]`, the text of the file of `hits[i]` (`None` when it
/// could not be read). Hints are left as they are.
pub fn with_call_contexts(graph: &CodeGraph, target: &SymbolId, hits: Vec<SearchHit>, sources: &Vec<Option<String>>) -> (r: Vec<SearchHit>)
    requires
        graph.wf(),
        sources@.len() == hits@.len(),
    ensures
        views(r@) == contexts_view(graph, *target, views(hits@), opt_texts(sources@)),
{
    let ghost hv = views(hits@);
    let sig = match graph.symbols.get(target) {
        Some(sym) => sym.signature.clone(),
        None => {
            return hits;
        },
    };
    let mut out: Vec<SearchHit> = Vec::new();
    let mut hits = hits;
    let mut i: usize = 0;
    let n = hits.len();
    while i < n
        invariant
            graph.wf(),
            graph.symbols@.dom().contains(target@),
            sig@ == graph.symbols@[target@].signature@,
            n == hits@.len(),
            hv.len() == n,
            sources@.len() == n,
            i <= n,
            forall|j: int| i <= j < n ==> #[trigger] hits@[j]@ == hv[j],
            views(out@) == Seq::new(i as nat, |j: int| context_view(graph, *target, sig@, hv[j], opt_texts(sources@)[j])),
        decreases n - i,
    {
        let mut h = SearchHit { file: String::new(), line: 0, signature: None, snippet: None, context: None };
        std::mem::swap(&mut h, &mut hits[i]);
        assert(h@ == hv[i as int]);
        assert(opt_texts(sources@)[i as int] == crate::search::hit::opt_text(sources@[i as int]));
        if !h.is_hint() {
            match &sources[i] {
                Some(src) => {
                    let line = call_site_line(graph, target, h.file.as_str(), h.line);
                    h.context = match crate::search::syntax::enclosing_statement(h.file.as_str(), src.as_str(), line) {
                        Some(st) => Some(crate::search::context_extract::call_context(src.as_str(), st.as_str(), sig.as_str(), line)),
                        None => None,
                    };
                },
                None => {},
            }
        }
        assert(h@ == context_view(graph, *target, sig@, hv[i as int], opt_texts(sources@)[i as int]));
        let ghost before = views(out@);
        out.push(h);
        assert(views(out@) =~= before.push(out@[i as int]@));
        assert(views(out@) =~= Seq::new((i + 1) as nat, |j: int| context_view(graph, *target, sig@, hv[j], opt_texts(sources@)[j])));
        i = i + 1;
    }
    assert(views(out@) =~= contexts_view(graph, *target, hv, opt_texts(sources@)));
    out
}

} // verus!
