//! Top-level search dispatcher: classifies a query and routes it to the
//! structural backend.

use vstd::prelude::*;

use crate::graph::types::CodeGraph;
use crate::paths::{is_absolute, join, path_is_absolute, path_join};
use crate::search::hit::{is_hint_view, HitView, SearchHit};
use crate::search::query::{classify, classify_trimmed, QueryKind, QueryView};
use crate::search::structural::{
    callees_of, callees_view, callers_of, callers_view, chain_from_to, chain_ok, exports_of,
    file_ids, exported_hits, find, find_view, imports_of, imports_view, importers_of,
    importers_view, outline_of, outline_view, tests_for, tests_for_view, views,
};
use crate::strings::trim;

verus! {

/// Cap on list-style structural results.
pub const DEFAULT_MAX_HITS: usize = 10;

/// A query path resolved against the project root: absolute paths stay as
/// they are, relative ones are joined onto the root.
pub open spec fn resolved(root: Seq<char>, p: Seq<char>) -> Seq<char> {
    if is_absolute(p) {
        p
    } else {
        join(root, p)
    }
}

/// Resolve a query path against `project_root`.
pub fn resolve_query_path(project_root: &str, path: &str) -> (r: String)
    ensures
        r@ == resolved(project_root@, path@),
{
    if path_is_absolute(path) {
        path.to_owned()
    } else {
        path_join(project_root, path)
    }
}

/// `hs` without a leading count header when real hits follow it.
pub open spec fn without_header(hs: Seq<HitView>) -> Seq<HitView> {
    if hs.len() >= 2 && is_hint_view(hs[0]) {
        hs.skip(1)
    } else {
        hs
    }
}

/// Drop a leading count header that real hits follow.
fn drop_header(hs: Vec<SearchHit>) -> (r: Vec<SearchHit>)
    ensures
        views(r@) == without_header(views(hs@)),
{
    if hs.len() >= 2 && hs[0].is_hint() {
        let mut out: Vec<SearchHit> = Vec::new();
        let mut i: usize = 1;
        while i < hs.len()
            invariant
                1 <= i <= hs@.len(),
                views(out@) == views(hs@).subrange(1, i as int),
            decreases hs@.len() - i,
        {
            let ghost prev = out@;
            out.push(hs[i].clone());
            assert(views(out@) =~= views(prev).push(hs@[i as int]@));
            i = i + 1;
            assert(views(out@) =~= views(hs@).subrange(1, i as int));
        }
        assert(views(hs@).skip(1) =~= views(hs@).subrange(1, hs@.len() as int));
        out
    } else {
        hs
    }
}

/// What `dispatch` may return for a query.
pub open spec fn dispatched(graph: &CodeGraph, root: Seq<char>, query: Seq<char>, hs: Seq<HitView>) -> bool {
    match classify_trimmed(trim(query)) {
        QueryView::Find(n) => hs == without_header(find_view(graph, n, DEFAULT_MAX_HITS as int)),
        QueryView::Callers(n) => hs == without_header(callers_view(graph, n, DEFAULT_MAX_HITS as int, root)),
        QueryView::Callees(n) => hs == callees_view(graph, n, DEFAULT_MAX_HITS as int),
        QueryView::Outline(p) => hs == without_header(outline_view(graph, resolved(root, p))),
        QueryView::Chain(a, b) => chain_ok(graph, a, b, hs),
        QueryView::ImportsOf(p) => hs == imports_view(graph, resolved(root, p), root),
        QueryView::ImportersOf(p) => hs == importers_view(graph, resolved(root, p), root),
        QueryView::ExportsOf(p) => hs == match file_ids(graph, resolved(root, p)) {
            Some(ids) => exported_hits(graph, ids),
            None => Seq::empty(),
        },
        QueryView::TestsFor(t) => hs == tests_for_view(graph, t, root),
        QueryView::Libraries => hs.len() == 0,
        QueryView::Grep(_) => hs.len() == 0,
    }
}

/// Classify `query` and route it to its structural backend, leaving out the
/// count header that `find`, `callers of` and `outline of` put before their
/// hits. Text search and the library listing read the file system (source
/// files, the project manifest and directories); for those two forms the
/// caller runs the backend and this returns no hits.
pub fn dispatch(graph: &CodeGraph, project_root: &str, query: &str) -> (r: Vec<SearchHit>)
    requires
        graph.wf(),
    ensures
        dispatched(graph, project_root@, query@, views(r@)),
{
    match classify(query) {
        QueryKind::Find(name) => drop_header(find(graph, name.as_str(), DEFAULT_MAX_HITS)),
        QueryKind::Callers(name) => drop_header(callers_of(graph, name.as_str(), DEFAULT_MAX_HITS, project_root, false)),
        QueryKind::Callees(name) => callees_of(graph, name.as_str(), DEFAULT_MAX_HITS),
        QueryKind::Outline(path) => {
            let p = resolve_query_path(project_root, path.as_str());
            drop_header(outline_of(graph, p.as_str()))
        },
        QueryKind::Chain(from, to) => chain_from_to(graph, from.as_str(), to.as_str()),
        QueryKind::ImportsOf(path) => {
            let p = resolve_query_path(project_root, path.as_str());
            imports_of(graph, p.as_str(), project_root)
        },
        QueryKind::ImportersOf(path) => {
            let p = resolve_query_path(project_root, path.as_str());
            importers_of(graph, p.as_str(), project_root)
        },
        QueryKind::ExportsOf(path) => {
            let p = resolve_query_path(project_root, path.as_str());
            exports_of(graph, p.as_str())
        },
        QueryKind::TestsFor(target) => tests_for(graph, target.as_str(), project_root),
        QueryKind::Libraries => Vec::new(),
        QueryKind::Grep(_) => Vec::new(),
    }
}

} // verus!
