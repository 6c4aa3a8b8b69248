//! Graph traversal helpers: callers, callees, shortest path, name lookup.

use vstd::prelude::*;

use crate::assoc::KeyEq;
use crate::graph::types::{
    centrality_under, edge_inserted, edges_under, seqs, symbol_inserted, CodeGraph, Edge, Symbol, SymbolId, SymbolKind,
};
use crate::paths::{ends_with_path, path_ends_with};
use crate::sorting::{stable_sort, stable_sorted};

verus! {

/// View of a symbol id.
pub type IdV = (Seq<char>, Seq<char>, SymbolKind);

/// The `from` ids of a list of edges.
pub open spec fn froms(es: Seq<Edge>) -> Seq<SymbolId> {
    es.map_values(|e: Edge| e.from)
}

/// The `to` ids of a list of edges.
pub open spec fn tos(es: Seq<Edge>) -> Seq<SymbolId> {
    es.map_values(|e: Edge| e.to)
}

/// The ids a list of references points at.
pub open spec fn derefs(ids: Seq<&SymbolId>) -> Seq<SymbolId> {
    ids.map_values(|r: &SymbolId| *r)
}

/// Direct callers of `target`: the `from` of each reverse edge stored under it, in order.
pub fn callers<'g>(graph: &'g CodeGraph, target: &SymbolId) -> (r: Vec<&'g SymbolId>)
    requires
        graph.wf(),
    ensures
        derefs(r@) == froms(edges_under(graph.reverse_edges@, target@)),
{
    let mut out: Vec<&'g SymbolId> = Vec::new();
    match graph.reverse_edges.get(target) {
        Some(edges) => {
            let mut i: usize = 0;
            while i < edges.len()
                invariant
                    i <= edges@.len(),
                    derefs(out@) == froms(edges@.subrange(0, i as int)),
                decreases edges@.len() - i,
            {
                let ghost prev = out@;
                out.push(&edges[i].from);
                proof {
                    assert(derefs(out@) =~= derefs(prev).push(edges@[i as int].from));
                    assert(edges@.subrange(0, i + 1) =~= edges@.subrange(0, i as int).push(edges@[i as int]));
                    assert(froms(edges@.subrange(0, i + 1)) =~= froms(edges@.subrange(0, i as int)).push(edges@[i as int].from));
                }
                i = i + 1;
                assert(derefs(out@) =~= froms(edges@.subrange(0, i as int)));
            }
            assert(edges@.subrange(0, edges@.len() as int) =~= edges@);
        },
        None => {
            assert(derefs(out@) =~= froms(edges_under(graph.reverse_edges@, target@)));
        },
    }
    out
}

/// Direct callees of `target`: the `to` of each forward edge stored under it, in order.
pub fn callees<'g>(graph: &'g CodeGraph, target: &SymbolId) -> (r: Vec<&'g SymbolId>)
    requires
        graph.wf(),
    ensures
        derefs(r@) == tos(edges_under(graph.forward_edges@, target@)),
{
    let mut out: Vec<&'g SymbolId> = Vec::new();
    match graph.forward_edges.get(target) {
        Some(edges) => {
            let mut i: usize = 0;
            while i < edges.len()
                invariant
                    i <= edges@.len(),
                    derefs(out@) == tos(edges@.subrange(0, i as int)),
                decreases edges@.len() - i,
            {
                let ghost prev = out@;
                out.push(&edges[i].to);
                proof {
                    assert(derefs(out@) =~= derefs(prev).push(edges@[i as int].to));
                    assert(edges@.subrange(0, i + 1) =~= edges@.subrange(0, i as int).push(edges@[i as int]));
                    assert(tos(edges@.subrange(0, i + 1)) =~= tos(edges@.subrange(0, i as int)).push(edges@[i as int].to));
                }
                i = i + 1;
                assert(derefs(out@) =~= tos(edges@.subrange(0, i as int)));
            }
            assert(edges@.subrange(0, edges@.len() as int) =~= edges@);
        },
        None => {
            assert(derefs(out@) =~= tos(edges_under(graph.forward_edges@, target@)));
        },
    }
    out
}

/// Some forward edge stored under `a` points at `b`.
pub open spec fn linked(graph: &CodeGraph, a: IdV, b: IdV) -> bool {
    exists|j: int|
        0 <= j < edges_under(graph.forward_edges@, a).len() && #[trigger] edges_under(
            graph.forward_edges@,
            a,
        )[j].to@ == b
}

/// `p` is a walk along forward edges.
pub open spec fn is_walk(graph: &CodeGraph, p: Seq<IdV>) -> bool {
    &&& p.len() >= 1
    &&& forall|i: int| 0 <= i < p.len() - 1 ==> #[trigger] linked(graph, p[i], p[i + 1])
}

/// `b` can be reached from `a` along forward edges.
pub open spec fn reachable(graph: &CodeGraph, a: IdV, b: IdV) -> bool {
    exists|p: Seq<IdV>| is_walk(graph, p) && p[0] == a && p.last() == b
}

/// Views of a list of ids.
pub open spec fn id_views(ids: Seq<SymbolId>) -> Seq<IdV> {
    ids.map_values(|i: SymbolId| i@)
}

proof fn lemma_closed_walk(graph: &CodeGraph, seen: Seq<IdV>, p: Seq<IdV>)
    requires
        is_walk(graph, p),
        seen.contains(p[0]),
        forall|a: IdV, b: IdV| seen.contains(a) && #[trigger] linked(graph, a, b) ==> seen.contains(b),
    ensures
        seen.contains(p.last()),
    decreases p.len(),
{
    if p.len() > 1 {
        let q = p.drop_last();
        assert forall|i: int| 0 <= i < q.len() - 1 implies #[trigger] linked(graph, q[i], q[i + 1]) by {
            assert(linked(graph, p[i], p[i + 1]));
        }
        lemma_closed_walk(graph, seen, q);
        let i = p.len() - 2;
        assert(linked(graph, p[i], p[i + 1]));
    }
}

/// What a search looks for: one symbol, or any symbol in a file whose
/// trailing path components are the given ones.
pub enum Goal {
    Symbol(SymbolId),
    FileEndsWith(String),
}

/// `k` is what `goal` looks for.
pub open spec fn goal_holds(goal: &Goal, k: IdV) -> bool {
    match goal {
        Goal::Symbol(id) => k == id@,
        Goal::FileEndsWith(f) => ends_with_path(k.0, f@),
    }
}

impl Goal {
    /// Is `id` what this goal looks for?
    pub fn holds_for(&self, id: &SymbolId) -> (r: bool)
        ensures
            r == goal_holds(self, id@),
    {
        match self {
            Goal::Symbol(t) => id.key_eq(t),
            Goal::FileEndsWith(f) => path_ends_with(id.file.as_str(), f.as_str()),
        }
    }
}

/// Every walk from `from` to `v` has at least `d` edges.
pub open spec fn at_least(graph: &CodeGraph, from: IdV, v: IdV, d: int) -> bool {
    forall|p: Seq<IdV>| #[trigger] is_walk(graph, p) && p[0] == from && p.last() == v ==> d <= p.len() - 1
}

/// No walk from `from` to a node `goal` accepts has fewer than `n` nodes.
pub open spec fn no_shorter_walk(graph: &CodeGraph, from: IdV, goal: &Goal, n: int) -> bool {
    forall|p: Seq<IdV>| #[trigger] is_walk(graph, p) && p[0] == from && goal_holds(goal, p.last()) ==> n <= p.len()
}

/// Node `i` lies one edge further from the start than its discoverer.
pub open spec fn dist_step(dist: Seq<int>, parent: Seq<usize>, i: int) -> bool {
    dist[i] == dist[parent[i] as int] + 1
}

/// A walk from inside `seen` to outside it leaves `seen` at some step `t`.
proof fn lemma_first_unseen(graph: &CodeGraph, seen: Seq<IdV>, p: Seq<IdV>) -> (t: int)
    requires
        is_walk(graph, p),
        seen.contains(p[0]),
        !seen.contains(p.last()),
    ensures
        1 <= t < p.len(),
        seen.contains(p[t - 1]),
        !seen.contains(p[t]),
    decreases p.len(),
{
    let q = p.drop_last();
    if seen.contains(q.last()) {
        p.len() - 1
    } else {
        assert forall|i: int| 0 <= i < q.len() - 1 implies #[trigger] linked(graph, q[i], q[i + 1]) by {
            assert(linked(graph, p[i], p[i + 1]));
        }
        lemma_first_unseen(graph, seen, q)
    }
}

/// A prefix of a walk is a walk.
proof fn lemma_walk_prefix(graph: &CodeGraph, p: Seq<IdV>, t: int)
    requires
        is_walk(graph, p),
        1 <= t <= p.len(),
    ensures
        is_walk(graph, p.take(t)),
{
    let q = p.take(t);
    assert forall|i: int| 0 <= i < q.len() - 1 implies #[trigger] linked(graph, q[i], q[i + 1]) by {
        assert(linked(graph, p[i], p[i + 1]));
    }
}

/// During the search, a walk from the start to an undiscovered node has at
/// least one edge more than the node being expanded lies from the start.
proof fn lemma_unseen_far(graph: &CodeGraph, ov: Seq<IdV>, dist: Seq<int>, cur: int, from: IdV, p: Seq<IdV>)
    requires
        is_walk(graph, p),
        p[0] == from,
        ov.len() > 0,
        ov[0] == from,
        0 <= cur < ov.len(),
        dist.len() == ov.len(),
        !ov.contains(p.last()),
        forall|i: int, b: IdV| 0 <= i < cur && #[trigger] linked(graph, ov[i], b) ==> ov.contains(b),
        forall|i: int, k: int| 0 <= i <= k < dist.len() ==> #[trigger] dist[i] <= #[trigger] dist[k],
        forall|m: int| 0 <= m < ov.len() ==> #[trigger] at_least(graph, from, ov[m], dist[m]),
    ensures
        dist[cur] + 1 <= p.len() - 1,
{
    assert(ov.contains(p[0])) by {
        assert(ov[0] == p[0]);
    }
    let t = lemma_first_unseen(graph, ov, p);
    let m = choose|m: int| 0 <= m < ov.len() && ov[m] == p[t - 1];
    let s = t - 1;
    assert(linked(graph, p[s], p[s + 1]));
    if m < cur {
        assert(linked(graph, ov[m], p[s + 1]));
        assert(false);
    }
    lemma_walk_prefix(graph, p, t);
    let q = p.take(t);
    assert(q.last() == ov[m]);
    assert(q[0] == from);
    assert(at_least(graph, from, ov[m], dist[m]));
    assert(dist[m] <= q.len() - 1);
    assert(dist[cur] <= dist[m]);
}

/// Breadth-first search from `from` along forward edges for a node that
/// `goal` accepts. Returns a shortest walk to one, or `None` when no such node can be
/// reached. When `from` itself is accepted the walk is `[from]`.
pub fn walk_to(graph: &CodeGraph, from: &SymbolId, goal: &Goal) -> (r: Option<Vec<SymbolId>>)
    requires
        graph.wf(),
    ensures
        match r {
            Some(path) => is_walk(graph, id_views(path@)) && path@[0]@ == from@ && goal_holds(goal, path@.last()@)
                && no_shorter_walk(graph, from@, goal, path@.len() as int),
            None => forall|b: IdV| reachable(graph, from@, b) ==> !goal_holds(goal, b),
        },
        goal_holds(goal, from@) ==> (r matches Some(p) && p@.len() == 1),
{
    if goal.holds_for(from) {
        let mut p: Vec<SymbolId> = Vec::new();
        p.push(from.clone());
        proof {
            assert(id_views(p@) =~= seq![from@]);
        }
        return Some(p);
    }
    // Every node the search can discover is the target of some stored edge.
    let universe = all_targets(graph);
    // order[i] is the i-th discovered node; parent[i] the index of its discoverer.
    let mut order: Vec<SymbolId> = Vec::new();
    let mut parent: Vec<usize> = Vec::new();
    order.push(from.clone());
    parent.push(0);
    // dist[i] is how many edges order[i] lies from `from`.
    let ghost mut dist: Seq<int> = seq![0int];
    proof {
        assert forall|p: Seq<IdV>| #[trigger] is_walk(graph, p) && p[0] == from@ && p.last() == order@[0]@ implies 0 <= p.len() - 1 by {}
        assert(at_least(graph, from@, order@[0]@, dist[0]));
    }
    let mut head: usize = 0;
    while head < order.len()
        invariant
            graph.wf(),
            !goal_holds(goal, from@),
            1 <= order@.len(),
            parent@.len() == order@.len(),
            head <= order@.len(),
            order@[0]@ == from@,
            id_views(order@).no_duplicates(),
            order@.len() <= universe@.len() + 1,
            forall|i: int| 0 < i < order@.len() ==> universe_contains(universe@, #[trigger] order@[i]@),
            forall|k: IdV, t: int| 0 <= t < edges_under(graph.forward_edges@, k).len()
                ==> universe_contains(universe@, #[trigger] edges_under(graph.forward_edges@, k)[t].to@),

            forall|i: int| 0 <= i < order@.len() ==> !goal_holds(goal, #[trigger] order@[i]@),
            forall|i: int| 0 < i < order@.len() ==> #[trigger] parent_ok(graph, order@, parent@, i),
            forall|i: int, b: IdV|
                0 <= i < head && #[trigger] linked(graph, order@[i]@, b) ==> id_views(
                    order@,
                ).contains(b),
            dist.len() == order@.len(),
            dist[0] == 0,
            forall|i: int| 0 < i < order@.len() ==> #[trigger] dist_step(dist, parent@, i),
            forall|i: int, k: int| 0 <= i <= k < dist.len() ==> #[trigger] dist[i] <= #[trigger] dist[k],
            head < order@.len() ==> forall|k: int| 0 <= k < dist.len() ==> #[trigger] dist[k] <= dist[head as int] + 1,
            forall|m: int| 0 <= m < order@.len() ==> #[trigger] at_least(graph, from@, order@[m]@, dist[m]),
        decreases universe@.len() + 1 - head,
    {
        let cur = head;
        match graph.forward_edges.get(&order[cur]) {
            Some(edges) => {
                let mut j: usize = 0;
                while j < edges.len()
                    invariant
                        graph.wf(),
                        !goal_holds(goal, from@),
                        1 <= order@.len(),
                        parent@.len() == order@.len(),
                        cur < order@.len(),
                        head == cur,
                        graph.forward_edges@.dom().contains(order@[cur as int]@),
                        *edges == graph.forward_edges@[order@[cur as int]@],
                        j <= edges@.len(),
                        order@[0]@ == from@,
                        id_views(order@).no_duplicates(),
                        order@.len() <= universe@.len() + 1,
                        forall|i: int| 0 < i < order@.len() ==> universe_contains(universe@, #[trigger] order@[i]@),
                        forall|k: IdV, t: int| 0 <= t < edges_under(graph.forward_edges@, k).len()
                            ==> universe_contains(universe@, #[trigger] edges_under(graph.forward_edges@, k)[t].to@),

                        forall|i: int| 0 <= i < order@.len() ==> !goal_holds(goal, #[trigger] order@[i]@),
                        forall|i: int| 0 < i < order@.len() ==> #[trigger] parent_ok(graph, order@, parent@, i),
                        forall|i: int, b: IdV|
                            0 <= i < cur && #[trigger] linked(graph, order@[i]@, b) ==> id_views(
                                order@,
                            ).contains(b),
                        forall|k: int| 0 <= k < j ==> id_views(order@).contains(#[trigger] edges@[k].to@),
                        dist.len() == order@.len(),
                        dist[0] == 0,
                        forall|i: int| 0 < i < order@.len() ==> #[trigger] dist_step(dist, parent@, i),
                        forall|i: int, k: int| 0 <= i <= k < dist.len() ==> #[trigger] dist[i] <= #[trigger] dist[k],
                        forall|k: int| 0 <= k < dist.len() ==> #[trigger] dist[k] <= dist[cur as int] + 1,
                        forall|m: int| 0 <= m < order@.len() ==> #[trigger] at_least(graph, from@, order@[m]@, dist[m]),
                    decreases edges@.len() - j,
                {
                    let next = &edges[j].to;
                    let mut seen = false;
                    let mut s: usize = 0;
                    while s < order.len()
                        invariant
                            s <= order@.len(),
                            !seen ==> forall|k: int| 0 <= k < s ==> order@[k]@ != next@,
                            seen ==> id_views(order@).contains(next@),
                        decreases order@.len() - s,
                    {
                        if order[s].key_eq(next) {
                            seen = true;
                            assert(id_views(order@)[s as int] == next@);
                        }
                        s = s + 1;
                    }
                    proof {
                        assert(linked(graph, order@[cur as int]@, next@)) by {
                            assert(edges_under(graph.forward_edges@, order@[cur as int]@)[j as int].to@ == next@);
                        }
                    }
                    if !seen {
                        if goal.holds_for(next) {
                            // Reconstruct the walk by following discoverers back to `from`.
                            let mut rev: Vec<SymbolId> = Vec::new();
                            rev.push(next.clone());
                            let mut at = cur;
                            rev.push(order[at].clone());
                            proof {
                                assert(linked(graph, order@[at as int]@, next@));
                            }
                            while at > 0
                                invariant
                                    at < order@.len(),
                                    parent@.len() == order@.len(),
                                    rev@.len() >= 2,
                                    goal_holds(goal, rev@[0]@),
                                    rev@.last()@ == order@[at as int]@,
                                    forall|i: int| 0 < i < order@.len() ==> #[trigger] parent_ok(graph, order@, parent@, i),
                                    forall|k: int|
                                        0 <= k < rev@.len() - 1 ==> #[trigger] linked(
                                            graph,
                                            rev@[k + 1]@,
                                            rev@[k]@,
                                        ),
                                    dist.len() == order@.len(),
                                    dist[0] == 0,
                                    forall|i: int| 0 < i < order@.len() ==> #[trigger] dist_step(dist, parent@, i),
                                    cur < order@.len(),
                                    rev@.len() == dist[cur as int] - dist[at as int] + 2,
                                decreases at,
                            {
                                let pa = parent[at];
                                proof {
                                    assert(parent_ok(graph, order@, parent@, at as int));
                                    assert(dist_step(dist, parent@, at as int));
                                }
                                rev.push(order[pa].clone());
                                at = pa;
                            }
                            let mut path: Vec<SymbolId> = Vec::new();
                            let n = rev.len();
                            let mut k: usize = 0;
                            while k < n
                                invariant
                                    n == rev@.len(),
                                    k <= n,
                                    path@.len() == k,
                                    forall|t: int| 0 <= t < k ==> path@[t] == rev@[n - 1 - t],
                                decreases n - k,
                            {
                                path.push(rev[n - 1 - k].clone());
                                k = k + 1;
                            }
                            proof {
                                let pv = id_views(path@);
                                assert forall|i: int| 0 <= i < pv.len() - 1 implies #[trigger] linked(graph, pv[i], pv[i + 1]) by {
                                    let kk = n - 2 - i;
                                    assert(linked(graph, rev@[kk + 1]@, rev@[kk]@));
                                }
                                assert(path@[0] == rev@[n - 1]);
                                assert(path@.len() == dist[cur as int] + 2);
                                let ov = id_views(order@);
                                assert forall|p: Seq<IdV>| #[trigger] is_walk(graph, p) && p[0] == from@ && goal_holds(goal, p.last())
                                    implies path@.len() <= p.len() by {
                                    if ov.contains(p.last()) {
                                        let w = choose|w: int| 0 <= w < ov.len() && ov[w] == p.last();
                                        assert(!goal_holds(goal, order@[w]@));
                                    }
                                    assert forall|m: int| 0 <= m < ov.len() implies #[trigger] at_least(graph, from@, ov[m], dist[m]) by {
                                        assert(at_least(graph, from@, order@[m]@, dist[m]));
                                    }
                                    assert forall|i: int, b: IdV| 0 <= i < cur && #[trigger] linked(graph, ov[i], b) implies ov.contains(b) by {
                                        assert(linked(graph, order@[i]@, b));
                                    }
                                    lemma_unseen_far(graph, ov, dist, cur as int, from@, p);
                                }
                            }
                            return Some(path);
                        }
                        let ghost old_order = order@;
                        let ghost old_parent = parent@;
                        let ghost old_dist = dist;
                        proof {
                            let ov = id_views(old_order);
                            assert forall|p: Seq<IdV>| #[trigger] is_walk(graph, p) && p[0] == from@ && p.last() == next@
                                implies dist[cur as int] + 1 <= p.len() - 1 by {
                                assert forall|m: int| 0 <= m < ov.len() implies #[trigger] at_least(graph, from@, ov[m], dist[m]) by {
                                    assert(at_least(graph, from@, old_order[m]@, dist[m]));
                                }
                                assert forall|i: int, b: IdV| 0 <= i < cur && #[trigger] linked(graph, ov[i], b) implies ov.contains(b) by {
                                    assert(linked(graph, old_order[i]@, b));
                                }
                                if ov.contains(next@) {
                                    let w = choose|w: int| 0 <= w < ov.len() && ov[w] == next@;
                                    assert(old_order[w]@ == next@);
                                }
                                lemma_unseen_far(graph, ov, dist, cur as int, from@, p);
                            }
                            dist = dist.push(dist[cur as int] + 1);
                        }
                        order.push(next.clone());
                        parent.push(cur);
                        proof {
                            assert(at_least(graph, from@, order@[old_order.len() as int]@, dist[old_order.len() as int]));
                            assert forall|m: int| 0 <= m < order@.len() implies #[trigger] at_least(graph, from@, order@[m]@, dist[m]) by {
                                if m < old_order.len() {
                                    assert(order@[m] == old_order[m]);
                                    assert(dist[m] == old_dist[m]);
                                }
                            }
                            assert forall|i: int| 0 < i < order@.len() implies #[trigger] dist_step(dist, parent@, i) by {
                                if i < old_order.len() {
                                    assert(dist_step(old_dist, old_parent, i));
                                    assert(parent_ok(graph, old_order, old_parent, i));
                                    assert(parent@[i] == old_parent[i]);
                                    assert(dist[i] == old_dist[i]);
                                    assert(dist[old_parent[i] as int] == old_dist[old_parent[i] as int]);
                                } else {
                                    assert(parent@[i] == cur);
                                    assert(dist[cur as int] == old_dist[cur as int]);
                                }
                            }
                            assert(id_views(order@) =~= id_views(old_order).push(next@));
                            assert forall|i: int, b: IdV| 0 <= i < cur && #[trigger] linked(graph, order@[i]@, b) implies id_views(order@).contains(b) by {
                                assert(order@[i] == old_order[i]);
                                assert(id_views(old_order).contains(b));
                                let w = choose|w: int| 0 <= w < id_views(old_order).len() && id_views(old_order)[w] == b;
                                assert(id_views(order@)[w] == b);
                            }
                            assert forall|k: int| 0 <= k < j + 1 implies id_views(order@).contains(#[trigger] edges@[k].to@) by {
                                if k < j {
                                    let w = choose|w: int| 0 <= w < id_views(old_order).len() && id_views(old_order)[w] == edges@[k].to@;
                                    assert(id_views(order@)[w] == edges@[k].to@);
                                } else {
                                    assert(id_views(order@)[old_order.len() as int] == next@);
                                }
                            }
                            assert forall|i: int| 0 < i < order@.len() implies #[trigger] parent_ok(graph, order@, parent@, i) by {
                                if i < old_order.len() {
                                    assert(order@[i] == old_order[i]);
                                    assert(parent_ok(graph, old_order, old_parent, i));
                                    assert(order@[parent@[i] as int] == old_order[parent@[i] as int]);
                                } else {
                                    assert(parent@[i] == cur);
                                    assert(order@[i]@ == next@);
                                    assert(order@[cur as int] == old_order[cur as int]);
                                }
                            }
                            assert(universe_contains(universe@, edges_under(graph.forward_edges@, order@[cur as int]@)[j as int].to@));
                            assert forall|i: int| 0 < i < order@.len() implies universe_contains(universe@, #[trigger] order@[i]@) by {
                                if i < old_order.len() {
                                    assert(order@[i] == old_order[i]);
                                }
                            }
                            lemma_distinct_bound(id_views(order@), universe@, from@);
                        }
                    }
                    j = j + 1;
                }
                proof {
                    assert forall|i: int, b: IdV| 0 <= i < cur + 1 && #[trigger] linked(graph, order@[i]@, b) implies id_views(order@).contains(b) by {
                        if i == cur {
                            let w = choose|w: int| 0 <= w < edges_under(graph.forward_edges@, order@[i]@).len() && #[trigger] edges_under(graph.forward_edges@, order@[i]@)[w].to@ == b;
                            assert(edges@[w].to@ == b);
                        }
                    }
                }
            },
            None => {
                proof {
                    assert forall|i: int, b: IdV| 0 <= i < cur + 1 && #[trigger] linked(graph, order@[i]@, b) implies id_views(order@).contains(b) by {
                        if i == cur {
                            assert(edges_under(graph.forward_edges@, order@[i]@).len() == 0);
                        }
                    }
                }
            },
        }
        head = head + 1;
    }
    proof {
        let seen = id_views(order@);
        assert forall|a: IdV, b: IdV| seen.contains(a) && #[trigger] linked(graph, a, b) implies seen.contains(b) by {
            let i = choose|i: int| 0 <= i < seen.len() && seen[i] == a;
            assert(linked(graph, order@[i]@, b));
        }
        assert(seen[0] == from@);
        assert forall|b: IdV| reachable(graph, from@, b) implies !goal_holds(goal, b) by {
            let p = choose|p: Seq<IdV>| is_walk(graph, p) && p[0] == from@ && p.last() == b;
            lemma_closed_walk(graph, seen, p);
            let i = choose|i: int| 0 <= i < seen.len() && seen[i] == b;
            assert(order@[i]@ == b);
        }
    }
    None
}

/// Breadth-first search from `from` along forward edges. Returns a shortest
/// walk to `to`, or `None` when `to` cannot be reached.
pub fn shortest_path(graph: &CodeGraph, from: &SymbolId, to: &SymbolId) -> (r: Option<Vec<SymbolId>>)
    requires
        graph.wf(),
    ensures
        match r {
            Some(path) => is_walk(graph, id_views(path@)) && path@[0]@ == from@ && path@.last()@
                == to@ && forall|p: Seq<IdV>| #[trigger] is_walk(graph, p) && p[0] == from@ && p.last() == to@
                ==> path@.len() <= p.len(),
            None => !reachable(graph, from@, to@),
        },
        from@ == to@ ==> (r matches Some(p) && p@.len() == 1),
{
    let t = to.clone();
    let goal = Goal::Symbol(t);
    let r = walk_to(graph, from, &goal);
    match &r {
        Some(path) => {
            assert(goal_holds(&goal, path@.last()@));
            assert forall|p: Seq<IdV>| #[trigger] is_walk(graph, p) && p[0] == from@ && p.last() == to@
                implies path@.len() <= p.len() by {
                assert(goal_holds(&goal, p.last()));
            }
        },
        None => {
            proof {
                if reachable(graph, from@, to@) {
                    assert(!goal_holds(&goal, to@));
                }
            }
        },
    }
    r
}

/// Breadth-first search from `from` along forward edges for any symbol of a
/// file whose trailing components are `file`; the walk found is a shortest one.
pub fn shortest_path_to_file(graph: &CodeGraph, from: &SymbolId, file: &str) -> (r: Option<Vec<SymbolId>>)
    requires
        graph.wf(),
    ensures
        match r {
            Some(path) => is_walk(graph, id_views(path@)) && path@[0]@ == from@
                && ends_with_path(path@.last()@.0, file@) && forall|p: Seq<IdV>| #[trigger] is_walk(graph, p) && p[0] == from@
                && ends_with_path(p.last().0, file@) ==> path@.len() <= p.len(),
            None => forall|b: IdV| reachable(graph, from@, b) ==> !ends_with_path(b.0, file@),
        },
        ends_with_path(from@.0, file@) ==> (r matches Some(p) && p@.len() == 1),
{
    let f = file.to_owned();
    assert(f@ == file@);
    let goal = Goal::FileEndsWith(f);
    let r = walk_to(graph, from, &goal);
    match &r {
        Some(path) => {
            assert(goal_holds(&goal, path@.last()@));
            assert forall|p: Seq<IdV>| #[trigger] is_walk(graph, p) && p[0] == from@ && ends_with_path(p.last().0, file@)
                implies path@.len() <= p.len() by {
                assert(goal_holds(&goal, p.last()));
            }
        },
        None => {
            proof {
                assert forall|b: IdV| reachable(graph, from@, b) implies !ends_with_path(b.0, file@) by {
                    assert(!goal_holds(&goal, b));
                }
            }
        },
    }
    r
}

/// Node `i` of a discovery order was discovered from an earlier node along a forward edge.
pub open spec fn parent_ok(graph: &CodeGraph, order: Seq<SymbolId>, parent: Seq<usize>, i: int) -> bool {
    &&& parent[i] < i
    &&& linked(graph, order[parent[i] as int]@, order[i]@)
}

/// `u` holds an id whose view is `k`.
pub open spec fn universe_contains(u: Seq<SymbolId>, k: IdV) -> bool {
    id_views(u).contains(k)
}

/// A duplicate-free list drawn from `u` plus one extra element is at most one longer than `u`.
proof fn lemma_distinct_bound(order: Seq<IdV>, u: Seq<SymbolId>, extra: IdV)
    requires
        order.no_duplicates(),
        order.len() >= 1,
        order[0] == extra,
        forall|i: int| 0 < i < order.len() ==> universe_contains(u, #[trigger] order[i]),
    ensures
        order.len() <= u.len() + 1,
{
    let uv = id_views(u);
    let a = order.to_set();
    let b = uv.to_set().insert(extra);
    order.unique_seq_to_set();
    uv.lemma_cardinality_of_set();
    vstd::seq_lib::seq_to_set_is_finite(uv);
    assert(a.subset_of(b)) by {
        assert forall|x| a.contains(x) implies b.contains(x) by {
            let i = choose|i: int| 0 <= i < order.len() && order[i] == x;
            if i > 0 {
                assert(universe_contains(u, order[i]));
            }
        }
    }
    vstd::set_lib::lemma_len_subset(a, b);
}

/// The targets of every stored forward edge, with repetitions.
fn all_targets(graph: &CodeGraph) -> (r: Vec<SymbolId>)
    requires
        graph.wf(),
    ensures
        forall|k: IdV, t: int| 0 <= t < edges_under(graph.forward_edges@, k).len()
            ==> universe_contains(r@, #[trigger] edges_under(graph.forward_edges@, k)[t].to@),
{
    let mut out: Vec<SymbolId> = Vec::new();
    let n = graph.forward_edges.len();
    let mut i: usize = 0;
    proof {
        graph.forward_edges.lemma_wf();
    }
    while i < n
        invariant
            graph.wf(),
            n == graph.forward_edges.entry_seq().len(),
            i <= n,
            forall|e: int, t: int| 0 <= e < i && 0 <= t < graph.forward_edges.entry_seq()[e].1@.len()
                ==> universe_contains(out@, #[trigger] graph.forward_edges.entry_seq()[e].1@[t].to@),
        decreases n - i,
    {
        let es = graph.forward_edges.value_at(i);
        let mut j: usize = 0;
        let ghost before = out@;
        while j < es.len()
            invariant
                j <= es@.len(),
                *es == graph.forward_edges.entry_seq()[i as int].1,
                i < n,
                n == graph.forward_edges.entry_seq().len(),
                before.is_prefix_of(out@),
                forall|t: int| 0 <= t < j ==> universe_contains(out@, #[trigger] es@[t].to@),
            decreases es@.len() - j,
        {
            let ghost prev = out@;
            out.push(es[j].to.clone());
            proof {
                assert(id_views(out@) =~= id_views(prev).push(es@[j as int].to@));
                assert forall|t: int| 0 <= t < j + 1 implies universe_contains(out@, #[trigger] es@[t].to@) by {
                    if t < j {
                        let w = choose|w: int| 0 <= w < id_views(prev).len() && id_views(prev)[w] == es@[t].to@;
                        assert(id_views(out@)[w] == es@[t].to@);
                    } else {
                        assert(id_views(out@)[prev.len() as int] == es@[t].to@);
                    }
                }
            }
            j = j + 1;
        }
        proof {
            assert forall|e: int, t: int| 0 <= e < i + 1 && 0 <= t < graph.forward_edges.entry_seq()[e].1@.len()
                implies universe_contains(out@, #[trigger] graph.forward_edges.entry_seq()[e].1@[t].to@) by {
                if e < i {
                    let x = graph.forward_edges.entry_seq()[e].1@[t].to@;
                    assert(universe_contains(before, x));
                    let w = choose|w: int| 0 <= w < id_views(before).len() && id_views(before)[w] == x;
                    assert(out@[w] == before[w]);
                    assert(id_views(out@)[w] == x);
                }
            }
        }
        i = i + 1;
    }
    proof {
        graph.forward_edges.lemma_wf();
        assert forall|k: IdV, t: int| 0 <= t < edges_under(graph.forward_edges@, k).len()
            implies universe_contains(out@, #[trigger] edges_under(graph.forward_edges@, k)[t].to@) by {
            assert(graph.forward_edges@.dom().contains(k));
            assert(graph.forward_edges.key_seq().contains(k));
            let e = choose|e: int| 0 <= e < graph.forward_edges.key_seq().len() && graph.forward_edges.key_seq()[e] == k;
            assert(graph.forward_edges.entry_seq()[e].0@ == k);
            assert(graph.forward_edges@[k] == graph.forward_edges.entry_seq()[e].1);
        }
    }
    out
}

/// The least number of single-character insertions, deletions and
/// substitutions turning `a` into `b`.
pub open spec fn edit_distance(a: Seq<char>, b: Seq<char>) -> nat
    decreases a.len() + b.len(),
{
    if a.len() == 0 {
        b.len()
    } else if b.len() == 0 {
        a.len()
    } else {
        let del = edit_distance(a.drop_last(), b) + 1;
        let ins = edit_distance(a, b.drop_last()) + 1;
        let sub = edit_distance(a.drop_last(), b.drop_last()) + if a.last() == b.last() {
            0nat
        } else {
            1nat
        };
        if del <= ins && del <= sub {
            del
        } else if ins <= sub {
            ins
        } else {
            sub
        }
    }
}

/// The edit distance of `a` and `b` as a `usize`; it never exceeds the
/// longer length, so nothing is lost.
pub open spec fn levenshtein_distance(a: Seq<char>, b: Seq<char>) -> usize {
    edit_distance(a, b) as usize
}

/// Calls `strsim::levenshtein`, which counts the least number of
/// single-character insertions, deletions and substitutions turning `a`
/// into `b`: `levenshtein_distance` of the two texts.
#[verifier::external_body]
fn levenshtein(a: &str, b: &str) -> (d: usize)
    ensures
        d == levenshtein_distance(a@, b@),
{
    strsim::levenshtein(a, b)
}

/// The symbol ids in the order the symbol table holds them.
pub open spec fn symbol_ids(graph: &CodeGraph) -> Seq<SymbolId> {
    graph.symbols.entry_seq().map_values(|e: (SymbolId, Symbol)| e.0)
}

/// Sort key that puts higher centrality first.
pub open spec fn centrality_rank(graph: &CodeGraph, id: SymbolId) -> u64 {
    (u32::MAX - centrality_under(graph.centrality@, id@)) as u64
}

/// Positions, with their sort keys, of the symbols among the first `n` whose name is `name`.
pub open spec fn exact_candidates(graph: &CodeGraph, name: Seq<char>, n: int) -> Seq<(usize, u64)>
    decreases n,
{
    if n <= 0 {
        Seq::empty()
    } else {
        let prev = exact_candidates(graph, name, n - 1);
        let id = symbol_ids(graph)[n - 1];
        if id.name@ == name {
            prev.push(((n - 1) as usize, centrality_rank(graph, id)))
        } else {
            prev
        }
    }
}

/// Positions, with their sort keys, of the symbols among the first `n` whose
/// distance in `dist` is at most two; the key orders by distance, then centrality.
pub open spec fn fuzzy_candidates(graph: &CodeGraph, dist: Seq<usize>, n: int) -> Seq<(usize, u64)>
    decreases n,
{
    if n <= 0 {
        Seq::empty()
    } else {
        let prev = fuzzy_candidates(graph, dist, n - 1);
        let id = symbol_ids(graph)[n - 1];
        if dist[n - 1] <= 2 {
            prev.push(((n - 1) as usize, (dist[n - 1] * 0x1_0000_0000 + centrality_rank(graph, id)) as u64))
        } else {
            prev
        }
    }
}

/// The ranked positions: exact matches by centrality when there is one,
/// otherwise near matches by distance and then centrality.
pub open spec fn name_ranking(graph: &CodeGraph, name: Seq<char>, dist: Seq<usize>) -> Seq<(usize, u64)> {
    let n = symbol_ids(graph).len() as int;
    let ex = exact_candidates(graph, name, n);
    if ex.len() > 0 {
        stable_sorted(ex)
    } else {
        stable_sorted(fuzzy_candidates(graph, dist, n))
    }
}

/// Levenshtein distance of each symbol's name to `name`, in table order.
pub open spec fn name_distances(graph: &CodeGraph, name: Seq<char>) -> Seq<usize> {
    symbol_ids(graph).map_values(|id: SymbolId| levenshtein_distance(id.name@, name))
}

/// The ids at the ranked positions.
pub open spec fn ranked_ids(graph: &CodeGraph, ranking: Seq<(usize, u64)>) -> Seq<SymbolId> {
    ranking.map_values(|p: (usize, u64)| symbol_ids(graph)[p.0 as int])
}

proof fn lemma_candidates_in_range(graph: &CodeGraph, name: Seq<char>, dist: Seq<usize>, n: int)
    requires
        0 <= n <= usize::MAX,
    ensures
        forall|j: int| 0 <= j < exact_candidates(graph, name, n).len()
            ==> #[trigger] exact_candidates(graph, name, n)[j].0 < n,
        forall|j: int| 0 <= j < fuzzy_candidates(graph, dist, n).len()
            ==> #[trigger] fuzzy_candidates(graph, dist, n)[j].0 < n,
    decreases n,
{
    if n > 0 {
        lemma_candidates_in_range(graph, name, dist, n - 1);
        let e0 = exact_candidates(graph, name, n - 1);
        let f0 = fuzzy_candidates(graph, dist, n - 1);
        assert forall|j: int| 0 <= j < exact_candidates(graph, name, n).len()
            implies #[trigger] exact_candidates(graph, name, n)[j].0 < n by {
            if j < e0.len() {
                assert(exact_candidates(graph, name, n)[j] == e0[j]);
            }
        }
        assert forall|j: int| 0 <= j < fuzzy_candidates(graph, dist, n).len()
            implies #[trigger] fuzzy_candidates(graph, dist, n)[j].0 < n by {
            if j < f0.len() {
                assert(fuzzy_candidates(graph, dist, n)[j] == f0[j]);
            }
        }
    }
}

/// Rank the symbols against `name` given each one's distance to it, in table
/// order: the exact matches by descending centrality if there is any, otherwise
/// those within distance two, by distance and then descending centrality.
/// Ties keep table order.
pub fn rank_by_name<'g>(graph: &'g CodeGraph, name: &str, dist: &Vec<usize>) -> (r: Vec<&'g SymbolId>)
    requires
        graph.wf(),
        dist@.len() == symbol_ids(graph).len(),
    ensures
        derefs(r@) == ranked_ids(graph, name_ranking(graph, name@, dist@)),
{
    let n = graph.symbols.len();
    let target = name.to_owned();
    proof {
        graph.symbols.lemma_wf();
    }
    let mut exact: Vec<(usize, u64)> = Vec::new();
    let mut i: usize = 0;
    while i < n
        invariant
            graph.wf(),
            n == symbol_ids(graph).len(),
            i <= n,
            target@ == name@,
            exact@ == exact_candidates(graph, name@, i as int),
        decreases n - i,
    {
        let id = graph.symbols.key_at(i);
        if id.name == target {
            let c: u32 = match graph.centrality.get(id) {
                Some(c) => *c,
                None => 0,
            };
            exact.push((i, (u32::MAX - c) as u64));
        }
        i = i + 1;
    }
    let chosen = if exact.len() > 0 {
        exact
    } else {
        let mut fuzzy: Vec<(usize, u64)> = Vec::new();
        let mut i: usize = 0;
        while i < n
            invariant
                graph.wf(),
                n == symbol_ids(graph).len(),
                dist@.len() == n,
                i <= n,
                fuzzy@ == fuzzy_candidates(graph, dist@, i as int),
            decreases n - i,
        {
            let d = dist[i];
            if d <= 2 {
                let id = graph.symbols.key_at(i);
                let c: u32 = match graph.centrality.get(id) {
                    Some(c) => *c,
                    None => 0,
                };
                let key: u64 = (d as u64) * 0x1_0000_0000 + (u32::MAX - c) as u64;
                fuzzy.push((i, key));
            }
            i = i + 1;
        }
        fuzzy
    };
    let ghost ranking = name_ranking(graph, name@, dist@);
    assert(chosen@ == exact_candidates(graph, name@, n as int) || chosen@ == fuzzy_candidates(graph, dist@, n as int));
    let sorted = stable_sort(chosen);
    assert(sorted@ == ranking);
    proof {
        lemma_candidates_in_range(graph, name@, dist@, n as int);
        crate::sorting::lemma_sorted_members(chosen@);
    }
    let mut out: Vec<&'g SymbolId> = Vec::new();
    let mut j: usize = 0;
    while j < sorted.len()
        invariant
            n == symbol_ids(graph).len(),
            sorted@ == ranking,
            forall|k: int| 0 <= k < sorted@.len() ==> #[trigger] sorted@[k].0 < n,
            j <= sorted@.len(),
            derefs(out@) == ranked_ids(graph, sorted@.subrange(0, j as int)),
        decreases sorted@.len() - j,
    {
        let pos = sorted[j].0;
        let ghost prev = out@;
        out.push(graph.symbols.key_at(pos));
        proof {
            assert(sorted@.subrange(0, j + 1) =~= sorted@.subrange(0, j as int).push(sorted@[j as int]));
            assert(derefs(out@) =~= derefs(prev).push(symbol_ids(graph)[pos as int]));
            assert(ranked_ids(graph, sorted@.subrange(0, j + 1)) =~= ranked_ids(graph, sorted@.subrange(0, j as int)).push(symbol_ids(graph)[pos as int]));
        }
        j = j + 1;
    }
    assert(sorted@.subrange(0, sorted@.len() as int) =~= sorted@);
    out
}

/// Symbols matching `name`: exact matches by descending centrality, or, when
/// there is none, names within Levenshtein distance two, closest first.
pub fn find_by_name<'g>(graph: &'g CodeGraph, name: &str) -> (r: Vec<&'g SymbolId>)
    requires
        graph.wf(),
    ensures
        derefs(r@) == ranked_ids(graph, name_ranking(graph, name@, name_distances(graph, name@))),
{
    let n = graph.symbols.len();
    let mut dist: Vec<usize> = Vec::new();
    let mut i: usize = 0;
    while i < n
        invariant
            graph.wf(),
            n == symbol_ids(graph).len(),
            i <= n,
            dist@ == name_distances(graph, name@).subrange(0, i as int),
        decreases n - i,
    {
        let id = graph.symbols.key_at(i);
        let d = levenshtein(id.name.as_str(), name);
        dist.push(d);
        i = i + 1;
        assert(dist@ =~= name_distances(graph, name@).subrange(0, i as int));
    }
    assert(dist@ =~= name_distances(graph, name@));
    rank_by_name(graph, name, &dist)
}

// ------------------------------------------------------------------
// The two edge tables mirror each other.
// ------------------------------------------------------------------

/// How many of `ids` are `k`.
pub open spec fn occurrences(ids: Seq<SymbolId>, k: IdV) -> nat
    decreases ids.len(),
{
    if ids.len() == 0 {
        0
    } else {
        occurrences(ids.drop_last(), k) + if ids.last()@ == k {
            1nat
        } else {
            0nat
        }
    }
}

/// Every call recorded one way is recorded the other way: `y` occurs among
/// the callees of `x` (what [`callees`] returns) as often as `x` occurs
/// among the callers of `y` (what [`callers`] returns). An empty graph
/// mirrors, and inserting a symbol or an edge keeps it so (see the
/// contracts of `CodeGraph::new`, `insert_symbol` and `insert_edge`);
/// removing a file does not, since callers elsewhere keep their edges.
pub open spec fn mirrored(g: &CodeGraph) -> bool {
    forall|x: IdV, y: IdV|
        #[trigger] occurrences(tos(edges_under(g.forward_edges@, x)), y) == #[trigger] occurrences(
            froms(edges_under(g.reverse_edges@, y)),
            x,
        )
}

/// An empty graph mirrors trivially.
pub proof fn lemma_empty_mirrored(g: &CodeGraph)
    requires
        g.forward_edges@ == Map::<IdV, Vec<Edge>>::empty(),
        g.reverse_edges@ == Map::<IdV, Vec<Edge>>::empty(),
    ensures
        mirrored(g),
{
    assert forall|x: IdV, y: IdV|
        #[trigger] occurrences(tos(edges_under(g.forward_edges@, x)), y) == #[trigger] occurrences(
            froms(edges_under(g.reverse_edges@, y)),
            x,
        ) by {
        assert(tos(edges_under(g.forward_edges@, x)) =~= Seq::<SymbolId>::empty());
        assert(froms(edges_under(g.reverse_edges@, y)) =~= Seq::<SymbolId>::empty());
    }
}

/// Inserting a symbol leaves the edge tables, and so their mirroring, alone.
pub proof fn lemma_insert_symbol_mirrored(a: &CodeGraph, sym: Symbol, b: &CodeGraph)
    requires
        mirrored(a),
        symbol_inserted(*a, sym, *b),
    ensures
        mirrored(b),
{
}

/// The edge list under `k` after `fwd` gained `e` under `at`.
proof fn lemma_under_after_push(a: Map<IdV, Vec<Edge>>, b: Map<IdV, Vec<Edge>>, at: IdV, e: Edge, k: IdV)
    requires
        seqs(b) == seqs(a).insert(at, edges_under(a, at).push(e)),
    ensures
        edges_under(b, k) == if k == at {
            edges_under(a, k).push(e)
        } else {
            edges_under(a, k)
        },
{
    assert(seqs(b).dom() == b.dom());
    assert(seqs(a).dom() == a.dom());
    if k == at {
        assert(seqs(b).dom().contains(k));
        assert(seqs(b)[k] == b[k]@);
    } else if b.dom().contains(k) {
        assert(seqs(b)[k] == b[k]@);
        assert(seqs(a)[k] == a[k]@);
    } else {
        assert(!seqs(a).dom().contains(k));
    }
}

/// Inserting an edge records it in both tables, so mirroring is kept.
pub proof fn lemma_insert_edge_mirrored(a: &CodeGraph, edge: Edge, b: &CodeGraph)
    requires
        mirrored(a),
        edge_inserted(*a, edge, *b),
    ensures
        mirrored(b),
{
    assert forall|x: IdV, y: IdV|
        #[trigger] occurrences(tos(edges_under(b.forward_edges@, x)), y) == #[trigger] occurrences(
            froms(edges_under(b.reverse_edges@, y)),
            x,
        ) by {
        lemma_under_after_push(a.forward_edges@, b.forward_edges@, edge.from@, edge, x);
        lemma_under_after_push(a.reverse_edges@, b.reverse_edges@, edge.to@, edge, y);
        let fa = edges_under(a.forward_edges@, x);
        let ra = edges_under(a.reverse_edges@, y);
        assert(occurrences(tos(fa), y) == occurrences(froms(ra), x));
        if x == edge.from@ {
            assert(tos(fa.push(edge)) =~= tos(fa).push(edge.to));
            assert(tos(fa.push(edge)).drop_last() =~= tos(fa));
        }
        if y == edge.to@ {
            assert(froms(ra.push(edge)) =~= froms(ra).push(edge.from));
            assert(froms(ra.push(edge)).drop_last() =~= froms(ra));
        }
    }
}

} // verus!
