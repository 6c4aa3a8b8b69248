//! The context bundled into `apply_change` responses: callers and tests of
//! the symbols an edit touched.

use vstd::prelude::*;

use crate::edit::request::BundledContext;
use crate::graph::types::{CodeGraph, Symbol};
use crate::lexical::{sort_distinct, sorted_distinct};
use crate::search::hit::{HitView, SearchHit};
use crate::search::structural::{
    callers_of_id, callers_of_id_view, first_n, nonhint, texts, views,
};
use crate::strings::{chars_of, decimal, push_decimal, push_str};

verus! {

broadcast use vstd::string::group_string_axioms;

/// Callers listed per changed symbol.
pub const PER_SYMBOL_CAP: usize = 5;

/// Callers listed in all.
pub const TOTAL_CAP: usize = 10;

/// A caller hit as a line: `file:line — signature`, or `file:line`.
pub open spec fn caller_line(h: HitView) -> Seq<char> {
    match h.signature {
        Some(sig) => h.file + seq![':'] + decimal(h.line as nat) + " — "@ + sig,
        None => h.file + seq![':'] + decimal(h.line as nat),
    }
}

/// Caller lines for the first `n` changed symbols, symbol by symbol.
pub open spec fn caller_lines(graph: &CodeGraph, changed: Seq<Symbol>, n: int) -> Seq<Seq<char>>
    decreases n,
{
    if n <= 0 {
        Seq::empty()
    } else {
        caller_lines(graph, changed, n - 1) + nonhint(
            callers_of_id_view(graph, changed[n - 1].id, PER_SYMBOL_CAP as int),
        ).map_values(|h: HitView| caller_line(h))
    }
}

/// The certain import edges stored under any module anchor of `file`,
/// as hits at the importing file, anchor by anchor in table order.
pub open spec fn file_importers(entries: Seq<(crate::graph::types::SymbolId, Vec<crate::graph::types::Edge>)>, file: Seq<char>) -> Seq<HitView>
    decreases entries.len(),
{
    if entries.len() == 0 {
        Seq::empty()
    } else {
        let prev = file_importers(entries.drop_last(), file);
        let (k, es) = entries.last();
        if k.file@ == file {
            prev + crate::search::structural::import_hits(es@, Seq::empty(), true)
        } else {
            prev
        }
    }
}

/// The test files among the importers of `file`, sorted, each once.
pub open spec fn test_files(graph: &CodeGraph, file: Seq<char>) -> Seq<Seq<char>> {
    sorted_distinct(
        crate::search::structural::test_hits(file_importers(graph.reverse_edges.entry_seq(), file)).map_values(
            |h: HitView| h.file,
        ),
    )
}

/// The line for one caller hit.
fn line_for(h: &SearchHit) -> (r: String)
    ensures
        r@ == caller_line(h@),
{
    let mut s = h.file.clone();
    crate::strings::push_char(&mut s, ':');
    push_decimal(&mut s, h.line as u64);
    match &h.signature {
        Some(sig) => {
            push_str(&mut s, " — ");
            push_str(&mut s, sig.as_str());
        },
        None => {},
    }
    s
}

/// Build the bundled context for the symbols `changed` in `file`: up to five
/// callers per symbol and ten in all (count headers are not callers), and the
/// test files that import `file` under any of its module anchors.
pub fn build(graph: &CodeGraph, file: &str, changed: &Vec<Symbol>) -> (r: BundledContext)
    requires
        graph.wf(),
    ensures
        texts_of(r.callers@) == first_n(caller_lines(graph, changed@, changed@.len() as int), TOTAL_CAP as int),
        texts_of(r.tests@) == test_files(graph, file@),
{
    let mut callers: Vec<String> = Vec::new();
    let mut i: usize = 0;
    while i < changed.len() && callers.len() < TOTAL_CAP
        invariant
            graph.wf(),
            i <= changed@.len(),
            callers@.len() <= TOTAL_CAP,
            callers@.len() < TOTAL_CAP ==> texts_of(callers@) == caller_lines(graph, changed@, i as int),
            callers@.len() == TOTAL_CAP ==> texts_of(callers@) == first_n(caller_lines(graph, changed@, i as int), TOTAL_CAP as int),
            callers@.len() == TOTAL_CAP ==> caller_lines(graph, changed@, i as int).len() >= TOTAL_CAP,
        decreases changed@.len() - i,
    {
        let hits = callers_of_id(graph, &changed[i].id, PER_SYMBOL_CAP);
        let ghost base = caller_lines(graph, changed@, i as int);
        let ghost add = nonhint(views(hits@)).map_values(|h: HitView| caller_line(h));
        let ghost before = texts_of(callers@);
        assert(before == base);
        let mut k: usize = 0;
        let mut taken: usize = 0;
        while k < hits.len() && callers.len() < TOTAL_CAP
            invariant
                k <= hits@.len(),
                callers@.len() <= TOTAL_CAP,
                taken == nonhint(views(hits@).take(k as int)).len(),
                texts_of(callers@) == base + nonhint(views(hits@).take(k as int)).map_values(|h: HitView| caller_line(h)),
            decreases hits@.len() - k,
        {
            proof {
                assert(views(hits@).take(k + 1) =~= views(hits@).take(k as int).push(hits@[k as int]@));
                crate::graph::types::reveal_filter_push(views(hits@).take(k as int), hits@[k as int]@, |h: HitView| !crate::search::hit::is_hint_view(h));
            }
            if !hits[k].is_hint() {
                let line = line_for(&hits[k]);
                let ghost prev = callers@;
                callers.push(line);
                assert(texts_of(callers@) =~= texts_of(prev).push(caller_line(hits@[k as int]@)));
                taken = taken + 1;
            }
            k = k + 1;
        }
        proof {
            let full = nonhint(views(hits@)).map_values(|h: HitView| caller_line(h));
            assert(views(hits@).take(hits@.len() as int) =~= views(hits@));
            assert(caller_lines(graph, changed@, i + 1) == base + full);
            if callers@.len() < TOTAL_CAP {
                assert(k == hits@.len());
                assert(texts_of(callers@) == base + full);
            } else {
                let part = nonhint(views(hits@).take(k as int)).map_values(|h: HitView| caller_line(h));
                assert(part.is_prefix_of(full)) by {
                    lemma_nonhint_prefix(views(hits@), k as int);
                }
                assert(texts_of(callers@) =~= (base + full).take(TOTAL_CAP as int));
            }
        }
        i = i + 1;
    }
    proof {
        if callers@.len() < TOTAL_CAP {
            assert(i == changed@.len());
        } else {
            lemma_caller_lines_prefix(graph, changed@, i as int, changed@.len() as int);
            let a = caller_lines(graph, changed@, i as int);
            let b = caller_lines(graph, changed@, changed@.len() as int);
            assert(b.take(TOTAL_CAP as int) =~= a.take(TOTAL_CAP as int));
        }
    }
    proof {
        reveal_strlit("");
    }
    let n = graph.reverse_edges.len();
    let mut all: Vec<SearchHit> = Vec::new();
    let mut e: usize = 0;
    while e < n
        invariant
            n == graph.reverse_edges.entry_seq().len(),
            e <= n,
            views(all@) == file_importers(graph.reverse_edges.entry_seq().take(e as int), file@),
        decreases n - e,
    {
        let k = graph.reverse_edges.key_at(e);
        let es = graph.reverse_edges.value_at(e);
        assert(graph.reverse_edges.entry_seq().take(e + 1).drop_last() =~= graph.reverse_edges.entry_seq().take(e as int));
        assert(graph.reverse_edges.entry_seq().take(e + 1).last() == graph.reverse_edges.entry_seq()[e as int]);
        let kf = k.file.clone();
        let ff = file.to_owned();
        if kf == ff {
            let more = crate::search::structural::collect_import_hits(es, "", true);
            proof {
                reveal_strlit("");
            }
            assert(""@ =~= Seq::<char>::empty());
            let ghost base = views(all@);
            let mut m: usize = 0;
            while m < more.len()
                invariant
                    m <= more@.len(),
                    views(all@) == base + views(more@).take(m as int),
                decreases more@.len() - m,
            {
                let ghost prev = all@;
                all.push(more[m].clone());
                assert(views(all@) =~= views(prev).push(more@[m as int]@));
                m = m + 1;
                assert(views(all@) =~= base + views(more@).take(m as int));
            }
            assert(views(more@).take(more@.len() as int) =~= views(more@));
        }
        e = e + 1;
    }
    assert(graph.reverse_edges.entry_seq().take(n as int) =~= graph.reverse_edges.entry_seq());
    let mut files: Vec<Vec<char>> = Vec::new();
    let mut t: usize = 0;
    while t < all.len()
        invariant
            t <= all@.len(),
            texts(files@) == crate::search::structural::test_hits(views(all@).take(t as int)).map_values(|h: HitView| h.file),
        decreases all@.len() - t,
    {
        proof {
            assert(views(all@).take(t + 1) =~= views(all@).take(t as int).push(all@[t as int]@));
            crate::graph::types::reveal_filter_push(views(all@).take(t as int), all@[t as int]@, |h: HitView| crate::paths::is_test_path(h.file));
        }
        if crate::paths::path_is_test(all[t].file.as_str()) {
            let ghost prev = files@;
            files.push(chars_of(all[t].file.as_str()));
            assert(texts(files@) =~= texts(prev).push(all@[t as int].file@));
        }
        t = t + 1;
    }
    assert(views(all@).take(all@.len() as int) =~= views(all@));
    let sorted = sort_distinct(&files);
    let mut tests: Vec<String> = Vec::new();
    let mut u: usize = 0;
    while u < sorted.len()
        invariant
            u <= sorted@.len(),
            texts_of(tests@) == texts(sorted@).take(u as int),
        decreases sorted@.len() - u,
    {
        let ghost prev = tests@;
        tests.push(crate::strings::string_of(&sorted[u]));
        assert(texts_of(tests@) =~= texts_of(prev).push(sorted@[u as int]@));
        u = u + 1;
        assert(texts_of(tests@) =~= texts(sorted@).take(u as int));
    }
    assert(texts(sorted@).take(sorted@.len() as int) =~= texts(sorted@));
    assert(texts(sorted@) =~= sorted@.map_values(|v: Vec<char>| v@));
    assert(texts(files@) =~= files@.map_values(|v: Vec<char>| v@));
    assert(texts(sorted@) == sorted_distinct(texts(files@)));
    assert(texts_of(tests@) == texts(sorted@));
    BundledContext { callers, tests }
}

/// The texts of a list of strings.
pub open spec fn texts_of(v: Seq<String>) -> Seq<Seq<char>> {
    v.map_values(|s: String| s@)
}

proof fn lemma_nonhint_prefix(hs: Seq<HitView>, k: int)
    requires
        0 <= k <= hs.len(),
    ensures
        nonhint(hs.take(k)).map_values(|h: HitView| caller_line(h)).is_prefix_of(
            nonhint(hs).map_values(|h: HitView| caller_line(h)),
        ),
    decreases hs.len() - k,
{
    if k < hs.len() {
        lemma_nonhint_prefix(hs, k + 1);
        assert(hs.take(k + 1) =~= hs.take(k).push(hs[k]));
        crate::graph::types::reveal_filter_push(hs.take(k), hs[k], |h: HitView| !crate::search::hit::is_hint_view(h));
    } else {
        assert(hs.take(k) =~= hs);
    }
}

proof fn lemma_caller_lines_prefix(graph: &CodeGraph, changed: Seq<Symbol>, i: int, n: int)
    requires
        0 <= i <= n,
    ensures
        caller_lines(graph, changed, i).is_prefix_of(caller_lines(graph, changed, n)),
    decreases n - i,
{
    if i < n {
        lemma_caller_lines_prefix(graph, changed, i, n - 1);
    }
}

} // verus!
