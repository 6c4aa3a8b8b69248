//! Failure attribution: a failure whose location, or a frame of whose stack,
//! falls inside a symbol edited in this session gets a hint such as
//! `YOU MODIFIED X in FILE:LINE (N edits ago)` appended to its message.

use vstd::prelude::*;

use crate::graph::types::{CodeGraph, Symbol, SymbolId};
use crate::lexical::{sort_distinct, sorted_distinct};
use crate::runner::TestFailure;
use crate::search::hit::join_with;
use crate::search::structural::{file_ids, symbol_at, texts};
use crate::session::{edits_ago_in, SessionState};
use crate::strings::{chars_of, decimal, push_decimal, push_str, string_of};

verus! {

broadcast use vstd::string::group_string_axioms;

/// The locations a failure points at: its own, then each stack frame.
pub open spec fn failure_points(f: TestFailure) -> Seq<(Seq<char>, u32)> {
    seq![(f.file@, f.line)] + f.stack@.map_values(|p: (String, u32)| (p.0@, p.1))
}

/// The hint for an edited symbol.
pub open spec fn modified_text(id: SymbolId, s: Symbol, n: nat) -> Seq<char> {
    "YOU MODIFIED "@ + id.name@ + " in "@ + id.file@ + seq![':'] + decimal(s.line_start as nat) + " ("@
        + decimal(n) + " edits ago)"@
}

/// Hints for the edited symbols among `ids` whose lines span `line`.
pub open spec fn hints_among(
    graph: &CodeGraph,
    log: Seq<(Seq<char>, Seq<char>, crate::graph::types::SymbolKind)>,
    ids: Seq<SymbolId>,
    line: u32,
) -> Seq<Seq<char>>
    decreases ids.len(),
{
    if ids.len() == 0 {
        Seq::empty()
    } else {
        let prev = hints_among(graph, log, ids.drop_last(), line);
        let id = ids.last();
        if log.contains(id@) {
            match symbol_at(graph, id) {
                Some(s) => if s.line_start <= line && line <= s.line_end {
                    prev.push(
                        modified_text(
                            id,
                            s,
                            match edits_ago_in(log, id@) {
                                Some(n) => n,
                                None => 0,
                            },
                        ),
                    )
                } else {
                    prev
                },
                None => prev,
            }
        } else {
            prev
        }
    }
}

/// Hints for every location of `points`, in order.
pub open spec fn hints_for(
    graph: &CodeGraph,
    log: Seq<(Seq<char>, Seq<char>, crate::graph::types::SymbolKind)>,
    points: Seq<(Seq<char>, u32)>,
) -> Seq<Seq<char>>
    decreases points.len(),
{
    if points.len() == 0 {
        Seq::empty()
    } else {
        let (file, line) = points.last();
        hints_for(graph, log, points.drop_last()) + match file_ids(graph, file) {
            Some(ids) => hints_among(graph, log, ids, line),
            None => Seq::empty(),
        }
    }
}

/// The message of `f` after attribution: its distinct hints, sorted, are
/// appended after `". "`, separated by `". "`.
pub open spec fn annotated_message(
    graph: &CodeGraph,
    log: Seq<(Seq<char>, Seq<char>, crate::graph::types::SymbolKind)>,
    f: TestFailure,
) -> Seq<char> {
    let hs = sorted_distinct(hints_for(graph, log, failure_points(f)));
    if hs.len() > 0 {
        f.message@ + ". "@ + join_with(hs, ". "@)
    } else {
        f.message@
    }
}

/// The locations a failure view points at: its own, then each stack frame.
pub open spec fn view_points(f: crate::runner::FailureView) -> Seq<(Seq<char>, u32)> {
    seq![(f.file, f.line)] + f.stack
}

/// The message of the failure `f` after attribution.
pub open spec fn annotated_text(
    graph: &CodeGraph,
    log: Seq<(Seq<char>, Seq<char>, crate::graph::types::SymbolKind)>,
    f: crate::runner::FailureView,
) -> Seq<char> {
    let hs = sorted_distinct(hints_for(graph, log, view_points(f)));
    if hs.len() > 0 {
        f.message + ". "@ + join_with(hs, ". "@)
    } else {
        f.message
    }
}

/// Attribution reads a failure only through its view.
pub proof fn lemma_annotated_view(
    graph: &CodeGraph,
    log: Seq<(Seq<char>, Seq<char>, crate::graph::types::SymbolKind)>,
    f: TestFailure,
)
    ensures
        annotated_message(graph, log, f) == annotated_text(graph, log, f@),
{
    assert(failure_points(f) =~= view_points(f@));
}

/// Does `log` hold `id`?
fn logged(session: &SessionState, id: &SymbolId) -> (r: bool)
    ensures
        r == session.edit_log().contains(id@),
{
    let r = session.edits_ago(id);
    proof {
        crate::session::lemma_edits_ago_iff_edited(session.edit_log(), id@);
    }
    r.is_some()
}

/// Append the hints for location (`file`, `line`).
fn push_hints_at(graph: &CodeGraph, session: &SessionState, file: &String, line: u32, out: &mut Vec<Vec<char>>)
    requires
        graph.wf(),
    ensures
        texts(final(out)@) == texts(old(out)@) + match file_ids(graph, file@) {
            Some(ids) => hints_among(graph, session.edit_log(), ids, line),
            None => Seq::empty(),
        },
{
    let ghost log = session.edit_log();
    let ids = match graph.file_symbols.get(file) {
        Some(ids) => ids,
        None => {
            assert(texts(out@) =~= texts(old(out)@) + Seq::<Seq<char>>::empty());
            return;
        },
    };
    let mut i: usize = 0;
    assert(hints_among(graph, log, ids@.take(0), line) =~= Seq::<Seq<char>>::empty());
    assert(texts(out@) =~= texts(old(out)@) + Seq::<Seq<char>>::empty());
    while i < ids.len()
        invariant
            graph.wf(),
            log == session.edit_log(),
            i <= ids@.len(),
            texts(out@) == texts(old(out)@) + hints_among(graph, log, ids@.take(i as int), line),
        decreases ids@.len() - i,
    {
        let id = &ids[i];
        assert(ids@.take(i + 1).drop_last() =~= ids@.take(i as int));
        if logged(session, id) {
            match graph.symbols.get(id) {
                Some(sym) => {
                    if sym.line_start <= line && line <= sym.line_end {
                        let n = match session.edits_ago(id) {
                            Some(n) => n,
                            None => 0,
                        };
                        let mut t = String::new();
                        push_str(&mut t, "YOU MODIFIED ");
                        push_str(&mut t, id.name.as_str());
                        push_str(&mut t, " in ");
                        push_str(&mut t, id.file.as_str());
                        crate::strings::push_char(&mut t, ':');
                        push_decimal(&mut t, sym.line_start as u64);
                        push_str(&mut t, " (");
                        push_decimal(&mut t, n as u64);
                        push_str(&mut t, " edits ago)");
                        let ghost prev = out@;
                        out.push(chars_of(t.as_str()));
                        assert(texts(out@) =~= texts(prev).push(t@));
                        proof {
                            assert(symbol_at(graph, *id) == Some(*sym));
                            assert(t@ =~= modified_text(*id, *sym, n as nat));
                            assert(hints_among(graph, log, ids@.take(i + 1), line) == hints_among(graph, log, ids@.take(i as int), line).push(t@));
                            assert(texts(out@) =~= texts(old(out)@) + hints_among(graph, log, ids@.take(i + 1), line));
                        }
                    }
                },
                None => {},
            }
        }
        i = i + 1;
    }
    assert(ids@.take(ids@.len() as int) =~= ids@);
}

/// Append attribution hints to each failure's message; failures that point at
/// no edited symbol are left unchanged.
pub fn annotate_failures(graph: &CodeGraph, session: &SessionState, failures: Vec<TestFailure>) -> (r: Vec<TestFailure>)
    requires
        graph.wf(),
    ensures
        r@.len() == failures@.len(),
        forall|i: int| 0 <= i < r@.len() ==> {
            &&& (#[trigger] r@[i]).message@ == annotated_message(graph, session.edit_log(), failures@[i])
            &&& r@[i].test_name == failures@[i].test_name
            &&& r@[i].file == failures@[i].file
            &&& r@[i].line == failures@[i].line
            &&& r@[i].stack == failures@[i].stack
        },
{
    let ghost src = failures@;
    let mut input = failures;
    let mut out: Vec<TestFailure> = Vec::new();
    let n = input.len();
    let mut rev: Vec<TestFailure> = Vec::new();
    while input.len() > 0
        invariant
            rev@.len() + input@.len() == n,
            input@ == src.take(input@.len() as int),
            forall|k: int| 0 <= k < rev@.len() ==> rev@[k] == src[n - 1 - k],
            n == src.len(),
        decreases input@.len(),
    {
        let f = input.pop().unwrap();
        rev.push(f);
    }
    while rev.len() > 0
        invariant
            graph.wf(),
            out@.len() + rev@.len() == n,
            n == src.len(),
            forall|k: int| 0 <= k < rev@.len() ==> rev@[k] == src[n - 1 - k],
            forall|i: int| 0 <= i < out@.len() ==> {
                &&& (#[trigger] out@[i]).message@ == annotated_message(graph, session.edit_log(), src[i])
                &&& out@[i].test_name == src[i].test_name
                &&& out@[i].file == src[i].file
                &&& out@[i].line == src[i].line
                &&& out@[i].stack == src[i].stack
            },
        decreases rev@.len(),
    {
        let mut f = rev.pop().unwrap();
        let ghost orig = f;
        let ghost idx = out@.len() as int;
        assert(orig == src[idx]);
        let mut hints: Vec<Vec<char>> = Vec::new();
        assert(texts(hints@) =~= Seq::<Seq<char>>::empty());
        push_hints_at(graph, session, &f.file, f.line, &mut hints);
        let ghost pts = failure_points(orig);
        assert(pts.take(1) =~= seq![(orig.file@, orig.line)]);
        assert(texts(hints@) == hints_for(graph, session.edit_log(), pts.take(1))) by {
            assert(pts.take(1).drop_last() =~= Seq::<(Seq<char>, u32)>::empty());
            assert(pts.take(1).last() == (orig.file@, orig.line));
            assert(hints_for(graph, session.edit_log(), Seq::<(Seq<char>, u32)>::empty()) =~= Seq::<Seq<char>>::empty());
            let m = match file_ids(graph, orig.file@) {
                Some(ids) => hints_among(graph, session.edit_log(), ids, orig.line),
                None => Seq::empty(),
            };
            assert(texts(hints@) =~= Seq::<Seq<char>>::empty() + m);
            assert(hints_for(graph, session.edit_log(), pts.take(1)) =~= Seq::<Seq<char>>::empty() + m);
        }
        let mut j: usize = 0;
        while j < f.stack.len()
            invariant
                graph.wf(),
                f == orig,
                pts == failure_points(orig),
                j <= f.stack@.len(),
                texts(hints@) == hints_for(graph, session.edit_log(), pts.take(j + 1)),
            decreases f.stack@.len() - j,
        {
            let (sf, sl) = (&f.stack[j].0, f.stack[j].1);
            push_hints_at(graph, session, sf, sl, &mut hints);
            proof {
                assert(pts.take(j + 2).drop_last() =~= pts.take(j + 1));
                assert(pts.take(j + 2).last() == (sf@, sl));
            }
            j = j + 1;
        }
        assert(pts.take(f.stack@.len() + 1int) =~= pts);
        let sorted = sort_distinct(&hints);
        if sorted.len() > 0 {
            push_str(&mut f.message, ". ");
            let mut k: usize = 0;
            let ghost base = f.message@;
            while k < sorted.len()
                invariant
                    k <= sorted@.len(),
                    f.message@ == base + join_with(texts(sorted@).take(k as int), ". "@),
                    f.test_name == orig.test_name,
                    f.file == orig.file,
                    f.line == orig.line,
                    f.stack == orig.stack,
                decreases sorted@.len() - k,
            {
                let ghost before = f.message@;
                if k > 0 {
                    push_str(&mut f.message, ". ");
                }
                let s = string_of(&sorted[k]);
                push_str(&mut f.message, s.as_str());
                proof {
                    let ts = texts(sorted@);
                    assert(ts.take(k + 1).drop_last() =~= ts.take(k as int));
                    assert(ts[k as int] == sorted@[k as int]@);
                    if k > 0 {
                        assert(f.message@ =~= base + (join_with(ts.take(k as int), ". "@) + ". "@ + ts[k as int]));
                    } else {
                        assert(f.message@ =~= base + ts[k as int]);
                    }
                }
                k = k + 1;
            }
            assert(texts(sorted@).take(sorted@.len() as int) =~= texts(sorted@));
        }
        out.push(f);
    }
    out
}

proof fn lemma_no_log_no_hints_among(
    graph: &CodeGraph,
    ids: Seq<SymbolId>,
    line: u32,
)
    ensures
        hints_among(graph, Seq::empty(), ids, line).len() == 0,
    decreases ids.len(),
{
    if ids.len() > 0 {
        lemma_no_log_no_hints_among(graph, ids.drop_last(), line);
    }
}

proof fn lemma_no_log_no_hints(graph: &CodeGraph, points: Seq<(Seq<char>, u32)>)
    ensures
        hints_for(graph, Seq::empty(), points).len() == 0,
    decreases points.len(),
{
    if points.len() > 0 {
        lemma_no_log_no_hints(graph, points.drop_last());
        let (file, line) = points.last();
        match file_ids(graph, file) {
            Some(ids) => lemma_no_log_no_hints_among(graph, ids, line),
            None => {},
        }
    }
}

/// Before any edit is recorded, attribution leaves every failure message
/// as the runner reported it.
pub proof fn lemma_no_edits_no_attribution(graph: &CodeGraph, f: crate::runner::FailureView)
    ensures
        annotated_text(graph, Seq::empty(), f) == f.message,
{
    lemma_no_log_no_hints(graph, view_points(f));
    let hs = hints_for(graph, Seq::empty(), view_points(f));
    assert(hs =~= Seq::<Seq<char>>::empty());
    let e = Seq::<Seq<char>>::empty();
    assert(crate::lexical::strictly_sorted(e));
    assert(e.to_set() =~= hs.to_set());
    let d = sorted_distinct(hs);
    assert(d.to_set() == hs.to_set());
    if d.len() > 0 {
        assert(d.to_set().contains(d[0]));
    }
}

} // verus!
