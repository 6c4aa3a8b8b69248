//! The `blastguard://status` resource: a compact project overview with the
//! graph's size, its languages, the session's edits and the last test run.

use vstd::prelude::*;

use crate::graph::types::CodeGraph;
use crate::lexical::{sort_distinct, sorted_distinct};
use crate::paths::{extension, path_extension};
use crate::search::hit::join_with;
use crate::search::structural::texts;
use crate::session::SessionState;
use crate::strings::{chars_of, decimal, push_decimal, push_str};

verus! {

broadcast use vstd::string::group_string_axioms;

/// Total number of stored forward edges.
pub open spec fn edge_total(lists: Seq<(crate::graph::types::SymbolId, Vec<crate::graph::types::Edge>)>) -> nat
    decreases lists.len(),
{
    if lists.len() == 0 {
        0
    } else {
        edge_total(lists.drop_last()) + lists.last().1@.len()
    }
}

/// The extensions of the symbol files, in table order.
pub open spec fn key_extensions(keys: Seq<(crate::graph::types::SymbolId, crate::graph::types::Symbol)>) -> Seq<Seq<char>>
    decreases keys.len(),
{
    if keys.len() == 0 {
        Seq::empty()
    } else {
        let prev = key_extensions(keys.drop_last());
        match extension(keys.last().0.file@) {
            Some(e) => prev.push(e),
            None => prev,
        }
    }
}

/// The summary of the last test run.
pub open spec fn test_summary(s: &SessionState) -> Seq<char> {
    match s.last_results() {
        Some(r) => decimal(r.passed as nat) + " passed, "@ + decimal(r.failed as nat) + " failed, "@
            + decimal(r.skipped as nat) + " skipped ("@ + decimal(r.duration_ms as nat) + " ms)"@,
        None => "no test run yet"@,
    }
}

/// The status block.
pub open spec fn status_text(graph: &CodeGraph, session: &SessionState, root: Seq<char>) -> Seq<char> {
    let langs = join_with(sorted_distinct(key_extensions(graph.symbols.entry_seq())), ", "@);
    let lang_line = if langs.len() == 0 {
        "languages: (none — index empty)"@
    } else {
        "languages: "@ + langs
    };
    "BlastGuard status\nproject: "@ + root + "\nsymbols: "@ + decimal(graph.symbols.entry_seq().len())
        + "  edges: "@ + decimal(edge_total(graph.forward_edges.entry_seq())) + seq!['\n'] + lang_line
        + "\nsession edits: "@ + decimal(session.edit_log().len()) + "\nlast test run: "@ + test_summary(session)
        + seq!['\n']
}

/// Render the status block for the `blastguard://status` resource.
pub fn render(graph: &CodeGraph, session: &SessionState, project_root: &str) -> (r: String)
    requires
        edge_total(graph.forward_edges.entry_seq()) <= u64::MAX,
    ensures
        r@ == status_text(graph, session, project_root@),
{
    let n_syms = graph.symbols.len();
    let n_lists = graph.forward_edges.len();
    let mut edges: u64 = 0;
    let mut i: usize = 0;
    proof {
        lemma_edge_total_mono(graph.forward_edges.entry_seq(), 0, n_lists as int);
    }
    while i < n_lists
        invariant
            n_lists == graph.forward_edges.entry_seq().len(),
            i <= n_lists,
            edges == edge_total(graph.forward_edges.entry_seq().take(i as int)),
            edge_total(graph.forward_edges.entry_seq()) <= u64::MAX,
        decreases n_lists - i,
    {
        let es = graph.forward_edges.value_at(i);
        proof {
            let all = graph.forward_edges.entry_seq();
            assert(all.take(i + 1).drop_last() =~= all.take(i as int));
            lemma_edge_total_mono(all, i + 1, n_lists as int);
            assert(all.take(n_lists as int) =~= all);
        }
        edges = edges + es.len() as u64;
        i = i + 1;
    }
    assert(graph.forward_edges.entry_seq().take(n_lists as int) =~= graph.forward_edges.entry_seq());
    let mut exts: Vec<Vec<char>> = Vec::new();
    let mut k: usize = 0;
    while k < n_syms
        invariant
            n_syms == graph.symbols.entry_seq().len(),
            k <= n_syms,
            texts(exts@) == key_extensions(graph.symbols.entry_seq().take(k as int)),
        decreases n_syms - k,
    {
        let key = graph.symbols.key_at(k);
        assert(graph.symbols.entry_seq().take(k + 1).drop_last() =~= graph.symbols.entry_seq().take(k as int));
        match path_extension(key.file.as_str()) {
            Some(e) => {
                let ghost prev = exts@;
                exts.push(chars_of(e.as_str()));
                assert(texts(exts@) =~= texts(prev).push(e@));
            },
            None => {},
        }
        k = k + 1;
    }
    assert(graph.symbols.entry_seq().take(n_syms as int) =~= graph.symbols.entry_seq());
    let langs = sort_distinct(&exts);
    assert(texts(langs@) =~= langs@.map_values(|v: Vec<char>| v@));
    assert(texts(exts@) =~= exts@.map_values(|v: Vec<char>| v@));
    let mut lang_text = String::new();
    let mut j: usize = 0;
    while j < langs.len()
        invariant
            j <= langs@.len(),
            lang_text@ == join_with(texts(langs@).take(j as int), ", "@),
        decreases langs@.len() - j,
    {
        let ghost before = lang_text@;
        if j > 0 {
            push_str(&mut lang_text, ", ");
        }
        let s = crate::strings::string_of(&langs[j]);
        push_str(&mut lang_text, s.as_str());
        proof {
            let ts = texts(langs@);
            assert(ts.take(j + 1).drop_last() =~= ts.take(j as int));
            assert(ts[j as int] == langs@[j as int]@);
            if j == 0 {
                assert(lang_text@ =~= ts[0]);
            }
        }
        j = j + 1;
    }
    assert(texts(langs@).take(langs@.len() as int) =~= texts(langs@));
    let mut out = String::new();
    push_str(&mut out, "BlastGuard status\nproject: ");
    push_str(&mut out, project_root);
    push_str(&mut out, "\nsymbols: ");
    push_decimal(&mut out, n_syms as u64);
    push_str(&mut out, "  edges: ");
    push_decimal(&mut out, edges);
    crate::strings::push_char(&mut out, '\n');
    let lc = chars_of(lang_text.as_str());
    if lc.len() == 0 {
        push_str(&mut out, "languages: (none — index empty)");
    } else {
        push_str(&mut out, "languages: ");
        push_str(&mut out, lang_text.as_str());
    }
    push_str(&mut out, "\nsession edits: ");
    let ms = session.modified_symbols();
    let edits = ms.len();
    assert(ms@.map_values(|e: (crate::graph::types::SymbolId, std::time::Instant)| e.0@).len() == edits);
    push_decimal(&mut out, edits as u64);
    push_str(&mut out, "\nlast test run: ");
    match session.last_test_results() {
        Some(r) => {
            push_decimal(&mut out, r.passed as u64);
            push_str(&mut out, " passed, ");
            push_decimal(&mut out, r.failed as u64);
            push_str(&mut out, " failed, ");
            push_decimal(&mut out, r.skipped as u64);
            push_str(&mut out, " skipped (");
            push_decimal(&mut out, r.duration_ms);
            push_str(&mut out, " ms)");
        },
        None => {
            push_str(&mut out, "no test run yet");
        },
    }
    crate::strings::push_char(&mut out, '\n');
    out
}

proof fn lemma_edge_total_mono(lists: Seq<(crate::graph::types::SymbolId, Vec<crate::graph::types::Edge>)>, i: int, n: int)
    requires
        0 <= i <= n <= lists.len(),
    ensures
        edge_total(lists.take(i)) <= edge_total(lists.take(n)),
    decreases n - i,
{
    if i < n {
        lemma_edge_total_mono(lists, i, n - 1);
        assert(lists.take(n).drop_last() =~= lists.take(n - 1));
    }
}

} // verus!
