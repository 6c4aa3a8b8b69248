//! Query classifier: turns a search query into a [`QueryKind`].
//!
//! Each structural form is a keyword prefix, whitespace, and an argument
//! running to the end of the query on one line (`\s` is the Unicode
//! `White_Space` property, an argument never holds a line break). Where a
//! form admits several splits, the one chosen is the one a backtracking
//! matcher finds first: the longest whitespace run after the keyword, then
//! the shortest lazy argument. Anything else is a grep pattern.

use vstd::prelude::*;

use crate::strings::{char_is_ws, chars_of, is_ws, string_of_range, trim, trim_string};

verus! {

broadcast use vstd::string::group_string_axioms;

/// Parsed query kind. The dispatcher routes on this enum.
#[derive(Debug, PartialEq, Eq)]
pub enum QueryKind {
    /// `callers of X` / `what calls X`.
    Callers(String),
    /// `callees of X` / `what does X call`.
    Callees(String),
    /// `outline of FILE`.
    Outline(String),
    /// `chain from X to Y`.
    Chain(String, String),
    /// `find X` / `where is X`.
    Find(String),
    /// `tests for FILE` or `tests for X`.
    TestsFor(String),
    /// `imports of FILE`.
    ImportsOf(String),
    /// `importers of FILE`.
    ImportersOf(String),
    /// `exports of FILE`.
    ExportsOf(String),
    /// `libraries`.
    Libraries,
    /// Fallback: the whole (trimmed) query as a grep pattern.
    Grep(String),
}

/// Abstract value of a [`QueryKind`].
pub enum QueryView {
    Callers(Seq<char>),
    Callees(Seq<char>),
    Outline(Seq<char>),
    Chain(Seq<char>, Seq<char>),
    Find(Seq<char>),
    TestsFor(Seq<char>),
    ImportsOf(Seq<char>),
    ImportersOf(Seq<char>),
    ExportsOf(Seq<char>),
    Libraries,
    Grep(Seq<char>),
}

impl View for QueryKind {
    type V = QueryView;

    open spec fn view(&self) -> QueryView {
        match self {
            QueryKind::Callers(s) => QueryView::Callers(s@),
            QueryKind::Callees(s) => QueryView::Callees(s@),
            QueryKind::Outline(s) => QueryView::Outline(s@),
            QueryKind::Chain(a, b) => QueryView::Chain(a@, b@),
            QueryKind::Find(s) => QueryView::Find(s@),
            QueryKind::TestsFor(s) => QueryView::TestsFor(s@),
            QueryKind::ImportsOf(s) => QueryView::ImportsOf(s@),
            QueryKind::ImportersOf(s) => QueryView::ImportersOf(s@),
            QueryKind::ExportsOf(s) => QueryView::ExportsOf(s@),
            QueryKind::Libraries => QueryView::Libraries,
            QueryKind::Grep(s) => QueryView::Grep(s@),
        }
    }
}

/// The first `w` characters of `s` are whitespace.
pub open spec fn ws_prefix(s: Seq<char>, w: int) -> bool {
    forall|k: int| 0 <= k < w ==> is_ws(#[trigger] s[k])
}

/// `s` holds no line break.
pub open spec fn one_line(s: Seq<char>) -> bool {
    forall|k: int| 0 <= k < s.len() ==> #[trigger] s[k] != '\n'
}

/// `\s+(.+)$` matches `v` with `w` characters of whitespace.
pub open spec fn tail_split(v: Seq<char>, w: int) -> bool {
    1 <= w < v.len() && ws_prefix(v, w) && one_line(v.skip(w))
}

/// The argument `\s+(.+)$` captures from `v`: after the longest whitespace run that works.
pub open spec fn greedy_tail(v: Seq<char>) -> Option<Seq<char>> {
    if exists|w: int| tail_split(v, w) {
        let w = choose|w: int| tail_split(v, w) && forall|w2: int| w < w2 && tail_split(v, w2) ==> false;
        Some(v.skip(w))
    } else {
        None
    }
}

/// The trimmed argument of `^P\s+(.+)$` on `q`.
pub open spec fn keyword_arg(q: Seq<char>, p: Seq<char>) -> Option<Seq<char>> {
    if p.is_prefix_of(q) {
        match greedy_tail(q.skip(p.len() as int)) {
            Some(x) => Some(trim(x)),
            None => None,
        }
    } else {
        None
    }
}

/// `v` is whitespace, then `call`, and nothing more.
pub open spec fn ws_call(v: Seq<char>) -> bool {
    v.len() >= 5 && "call"@.is_suffix_of(v) && ws_prefix(v, v.len() - 4)
}

/// `\s+(.+?)\s+call$` matches `v` with `w` characters of whitespace and the argument ending at `e`.
pub open spec fn call_split(v: Seq<char>, w: int, e: int) -> bool {
    1 <= w < e <= v.len() && ws_prefix(v, w) && one_line(v.subrange(w, e)) && ws_call(v.skip(e))
}

/// The `call` split a backtracking matcher takes: the longest whitespace run, then the shortest argument.
pub open spec fn first_call_split(v: Seq<char>) -> (int, int) {
    choose|w: int, e: int| #[trigger] call_split(v, w, e)
        && (forall|w2: int, e2: int| w < w2 && #[trigger] call_split(v, w2, e2) ==> false)
        && (forall|e2: int| e2 < e && #[trigger] call_split(v, w, e2) ==> false)
}

/// The trimmed argument of `^what does\s+(.+?)\s+call$` on `q`.
pub open spec fn what_does_arg(q: Seq<char>) -> Option<Seq<char>> {
    let v = q.skip(9);
    if "what does"@.is_prefix_of(q) && exists|w: int, e: int| call_split(v, w, e) {
        let (w, e) = first_call_split(v);
        Some(trim(v.subrange(w, e)))
    } else {
        None
    }
}

/// What `\s+to\s+(.+)$` captures from `u`, if it matches.
pub open spec fn to_tail(u: Seq<char>) -> Option<Seq<char>> {
    if exists|r: int| 1 <= r && r + 2 <= u.len() && ws_prefix(u, r) && "to"@ == u.subrange(r, r + 2) {
        let r = choose|r: int| 1 <= r && r + 2 <= u.len() && ws_prefix(u, r) && "to"@ == u.subrange(r, r + 2);
        greedy_tail(u.skip(r + 2))
    } else {
        None
    }
}

/// `\s+(.+?)\s+to\s+(.+)$` matches `v` with `w` characters of whitespace and the first argument ending at `e`.
pub open spec fn chain_split(v: Seq<char>, w: int, e: int) -> bool {
    1 <= w < e <= v.len() && ws_prefix(v, w) && one_line(v.subrange(w, e)) && to_tail(v.skip(e)) is Some
}

/// The `chain` split a backtracking matcher takes: the longest whitespace run, then the shortest first argument.
pub open spec fn first_chain_split(v: Seq<char>) -> (int, int) {
    choose|w: int, e: int| #[trigger] chain_split(v, w, e)
        && (forall|w2: int, e2: int| w < w2 && #[trigger] chain_split(v, w2, e2) ==> false)
        && (forall|e2: int| e2 < e && #[trigger] chain_split(v, w, e2) ==> false)
}

/// The trimmed arguments of `^chain from\s+(.+?)\s+to\s+(.+)$` on `q`.
pub open spec fn chain_args(q: Seq<char>) -> Option<(Seq<char>, Seq<char>)> {
    let v = q.skip(10);
    if "chain from"@.is_prefix_of(q) && exists|w: int, e: int| chain_split(v, w, e) {
        let (w, e) = first_chain_split(v);
        Some((trim(v.subrange(w, e)), trim(to_tail(v.skip(e))->0)))
    } else {
        None
    }
}

/// The classification of a query with surrounding whitespace removed.
pub open spec fn classify_trimmed(q: Seq<char>) -> QueryView {
    if keyword_arg(q, "callers of"@) is Some {
        QueryView::Callers(keyword_arg(q, "callers of"@)->0)
    } else if keyword_arg(q, "what calls"@) is Some {
        QueryView::Callers(keyword_arg(q, "what calls"@)->0)
    } else if keyword_arg(q, "callees of"@) is Some {
        QueryView::Callees(keyword_arg(q, "callees of"@)->0)
    } else if what_does_arg(q) is Some {
        QueryView::Callees(what_does_arg(q)->0)
    } else if keyword_arg(q, "outline of"@) is Some {
        QueryView::Outline(keyword_arg(q, "outline of"@)->0)
    } else if chain_args(q) is Some {
        let (a, b) = chain_args(q)->0;
        QueryView::Chain(a, b)
    } else if keyword_arg(q, "find"@) is Some {
        QueryView::Find(keyword_arg(q, "find"@)->0)
    } else if keyword_arg(q, "where is"@) is Some {
        QueryView::Find(keyword_arg(q, "where is"@)->0)
    } else if keyword_arg(q, "tests for"@) is Some {
        QueryView::TestsFor(keyword_arg(q, "tests for"@)->0)
    } else if keyword_arg(q, "imports of"@) is Some {
        QueryView::ImportsOf(keyword_arg(q, "imports of"@)->0)
    } else if keyword_arg(q, "importers of"@) is Some {
        QueryView::ImportersOf(keyword_arg(q, "importers of"@)->0)
    } else if keyword_arg(q, "exports of"@) is Some {
        QueryView::ExportsOf(keyword_arg(q, "exports of"@)->0)
    } else if q == "libraries"@ {
        QueryView::Libraries
    } else {
        QueryView::Grep(q)
    }
}

/// Length of the run of whitespace at the start of `cs[from..]`.
fn ws_run(cs: &Vec<char>, from: usize) -> (r: usize)
    requires
        from <= cs@.len(),
    ensures
        from + r <= cs@.len(),
        ws_prefix(cs@.skip(from as int), r as int),
        from + r == cs@.len() || !is_ws(cs@[from + r]),
{
    let mut i = from;
    while i < cs.len() && char_is_ws(cs[i])
        invariant
            from <= i <= cs@.len(),
            ws_prefix(cs@.skip(from as int), i - from),
        decreases cs@.len() - i,
    {
        i = i + 1;
    }
    i - from
}

proof fn lemma_ws_bound(v: Seq<char>, r: int, w: int)
    requires
        0 <= r <= v.len(),
        r == v.len() || !is_ws(v[r]),
        ws_prefix(v, w),
        w <= v.len(),
    ensures
        w <= r,
{
    if w > r {
        assert(is_ws(v[r]));
    }
}

/// Does `cs[from..to]` hold a line break?
fn has_newline(cs: &Vec<char>, from: usize, to: usize) -> (r: bool)
    requires
        from <= to <= cs@.len(),
    ensures
        r == !one_line(cs@.subrange(from as int, to as int)),
{
    let mut i = from;
    while i < to
        invariant
            from <= i <= to <= cs@.len(),
            one_line(cs@.subrange(from as int, i as int)),
        decreases to - i,
    {
        if cs[i] == '\n' {
            assert(cs@.subrange(from as int, to as int)[i - from] == '\n');
            return true;
        }
        i = i + 1;
        assert forall|k: int| 0 <= k < i - from implies #[trigger] cs@.subrange(from as int, i as int)[k] != '\n' by {
            if k < i - 1 - from {
                assert(cs@.subrange(from as int, i as int)[k] == cs@.subrange(from as int, i - 1)[k]);
            }
        }
    }
    false
}

/// Where the argument of `\s+(.+)$` starts in `cs[from..]`, if it matches.
fn greedy_tail_start(cs: &Vec<char>, from: usize) -> (r: Option<usize>)
    requires
        from <= cs@.len(),
    ensures
        match r {
            Some(s) => from < s <= cs@.len() && greedy_tail(cs@.skip(from as int)) == Some(cs@.skip(s as int)),
            None => greedy_tail(cs@.skip(from as int)) is None,
        },
{
    let ghost v = cs@.skip(from as int);
    let n = cs.len();
    let run = ws_run(cs, from);
    let mut w = run;
    proof {
        assert forall|w2: int| w < w2 && tail_split(v, w2) implies false by {
            lemma_ws_bound(v, run as int, w2);
        }
    }
    while w >= 1
        invariant
            n == cs@.len(),
            v == cs@.skip(from as int),
            from + run <= cs@.len(),
            from + run == cs@.len() || !is_ws(cs@[from + run]),
            ws_prefix(v, run as int),
            w <= run,
            forall|w2: int| w < w2 && tail_split(v, w2) ==> false,
        decreases w,
    {
        if from + w < n && !has_newline(cs, from + w, n) {
            proof {
                assert(v.skip(w as int) =~= cs@.subrange(from + w, cs@.len() as int));
                assert(ws_prefix(v, w as int));
                assert(tail_split(v, w as int));
                let c = choose|c: int| tail_split(v, c) && forall|w2: int| c < w2 && tail_split(v, w2) ==> false;
                assert(c == w);
                assert(v.skip(w as int) =~= cs@.skip(from + w));
            }
            return Some(from + w);
        }
        proof {
            assert(v.skip(w as int) =~= cs@.subrange(from + w, cs@.len() as int));
            assert(!tail_split(v, w as int));
        }
        w = w - 1;
    }
    proof {
        if exists|c: int| tail_split(v, c) {
            let c = choose|c: int| tail_split(v, c);
            assert(c <= 0);
        }
    }
    None
}

/// The trimmed argument of `^P\s+(.+)$` on `q`.
fn keyword_argument(q: &Vec<char>, p: &str) -> (r: Option<String>)
    ensures
        match r {
            Some(s) => keyword_arg(q@, p@) == Some(s@),
            None => keyword_arg(q@, p@) is None,
        },
{
    let ps = chars_of(p);
    if !crate::strings::starts_with_chars(q, &ps) {
        return None;
    }
    match greedy_tail_start(q, ps.len()) {
        Some(s) => {
            let x = string_of_range(q, s, q.len());
            assert(x@ == q@.skip(s as int));
            Some(trim_string(x.as_str()))
        },
        None => None,
    }
}

/// Is `cs[from..]` whitespace followed by exactly `call`?
fn is_ws_call(cs: &Vec<char>, from: usize) -> (r: bool)
    requires
        from <= cs@.len(),
    ensures
        r == ws_call(cs@.skip(from as int)),
{
    let n = cs.len();
    proof {
        reveal_strlit("call");
    }
    if n - from < 5 {
        return false;
    }
    let call = chars_of("call");
    let tail_ok = crate::strings::matches_at(cs, &call, n - 4);
    let run = ws_run(cs, from);
    let ghost v = cs@.skip(from as int);
    proof {
        assert(cs@.subrange(n - 4, n as int) =~= v.subrange(v.len() - 4, v.len() as int));
        if tail_ok {
            assert(v.subrange(v.len() - 4, v.len() as int) =~= "call"@);
        }
        if "call"@.is_suffix_of(v) {
            assert(v.subrange(v.len() - 4, v.len() as int) =~= "call"@);
        }
        if ws_prefix(v, v.len() - 4) {
            lemma_ws_bound(v, run as int, v.len() - 4);
        }
        if run >= n - from - 4 {
            assert forall|k: int| 0 <= k < v.len() - 4 implies is_ws(#[trigger] v[k]) by {
                assert(v[k] == cs@.skip(from as int)[k]);
            }
        }
    }
    tail_ok && run >= n - from - 4
}

/// The trimmed argument of `^what does\s+(.+?)\s+call$` on `q`.
fn what_does_argument(q: &Vec<char>) -> (r: Option<String>)
    ensures
        match r {
            Some(s) => what_does_arg(q@) == Some(s@),
            None => what_does_arg(q@) is None,
        },
{
    proof {
        reveal_strlit("what does");
    }
    let kw = chars_of("what does");
    if !crate::strings::starts_with_chars(q, &kw) {
        return None;
    }
    let ghost v = q@.skip(9);
    let n = q.len();
    let run = ws_run(q, 9);
    let mut w = run;
    proof {
        assert forall|w2: int, e2: int| w < w2 && call_split(v, w2, e2) implies false by {
            lemma_ws_bound(v, run as int, w2);
        }
    }
    while w >= 1
        invariant
            v == q@.skip(9),
            "what does"@.is_prefix_of(q@),
            n == q@.len(),
            9 <= n,
            9 + run <= n,
            9 + run == n || !is_ws(q@[9 + run]),
            ws_prefix(v, run as int),
            w <= run,
            forall|w2: int, e2: int| w < w2 && call_split(v, w2, e2) ==> false,
        decreases w,
    {
        let mut e = w + 1;
        while e <= n - 9 && !has_newline(q, 9 + w, 9 + e)
            invariant
                v == q@.skip(9),
                "what does"@.is_prefix_of(q@),
                n == q@.len(),
                1 <= w <= run,
                9 + run <= n,
                w < e,
                ws_prefix(v, run as int),
                forall|w2: int, e2: int| w < w2 && call_split(v, w2, e2) ==> false,
                forall|e2: int| e2 < e && call_split(v, w as int, e2) ==> false,
            decreases n + 1 - e,
        {
            proof {
                assert(v.subrange(w as int, e as int) =~= q@.subrange(9 + w, 9 + e));
                assert(9 <= n);
                assert(v.skip(e as int) =~= q@.skip(9 + e));
            }
            if is_ws_call(q, 9 + e) {
                proof {
                    assert(ws_prefix(v, w as int));
                    assert(call_split(v, w as int, e as int));
                    let (a, b) = first_call_split(v);
                    assert(call_split(v, a, b));
                    if a < w {
                    }
                    assert(a == w);
                    if b > e {
                    }
                    assert(b == e);
                }
                let x = string_of_range(q, 9 + w, 9 + e);
                return Some(trim_string(x.as_str()));
            }
            e = e + 1;
        }
        proof {
            assert forall|e2: int| call_split(v, w as int, e2) implies false by {
                if e2 >= e {
                    if e <= n - 9 {
                        assert(v.subrange(w as int, e as int) =~= q@.subrange(9 + w, 9 + e));
                        let k = choose|k: int| 0 <= k < e - w && #[trigger] v.subrange(w as int, e as int)[k] == '\n';
                        assert(v.subrange(w as int, e2)[k] == '\n');
                    }
                }
            }
        }
        w = w - 1;
    }
    proof {
        assert forall|a: int, b: int| call_split(v, a, b) implies false by {
            lemma_ws_bound(v, run as int, a);
        }
    }
    None
}

/// Where the argument of `\s+to\s+(.+)$` starts in `cs[from..]`, if it matches.
fn to_tail_start(cs: &Vec<char>, from: usize) -> (r: Option<usize>)
    requires
        from <= cs@.len(),
    ensures
        match r {
            Some(s) => from < s <= cs@.len() && to_tail(cs@.skip(from as int)) == Some(cs@.skip(s as int)),
            None => to_tail(cs@.skip(from as int)) is None,
        },
{
    proof {
        reveal_strlit("to");
    }
    let ghost u = cs@.skip(from as int);
    let n = cs.len();
    let run = ws_run(cs, from);
    let to = chars_of("to");
    if run == 0 || !crate::strings::matches_at(cs, &to, from + run) {
        proof {
            if exists|r: int| 1 <= r && r + 2 <= u.len() && ws_prefix(u, r) && "to"@ == u.subrange(r, r + 2) {
                let r = choose|r: int| 1 <= r && r + 2 <= u.len() && ws_prefix(u, r) && "to"@ == u.subrange(r, r + 2);
                lemma_ws_bound(u, run as int, r);
                if r < run {
                    assert(u.subrange(r, r + 2)[0] == 't');
                    assert(is_ws(u[r]));
                    assert(!is_ws('t'));
                }
                assert(cs@.subrange(from + run, from + run + 2) =~= u.subrange(r, r + 2));
            }
        }
        return None;
    }
    proof {
        assert(cs@.subrange(from + run, from + run + 2) =~= u.subrange(run as int, run + 2));
        let r = choose|r: int| 1 <= r && r + 2 <= u.len() && ws_prefix(u, r) && "to"@ == u.subrange(r, r + 2);
        lemma_ws_bound(u, run as int, r);
        if r < run {
            assert(u.subrange(r, r + 2)[0] == 't');
            assert(is_ws(u[r]));
            assert(!is_ws('t'));
        }
        assert(r == run);
        assert(u.skip(run + 2) =~= cs@.skip(from + run + 2));
    }
    greedy_tail_start(cs, from + run + 2)
}

/// The trimmed arguments of `^chain from\s+(.+?)\s+to\s+(.+)$` on `q`.
#[verifier::rlimit(40)]
fn chain_arguments(q: &Vec<char>) -> (r: Option<(String, String)>)
    ensures
        match r {
            Some((a, b)) => chain_args(q@) == Some((a@, b@)),
            None => chain_args(q@) is None,
        },
{
    proof {
        reveal_strlit("chain from");
    }
    let kw = chars_of("chain from");
    if !crate::strings::starts_with_chars(q, &kw) {
        return None;
    }
    let ghost v = q@.skip(10);
    let n = q.len();
    let run = ws_run(q, 10);
    let mut w = run;
    proof {
        assert forall|w2: int, e2: int| w < w2 && chain_split(v, w2, e2) implies false by {
            lemma_ws_bound(v, run as int, w2);
        }
    }
    while w >= 1
        invariant
            v == q@.skip(10),
            "chain from"@.is_prefix_of(q@),
            n == q@.len(),
            10 <= n,
            10 + run <= n,
            10 + run == n || !is_ws(q@[10 + run]),
            ws_prefix(v, run as int),
            w <= run,
            forall|w2: int, e2: int| w < w2 && chain_split(v, w2, e2) ==> false,
        decreases w,
    {
        let mut e = w + 1;
        while e <= n - 10 && !has_newline(q, 10 + w, 10 + e)
            invariant
                v == q@.skip(10),
                "chain from"@.is_prefix_of(q@),
                n == q@.len(),
                1 <= w <= run,
                10 + run <= n,
                w < e,
                ws_prefix(v, run as int),
                forall|w2: int, e2: int| w < w2 && chain_split(v, w2, e2) ==> false,
                forall|e2: int| e2 < e && chain_split(v, w as int, e2) ==> false,
            decreases n + 1 - e,
        {
            proof {
                assert(v.subrange(w as int, e as int) =~= q@.subrange(10 + w, 10 + e));
                assert(v.skip(e as int) =~= q@.skip(10 + e));
            }
            match to_tail_start(q, 10 + e) {
                Some(s) => {
                    proof {
                        assert(ws_prefix(v, w as int));
                        assert(chain_split(v, w as int, e as int));
                        let (a, b) = first_chain_split(v);
                        assert(chain_split(v, a, b));
                        if a < w {
                        }
                        assert(a == w);
                        if b > e {
                        }
                        assert(b == e);
                    }
                    let x = string_of_range(q, 10 + w, 10 + e);
                    let y = string_of_range(q, s, n);
                    assert(y@ == q@.skip(s as int));
                    return Some((trim_string(x.as_str()), trim_string(y.as_str())));
                },
                None => {},
            }
            e = e + 1;
        }
        proof {
            assert forall|e2: int| chain_split(v, w as int, e2) implies false by {
                if e2 >= e {
                    if e <= n - 10 {
                        assert(v.subrange(w as int, e as int) =~= q@.subrange(10 + w, 10 + e));
                        let k = choose|k: int| 0 <= k < e - w && #[trigger] v.subrange(w as int, e as int)[k] == '\n';
                        assert(v.subrange(w as int, e2)[k] == '\n');
                    }
                }
            }
        }
        w = w - 1;
    }
    proof {
        assert forall|a: int, b: int| chain_split(v, a, b) implies false by {
            lemma_ws_bound(v, run as int, a);
        }
    }
    None
}

/// Classify a search query. Surrounding whitespace is ignored; a query that
/// matches no structural form is a grep pattern.
#[verifier::rlimit(40)]
pub fn classify(query: &str) -> (r: QueryKind)
    ensures
        r@ == classify_trimmed(trim(query@)),
{
    let t = trim_string(query);
    let q = chars_of(t.as_str());
    if let Some(x) = keyword_argument(&q, "callers of") {
        return QueryKind::Callers(x);
    }
    if let Some(x) = keyword_argument(&q, "what calls") {
        return QueryKind::Callers(x);
    }
    if let Some(x) = keyword_argument(&q, "callees of") {
        return QueryKind::Callees(x);
    }
    if let Some(x) = what_does_argument(&q) {
        return QueryKind::Callees(x);
    }
    if let Some(x) = keyword_argument(&q, "outline of") {
        return QueryKind::Outline(x);
    }
    if let Some((a, b)) = chain_arguments(&q) {
        return QueryKind::Chain(a, b);
    }
    if let Some(x) = keyword_argument(&q, "find") {
        return QueryKind::Find(x);
    }
    if let Some(x) = keyword_argument(&q, "where is") {
        return QueryKind::Find(x);
    }
    if let Some(x) = keyword_argument(&q, "tests for") {
        return QueryKind::TestsFor(x);
    }
    if let Some(x) = keyword_argument(&q, "imports of") {
        return QueryKind::ImportsOf(x);
    }
    if let Some(x) = keyword_argument(&q, "importers of") {
        return QueryKind::ImportersOf(x);
    }
    if let Some(x) = keyword_argument(&q, "exports of") {
        return QueryKind::ExportsOf(x);
    }
    if crate::paths::chars_equal(&q, "libraries") {
        return QueryKind::Libraries;
    }
    QueryKind::Grep(t)
}

} // verus!
