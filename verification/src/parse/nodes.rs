//! What the language drivers share: a parse by its values, and reading the
//! list of syntax nodes tree-sitter gives back in preorder (children,
//! nodes by kind, node text), with the parse in progress that the drivers
//! fill.

use vstd::prelude::*;

use crate::graph::types::{Confidence, Edge, EdgeKind, LibraryImport, Symbol, SymbolId, SymbolKind, Visibility};
use crate::paths::{file_stem, path_file_stem};
use crate::parse::body_hash::{normal_form, seahash_of};
use crate::parse::resolve::{split_by, split_text};
use crate::parse::ParseOutput;
use crate::search::hit::opt_text;
use crate::search::syntax::{node_text, node_views, parent_index, parent_of, text_of_node, NodeView, SyntaxNode};
use crate::strings::{chars_of, string_of_range, trim, trim_string};
use vstd::utf8::encode_utf8;

verus! {

broadcast use vstd::string::group_string_axioms;

/// A symbol by its values.
pub struct SymbolView {
    pub id: (Seq<char>, Seq<char>, SymbolKind),
    pub line_start: u32,
    pub line_end: u32,
    pub signature: Seq<char>,
    pub params: Seq<Seq<char>>,
    pub return_type: Option<Seq<char>>,
    pub visibility: Visibility,
    pub body_hash: u64,
    pub is_async: bool,
    pub embedding_id: Option<i64>,
}

/// An edge by its values: from, to, kind, line, confidence.
pub type EdgeView = ((Seq<char>, Seq<char>, SymbolKind), (Seq<char>, Seq<char>, SymbolKind), EdgeKind, u32, Confidence);

/// A library import by its values: library, symbol, file, line.
pub type LibraryView = (Seq<char>, Seq<char>, Seq<char>, u32);

/// A parse by its values.
pub struct ParseView {
    pub symbols: Seq<SymbolView>,
    pub edges: Seq<EdgeView>,
    pub library_imports: Seq<LibraryView>,
    pub partial_parse: bool,
}

/// The values of a list of strings.
pub open spec fn texts(v: Seq<String>) -> Seq<Seq<char>> {
    v.map_values(|s: String| s@)
}

/// The values of a symbol.
pub open spec fn symbol_view(s: Symbol) -> SymbolView {
    SymbolView {
        id: s.id@,
        line_start: s.line_start,
        line_end: s.line_end,
        signature: s.signature@,
        params: texts(s.params@),
        return_type: opt_text(s.return_type),
        visibility: s.visibility,
        body_hash: s.body_hash,
        is_async: s.is_async,
        embedding_id: s.embedding_id,
    }
}

/// The values of an edge.
pub open spec fn edge_view(e: Edge) -> EdgeView {
    (e.from@, e.to@, e.kind, e.line, e.confidence)
}

/// The values of a library import.
pub open spec fn library_view(l: LibraryImport) -> LibraryView {
    (l.library@, l.symbol@, l.file@, l.line)
}

/// The values of a parse.
pub open spec fn parse_view(o: ParseOutput) -> ParseView {
    ParseView {
        symbols: o.symbols@.map_values(|s: Symbol| symbol_view(s)),
        edges: o.edges@.map_values(|e: Edge| edge_view(e)),
        library_imports: o.library_imports@.map_values(|l: LibraryImport| library_view(l)),
        partial_parse: o.partial_parse,
    }
}

/// Nothing parsed.
pub open spec fn empty_parse(partial: bool) -> ParseView {
    ParseView { symbols: Seq::empty(), edges: Seq::empty(), library_imports: Seq::empty(), partial_parse: partial }
}

/// The direct children of node `i` found at or after index `j`, in order:
/// the nodes one level below `i` before the walk leaves `i`'s subtree.
pub open spec fn kids_from(ns: Seq<NodeView>, i: int, j: int) -> Seq<int>
    decreases ns.len() - j,
{
    if j < 0 || j >= ns.len() || ns[j].depth <= ns[i].depth {
        Seq::empty()
    } else {
        (if ns[j].depth == ns[i].depth + 1 {
            seq![j]
        } else {
            Seq::empty()
        }) + kids_from(ns, i, j + 1)
    }
}

/// The direct children of node `i`, in order.
pub open spec fn kids(ns: Seq<NodeView>, i: int) -> Seq<int> {
    kids_from(ns, i, i + 1)
}

/// The first of `cs` whose node has kind `k`.
pub open spec fn first_kind(ns: Seq<NodeView>, cs: Seq<int>, k: Seq<char>) -> Option<int>
    decreases cs.len(),
{
    if cs.len() == 0 {
        None
    } else if ns[cs[0]].kind == k {
        Some(cs[0])
    } else {
        first_kind(ns, cs.drop_first(), k)
    }
}

/// The last of `cs` whose node has kind `k`.
pub open spec fn last_kind(ns: Seq<NodeView>, cs: Seq<int>, k: Seq<char>) -> Option<int>
    decreases cs.len(),
{
    if cs.len() == 0 {
        None
    } else if ns[cs.last()].kind == k {
        Some(cs.last())
    } else {
        last_kind(ns, cs.drop_last(), k)
    }
}

/// The element of `cs` right after the first whose node has kind `k`.
pub open spec fn after_kind(ns: Seq<NodeView>, cs: Seq<int>, k: Seq<char>) -> Option<int>
    decreases cs.len(),
{
    if cs.len() < 2 {
        None
    } else if ns[cs[0]].kind == k {
        Some(cs[1])
    } else {
        after_kind(ns, cs.drop_first(), k)
    }
}

/// The text of a node, or nothing when its bytes cannot be read.
pub open spec fn text_or_empty(src: Seq<char>, n: NodeView) -> Seq<char> {
    match node_text(src, n) {
        Some(t) => t,
        None => Seq::empty(),
    }
}

/// Does some node of `cs` read exactly `t`?
pub open spec fn has_text(ns: Seq<NodeView>, src: Seq<char>, cs: Seq<int>, t: Seq<char>) -> bool {
    exists|p: int| 0 <= p < cs.len() && #[trigger] text_or_empty(src, ns[cs[p]]) == t
}

/// A 0-based row as a 1-based line, saturating at `u32::MAX`.
pub open spec fn row_line(row: usize) -> u32 {
    if row < u32::MAX {
        (row + 1) as u32
    } else {
        u32::MAX
    }
}

/// `s` without its leading `c`s.
pub open spec fn strip_leading(s: Seq<char>, c: char) -> Seq<char>
    decreases s.len(),
{
    if s.len() > 0 && s[0] == c {
        strip_leading(s.drop_first(), c)
    } else {
        s
    }
}

/// `s` without its trailing `c`s.
pub open spec fn strip_trailing(s: Seq<char>, c: char) -> Seq<char>
    decreases s.len(),
{
    if s.len() > 0 && s.last() == c {
        strip_trailing(s.drop_last(), c)
    } else {
        s
    }
}

/// The trimmed pieces that are not empty.
pub open spec fn nonempty_trimmed(ps: Seq<Seq<char>>) -> Seq<Seq<char>>
    decreases ps.len(),
{
    if ps.len() == 0 {
        Seq::empty()
    } else {
        nonempty_trimmed(ps.drop_last()) + if trim(ps.last()).len() > 0 {
            seq![trim(ps.last())]
        } else {
            Seq::empty()
        }
    }
}

/// A parameter list such as `(self, req: Request)` split into its
/// parameters: the parentheses stripped, split on commas, each trimmed,
/// the empty ones dropped.
pub open spec fn params_of(t: Seq<char>) -> Seq<Seq<char>> {
    nonempty_trimmed(split_by(strip_trailing(strip_leading(t, '('), ')'), ","@))
}

/// The body hash of a node's text.
pub open spec fn hash_of_text(t: Seq<char>) -> u64 {
    seahash_of(encode_utf8(normal_form(t)))
}

/// What has been read so far.
pub struct ParseAcc {
    pub symbols: Seq<SymbolView>,
    pub edges: Seq<EdgeView>,
    pub library_imports: Seq<LibraryView>,
    /// The (caller, callee) name pairs already given an edge.
    pub seen: Seq<(Seq<char>, Seq<char>)>,
}

/// Does the tree hold an `ERROR` node?
pub open spec fn has_error_node(ns: Seq<NodeView>) -> bool {
    exists|i: int| 0 <= i < ns.len() && #[trigger] ns[i].kind == "ERROR"@
}

/// Indices as integers.
pub open spec fn ints(v: Seq<usize>) -> Seq<int> {
    v.map_values(|k: usize| k as int)
}

/// Is node `n` of kind `k`?
pub(crate) fn kind_is(n: &SyntaxNode, k: &str) -> (r: bool)
    ensures
        r == (n@.kind == k@),
{
    let lit = k.to_owned();
    n.kind == lit
}

/// The direct children of node `i`.
pub(crate) fn children(ns: &Vec<SyntaxNode>, i: usize) -> (r: Vec<usize>)
    requires
        i < ns@.len(),
    ensures
        ints(r@) == kids(node_views(ns@), i as int),
        forall|p: int| 0 <= p < r@.len() ==> i < #[trigger] r@[p] < ns@.len(),
{
    let ghost vs = node_views(ns@);
    let d = ns[i].depth;
    let len = ns.len();
    let mut out: Vec<usize> = Vec::new();
    let mut j = i + 1;
    while j < ns.len() && ns[j].depth > d
        invariant
            vs == node_views(ns@),
            i < j <= ns@.len(),
            d == vs[i as int].depth,
            kids(vs, i as int) == ints(out@) + kids_from(vs, i as int, j as int),
            forall|p: int| 0 <= p < out@.len() ==> i < #[trigger] out@[p] < j,
        decreases ns@.len() - j,
    {
        let ghost before = out@;
        if d < u32::MAX && ns[j].depth == d + 1 {
            out.push(j);
            assert(ints(out@) =~= ints(before) + seq![j as int]);
        }
        assert(ints(out@) + kids_from(vs, i as int, j + 1) =~= ints(before) + kids_from(vs, i as int, j as int));
        j = j + 1;
    }
    assert(kids_from(vs, i as int, j as int) =~= Seq::<int>::empty());
    assert(ints(out@) + Seq::<int>::empty() =~= ints(out@));
    out
}

/// The first of `cs` whose node has kind `k`.
pub(crate) fn first_of_kind(ns: &Vec<SyntaxNode>, cs: &Vec<usize>, k: &str) -> (r: Option<usize>)
    requires
        forall|p: int| 0 <= p < cs@.len() ==> #[trigger] cs@[p] < ns@.len(),
    ensures
        match r {
            Some(c) => first_kind(node_views(ns@), ints(cs@), k@) == Some(c as int) && c < ns@.len(),
            None => first_kind(node_views(ns@), ints(cs@), k@) is None,
        },
{
    let ghost vs = node_views(ns@);
    let ghost all = ints(cs@);
    let mut p: usize = 0;
    assert(all.skip(0) =~= all);
    while p < cs.len()
        invariant
            vs == node_views(ns@),
            all == ints(cs@),
            p <= cs@.len(),
            forall|q: int| 0 <= q < cs@.len() ==> #[trigger] cs@[q] < ns@.len(),
            first_kind(vs, all, k@) == first_kind(vs, all.skip(p as int), k@),
        decreases cs@.len() - p,
    {
        assert(all.skip(p as int)[0] == cs@[p as int] as int);
        if kind_is(&ns[cs[p]], k) {
            return Some(cs[p]);
        }
        assert(all.skip(p as int).drop_first() =~= all.skip(p + 1));
        p = p + 1;
    }
    assert(all.skip(p as int) =~= Seq::<int>::empty());
    None
}

/// The last of `cs` whose node has kind `k`.
pub(crate) fn last_of_kind(ns: &Vec<SyntaxNode>, cs: &Vec<usize>, k: &str) -> (r: Option<usize>)
    requires
        forall|p: int| 0 <= p < cs@.len() ==> #[trigger] cs@[p] < ns@.len(),
    ensures
        match r {
            Some(c) => last_kind(node_views(ns@), ints(cs@), k@) == Some(c as int) && c < ns@.len(),
            None => last_kind(node_views(ns@), ints(cs@), k@) is None,
        },
{
    let ghost vs = node_views(ns@);
    let ghost all = ints(cs@);
    let mut p: usize = cs.len();
    assert(all.take(p as int) =~= all);
    while p > 0
        invariant
            vs == node_views(ns@),
            all == ints(cs@),
            p <= cs@.len(),
            forall|q: int| 0 <= q < cs@.len() ==> #[trigger] cs@[q] < ns@.len(),
            last_kind(vs, all, k@) == last_kind(vs, all.take(p as int), k@),
        decreases p,
    {
        assert(all.take(p as int).last() == cs@[p - 1] as int);
        if kind_is(&ns[cs[p - 1]], k) {
            return Some(cs[p - 1]);
        }
        assert(all.take(p as int).drop_last() =~= all.take(p - 1));
        p = p - 1;
    }
    assert(all.take(0) =~= Seq::<int>::empty());
    None
}

/// The element of `cs` right after the first whose node has kind `k`.
pub(crate) fn after_of_kind(ns: &Vec<SyntaxNode>, cs: &Vec<usize>, k: &str) -> (r: Option<usize>)
    requires
        forall|p: int| 0 <= p < cs@.len() ==> #[trigger] cs@[p] < ns@.len(),
    ensures
        match r {
            Some(c) => after_kind(node_views(ns@), ints(cs@), k@) == Some(c as int) && c < ns@.len(),
            None => after_kind(node_views(ns@), ints(cs@), k@) is None,
        },
{
    let ghost vs = node_views(ns@);
    let ghost all = ints(cs@);
    let mut p: usize = 0;
    assert(all.skip(0) =~= all);
    while cs.len() - p > 1
        invariant
            vs == node_views(ns@),
            all == ints(cs@),
            p <= cs@.len(),
            forall|q: int| 0 <= q < cs@.len() ==> #[trigger] cs@[q] < ns@.len(),
            after_kind(vs, all, k@) == after_kind(vs, all.skip(p as int), k@),
        decreases cs@.len() - p,
    {
        assert(all.skip(p as int)[0] == cs@[p as int] as int);
        assert(all.skip(p as int)[1] == cs@[p + 1] as int);
        if kind_is(&ns[cs[p]], k) {
            return Some(cs[p + 1]);
        }
        assert(all.skip(p as int).drop_first() =~= all.skip(p + 1));
        p = p + 1;
    }
    None
}

/// The text of node `n`, or nothing when its bytes cannot be read.
pub(crate) fn text_or_nothing(source: &str, n: &SyntaxNode) -> (r: String)
    ensures
        r@ == text_or_empty(source@, n@),
{
    match text_of_node(source, n) {
        Some(t) => t,
        None => String::new(),
    }
}

/// Does some node of `cs` read exactly `t`?
pub(crate) fn any_reads(ns: &Vec<SyntaxNode>, source: &str, cs: &Vec<usize>, t: &str) -> (r: bool)
    requires
        forall|p: int| 0 <= p < cs@.len() ==> #[trigger] cs@[p] < ns@.len(),
    ensures
        r == has_text(node_views(ns@), source@, ints(cs@), t@),
{
    let ghost vs = node_views(ns@);
    let lit = t.to_owned();
    let mut p: usize = 0;
    while p < cs.len()
        invariant
            vs == node_views(ns@),
            lit@ == t@,
            p <= cs@.len(),
            forall|q: int| 0 <= q < cs@.len() ==> #[trigger] cs@[q] < ns@.len(),
            forall|q: int| 0 <= q < p ==> #[trigger] text_or_empty(source@, vs[ints(cs@)[q]]) != t@,
        decreases cs@.len() - p,
    {
        let x = text_or_nothing(source, &ns[cs[p]]);
        assert(ints(cs@)[p as int] == cs@[p as int] as int);
        if x == lit {
            assert(text_or_empty(source@, vs[ints(cs@)[p as int]]) == t@);
            return true;
        }
        p = p + 1;
    }
    false
}

/// A 0-based row as a 1-based line, saturating.
pub(crate) fn line_of_row(row: usize) -> (r: u32)
    ensures
        r == row_line(row),
{
    if row < u32::MAX as usize {
        (row + 1) as u32
    } else {
        u32::MAX
    }
}

/// `s` without its leading `c`s and its trailing `d`s.
pub(crate) fn strip_ends(s: &str, c: char, d: char) -> (r: String)
    ensures
        r@ == strip_trailing(strip_leading(s@, c), d),
{
    let cs = chars_of(s);
    let mut a: usize = 0;
    assert(cs@.skip(0) =~= cs@);
    while a < cs.len() && cs[a] == c
        invariant
            a <= cs@.len(),
            strip_leading(cs@, c) == strip_leading(cs@.skip(a as int), c),
        decreases cs@.len() - a,
    {
        assert(cs@.skip(a as int).drop_first() =~= cs@.skip(a + 1));
        a = a + 1;
    }
    let ghost lead = cs@.skip(a as int);
    assert(strip_leading(cs@, c) == lead);
    let mut b: usize = cs.len();
    assert(cs@.subrange(a as int, b as int) =~= lead);
    while b > a && cs[b - 1] == d
        invariant
            a <= b <= cs@.len(),
            strip_trailing(lead, d) == strip_trailing(cs@.subrange(a as int, b as int), d),
        decreases b,
    {
        assert(cs@.subrange(a as int, b as int).drop_last() =~= cs@.subrange(a as int, b - 1));
        b = b - 1;
    }
    string_of_range(&cs, a, b)
}

/// `s` without its leading `c`s.
pub(crate) fn drop_leading(s: &str, c: char) -> (r: String)
    ensures
        r@ == strip_leading(s@, c),
{
    let cs = chars_of(s);
    let mut a: usize = 0;
    assert(cs@.skip(0) =~= cs@);
    while a < cs.len() && cs[a] == c
        invariant
            a <= cs@.len(),
            strip_leading(cs@, c) == strip_leading(cs@.skip(a as int), c),
        decreases cs@.len() - a,
    {
        assert(cs@.skip(a as int).drop_first() =~= cs@.skip(a + 1));
        a = a + 1;
    }
    assert(cs@.subrange(a as int, cs@.len() as int) =~= cs@.skip(a as int));
    string_of_range(&cs, a, cs.len())
}

/// Split a parameter list such as `(self, req: Request)` into its
/// parameters.
pub(crate) fn split_params(params: &str) -> (r: Vec<String>)
    ensures
        texts(r@) == params_of(params@),
{
    let inner = strip_ends(params, '(', ')');
    proof {
        reveal_strlit(",");
    }
    let pieces = split_text(inner.as_str(), ",");
    let ghost ps = texts(pieces@);
    assert(ps == split_by(inner@, ","@));
    let mut out: Vec<String> = Vec::new();
    let mut i: usize = 0;
    assert(ps.take(0) =~= Seq::<Seq<char>>::empty());
    while i < pieces.len()
        invariant
            i <= pieces@.len(),
            ps == texts(pieces@),
            texts(out@) == nonempty_trimmed(ps.take(i as int)),
        decreases pieces@.len() - i,
    {
        let ghost before = out@;
        let t = trim_string(pieces[i].as_str());
        assert(ps.take(i + 1).drop_last() =~= ps.take(i as int));
        assert(ps.take(i + 1).last() == pieces@[i as int]@);
        if chars_of(t.as_str()).len() > 0 {
            out.push(t);
            assert(texts(out@) =~= texts(before).push(t@));
        } else {
            assert(texts(out@) =~= texts(before));
        }
        assert(texts(out@) =~= nonempty_trimmed(ps.take(i + 1)));
        i = i + 1;
    }
    assert(ps.take(pieces@.len() as int) =~= ps);
    out
}

/// A parse in progress, with the (caller, callee) name pairs already given
/// an edge.
pub(crate) struct Reading {
    pub(crate) out: ParseOutput,
    pub(crate) seen: Vec<(String, String)>,
}

/// The values of a list of name pairs.
pub open spec fn pair_texts(v: Seq<(String, String)>) -> Seq<(Seq<char>, Seq<char>)> {
    v.map_values(|p: (String, String)| (p.0@, p.1@))
}

/// What a parse in progress has read.
pub(crate) open spec fn reading_view(r: Reading) -> ParseAcc {
    let v = parse_view(r.out);
    ParseAcc { symbols: v.symbols, edges: v.edges, library_imports: v.library_imports, seen: pair_texts(r.seen@) }
}

/// Append a symbol.
pub(crate) fn add_symbol(acc: &mut Reading, s: Symbol)
    ensures
        reading_view(*final(acc)) == (ParseAcc { symbols: reading_view(*old(acc)).symbols.push(symbol_view(s)), ..reading_view(*old(acc)) }),
{
    let ghost before = acc.out.symbols@;
    acc.out.symbols.push(s);
    assert(acc.out.symbols@.map_values(|x: Symbol| symbol_view(x)) =~= before.map_values(|x: Symbol| symbol_view(x)).push(symbol_view(s)));
}

/// Append an edge.
pub(crate) fn add_edge(acc: &mut Reading, e: Edge)
    ensures
        reading_view(*final(acc)) == (ParseAcc { edges: reading_view(*old(acc)).edges.push(edge_view(e)), ..reading_view(*old(acc)) }),
{
    let ghost before = acc.out.edges@;
    acc.out.edges.push(e);
    assert(acc.out.edges@.map_values(|x: Edge| edge_view(x)) =~= before.map_values(|x: Edge| edge_view(x)).push(edge_view(e)));
}

/// Has the pair `(from, callee)` been given an edge?
pub(crate) fn seen_pair(seen: &Vec<(String, String)>, from: &String, callee: &String) -> (r: bool)
    ensures
        r == pair_texts(seen@).contains((from@, callee@)),
{
    let mut i: usize = 0;
    while i < seen.len()
        invariant
            i <= seen@.len(),
            forall|j: int| 0 <= j < i ==> #[trigger] pair_texts(seen@)[j] != (from@, callee@),
        decreases seen@.len() - i,
    {
        if seen[i].0 == *from && seen[i].1 == *callee {
            assert(pair_texts(seen@)[i as int] == (from@, callee@));
            return true;
        }
        i = i + 1;
    }
    false
}

// ------------------------------------------------------------------
// Edges the drivers add.
// ------------------------------------------------------------------

/// `acc` with a call edge from `from` (of kind `fk`) to `callee`, both in
/// `path`, at `line`, unless the callee is empty or that pair already has
/// an edge.
pub open spec fn call_added(acc: ParseAcc, path: Seq<char>, from: Seq<char>, fk: SymbolKind, callee: Seq<char>, line: u32) -> ParseAcc {
    if callee.len() == 0 || acc.seen.contains((from, callee)) {
        acc
    } else {
        ParseAcc {
            edges: acc.edges.push(
                ((path, from, fk), (path, callee, SymbolKind::Function), EdgeKind::Calls, line, Confidence::Unresolved),
            ),
            seen: acc.seen.push((from, callee)),
            ..acc
        }
    }
}

/// Add a call edge from `from` (of kind `fk`) to `callee` at `line`,
/// unless the callee is empty or that pair already has an edge.
pub(crate) fn add_call(acc: &mut Reading, path: &str, from: String, fk: SymbolKind, callee: String, line: u32)
    ensures
        reading_view(*final(acc)) == call_added(reading_view(*old(acc)), path@, from@, fk, callee@, line),
{
    if chars_of(callee.as_str()).len() == 0 || seen_pair(&acc.seen, &from, &callee) {
        return;
    }
    let e = Edge {
        from: SymbolId { file: path.to_owned(), name: from.clone(), kind: fk },
        to: SymbolId { file: path.to_owned(), name: callee.clone(), kind: SymbolKind::Function },
        kind: EdgeKind::Calls,
        line,
        confidence: Confidence::Unresolved,
    };
    add_edge(acc, e);
    let ghost before = acc.seen@;
    acc.seen.push((from, callee));
    assert(pair_texts(acc.seen@) =~= pair_texts(before).push((from@, callee@)));
}

/// The module anchor of the file at `path`: its stem, or nothing.
pub open spec fn module_name(path: Seq<char>) -> Seq<char> {
    match file_stem(path) {
        Some(s) => s,
        None => Seq::empty(),
    }
}

/// An unresolved import edge from the module of `path` to the module
/// named by `spec`, at `line`.
pub open spec fn import_edge(path: Seq<char>, spec: Seq<char>, line: u32) -> EdgeView {
    (
        (path, module_name(path), SymbolKind::Module),
        (spec, Seq::empty(), SymbolKind::Module),
        EdgeKind::Imports,
        line,
        Confidence::Unresolved,
    )
}

/// `acc` with an import of `spec` at `line`, when `spec` is not empty.
pub open spec fn import_added(acc: ParseAcc, path: Seq<char>, spec: Seq<char>, line: u32) -> ParseAcc {
    if spec.len() == 0 {
        acc
    } else {
        ParseAcc { edges: acc.edges.push(import_edge(path, spec, line)), ..acc }
    }
}

/// Add an import of `spec` at `line`, when `spec` is not empty.
pub(crate) fn add_import(acc: &mut Reading, path: &str, spec: String, line: u32)
    ensures
        reading_view(*final(acc)) == import_added(reading_view(*old(acc)), path@, spec@, line),
{
    if chars_of(spec.as_str()).len() == 0 {
        return;
    }
    let stem = match path_file_stem(path) {
        Some(s) => s,
        None => String::new(),
    };
    let e = Edge {
        from: SymbolId { file: path.to_owned(), name: stem, kind: SymbolKind::Module },
        to: SymbolId { file: spec, name: String::new(), kind: SymbolKind::Module },
        kind: EdgeKind::Imports,
        line,
        confidence: Confidence::Unresolved,
    };
    add_edge(acc, e);
}

/// The kind of node `i`'s parent, if it has one.
pub open spec fn parent_kind(ns: Seq<NodeView>, i: int) -> Option<Seq<char>> {
    match parent_of(ns, i) {
        Some(p) => if 0 <= p < ns.len() {
            Some(ns[p].kind)
        } else {
            None
        },
        None => None,
    }
}

/// Is the parent of node `i` of kind `k`?
pub(crate) fn parent_is(ns: &Vec<SyntaxNode>, i: usize, k: &str) -> (r: bool)
    requires
        i < ns@.len(),
    ensures
        r == (parent_kind(node_views(ns@), i as int) == Some(k@)),
{
    match parent_index(ns, i) {
        Some(p) => kind_is(&ns[p], k),
        None => false,
    }
}

/// Does `t` start with an uppercase ASCII letter?
pub open spec fn starts_upper(t: Seq<char>) -> bool {
    t.len() > 0 && 'A' <= t[0] && t[0] <= 'Z'
}

/// Whether `t` starts with an uppercase ASCII letter.
pub(crate) fn begins_upper(t: &String) -> (r: bool)
    ensures
        r == starts_upper(t@),
{
    let cs = chars_of(t.as_str());
    cs.len() > 0 && 'A' <= cs[0] && cs[0] <= 'Z'
}

/// Does `t` start with `c`?
pub open spec fn starts_with_char(t: Seq<char>, c: char) -> bool {
    t.len() > 0 && t[0] == c
}

/// Whether `t` starts with `c`.
pub(crate) fn begins_with(t: &String, c: char) -> (r: bool)
    ensures
        r == starts_with_char(t@, c),
{
    let cs = chars_of(t.as_str());
    cs.len() > 0 && cs[0] == c
}

/// Whether the tree holds an `ERROR` node.
pub(crate) fn any_error(nodes: &Vec<SyntaxNode>) -> (r: bool)
    ensures
        r == has_error_node(node_views(nodes@)),
{
    let ghost vs = node_views(nodes@);
    let mut i: usize = 0;
    while i < nodes.len()
        invariant
            vs == node_views(nodes@),
            i <= nodes@.len(),
            forall|j: int| 0 <= j < i ==> #[trigger] vs[j].kind != "ERROR"@,
        decreases nodes@.len() - i,
    {
        if kind_is(&nodes[i], "ERROR") {
            assert(vs[i as int].kind == "ERROR"@);
            return true;
        }
        i = i + 1;
    }
    false
}

/// A parse that read nothing.
pub(crate) fn empty_reading() -> (r: Reading)
    ensures
        reading_view(r) == (ParseAcc { symbols: Seq::empty(), edges: Seq::empty(), library_imports: Seq::empty(), seen: Seq::empty() }),
{
    let r = Reading { out: ParseOutput::default(), seen: Vec::new() };
    assert(reading_view(r).symbols =~= Seq::<SymbolView>::empty());
    assert(reading_view(r).edges =~= Seq::<EdgeView>::empty());
    assert(reading_view(r).library_imports =~= Seq::<LibraryView>::empty());
    assert(reading_view(r).seen =~= Seq::<(Seq<char>, Seq<char>)>::empty());
    r
}

/// Nothing read, and the parse marked partial: what a driver gives when
/// tree-sitter builds no tree.
pub(crate) fn unparsed() -> (r: ParseOutput)
    ensures
        parse_view(r) == empty_parse(true),
{
    let mut out = ParseOutput::default();
    out.partial_parse = true;
    assert(parse_view(out).symbols =~= Seq::<SymbolView>::empty());
    assert(parse_view(out).edges =~= Seq::<EdgeView>::empty());
    assert(parse_view(out).library_imports =~= Seq::<LibraryView>::empty());
    out
}

} // verus!
