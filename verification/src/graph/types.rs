//! Data structures for the code graph.
//!
//! The graph keeps forward and reverse adjacency lists, a per-file symbol
//! index, a reverse-edge in-degree ("centrality") table and the list of
//! external library imports. Every mutation is specified against the
//! abstract maps these tables denote.

use vstd::prelude::*;

use crate::assoc::{AssocMap, KeyEq};
use crate::graph::ops::{lemma_empty_mirrored, lemma_insert_edge_mirrored, lemma_insert_symbol_mirrored, mirrored};
use crate::strings;

verus! {

/// Discriminant for symbol lookups: the cross-language union of declaration forms.
#[derive(Debug, Clone, Copy, PartialEq, Eq, Hash, Structural)]
pub enum SymbolKind {
    Function,
    AsyncFunction,
    Class,
    Method,
    Interface,
    TypeAlias,
    Constant,
    Export,
    Module,
    Trait,
    Struct,
    /// Enum declaration (Rust `enum`, future language equivalents).
    Enum,
}

/// Visibility at the module boundary.
#[derive(Debug, Clone, Copy, PartialEq, Eq, Hash, Structural)]
pub enum Visibility {
    /// Exported from the module surface (TS `export`, Python `__all__`, Rust `pub`).
    Export,
    /// Accessible within the crate / package but not exported.
    Public,
    /// File- or module-private.
    Private,
    /// Language default (e.g. Python module-level without underscore prefix).
    Default,
}

/// Edge classification. Every cascade warning ultimately consults an edge kind.
#[derive(Debug, Clone, Copy, PartialEq, Eq, Hash, Structural)]
pub enum EdgeKind {
    Calls,
    Imports,
    Inherits,
    Implements,
    Exports,
    ReExports,
    TypeReference,
}

/// Confidence in an edge's correctness. `Unresolved` marks an edge whose
/// target file or kind is still a placeholder awaiting resolution.
#[derive(Debug, Clone, Copy, PartialEq, Eq, Hash, Structural)]
pub enum Confidence {
    Certain,
    Inferred,
    Unresolved,
}

/// Stable identifier for a symbol, keyed by `(file, name, kind)`.
#[derive(Debug, Eq, Hash)]
pub struct SymbolId {
    pub file: String,
    pub name: String,
    pub kind: SymbolKind,
}

impl View for SymbolId {
    type V = (Seq<char>, Seq<char>, SymbolKind);

    open spec fn view(&self) -> (Seq<char>, Seq<char>, SymbolKind) {
        (self.file@, self.name@, self.kind)
    }
}

impl PartialEq for SymbolId {
    fn eq(&self, other: &Self) -> (r: bool) {
        self.file == other.file && self.name == other.name && self.kind == other.kind
    }
}

impl vstd::std_specs::cmp::PartialEqSpecImpl for SymbolId {
    open spec fn obeys_eq_spec() -> bool {
        true
    }

    open spec fn eq_spec(&self, other: &SymbolId) -> bool {
        self@ == other@
    }
}

impl Clone for SymbolId {
    fn clone(&self) -> (r: Self)
        ensures
            r == *self,
    {
        SymbolId { file: self.file.clone(), name: self.name.clone(), kind: self.kind }
    }
}

impl KeyEq for SymbolId {
    fn key_eq(&self, other: &Self) -> (r: bool) {
        self.file == other.file && self.name == other.name && self.kind == other.kind
    }

    fn dup(&self) -> (r: Self) {
        self.clone()
    }
}

/// A copy of a list of strings.
pub fn clone_strings(v: &Vec<String>) -> (r: Vec<String>)
    ensures
        r@ == v@,
{
    let mut out: Vec<String> = Vec::new();
    let mut i: usize = 0;
    while i < v.len()
        invariant
            i <= v@.len(),
            out@ == v@.subrange(0, i as int),
        decreases v@.len() - i,
    {
        out.push(v[i].clone());
        i = i + 1;
        assert(out@ =~= v@.subrange(0, i as int));
    }
    assert(v@.subrange(0, v@.len() as int) =~= v@);
    out
}

/// A copy of an optional string.
pub fn clone_opt_string(v: &Option<String>) -> (r: Option<String>)
    ensures
        r == *v,
{
    match v {
        Some(s) => Some(s.clone()),
        None => None,
    }
}

/// A single declaration extracted from source.
#[derive(Debug)]
pub struct Symbol {
    pub id: SymbolId,
    pub line_start: u32,
    pub line_end: u32,
    pub signature: String,
    pub params: Vec<String>,
    pub return_type: Option<String>,
    pub visibility: Visibility,
    pub body_hash: u64,
    pub is_async: bool,
    /// Row ID in the embeddings table (reserved).
    pub embedding_id: Option<i64>,
}

/// Two symbols agree field by field (lists compared by their contents).
pub open spec fn same_symbol(a: Symbol, b: Symbol) -> bool {
    &&& a.id == b.id
    &&& a.line_start == b.line_start
    &&& a.line_end == b.line_end
    &&& a.signature == b.signature
    &&& a.params@ == b.params@
    &&& a.return_type == b.return_type
    &&& a.visibility == b.visibility
    &&& a.body_hash == b.body_hash
    &&& a.is_async == b.is_async
    &&& a.embedding_id == b.embedding_id
}

impl Clone for Symbol {
    fn clone(&self) -> (r: Self)
        ensures
            same_symbol(r, *self),
    {
        Symbol {
            id: self.id.clone(),
            line_start: self.line_start,
            line_end: self.line_end,
            signature: self.signature.clone(),
            params: clone_strings(&self.params),
            return_type: clone_opt_string(&self.return_type),
            visibility: self.visibility,
            body_hash: self.body_hash,
            is_async: self.is_async,
            embedding_id: self.embedding_id,
        }
    }
}

/// A directed edge between two symbols.
#[derive(Debug)]
pub struct Edge {
    pub from: SymbolId,
    pub to: SymbolId,
    pub kind: EdgeKind,
    pub line: u32,
    pub confidence: Confidence,
}

impl Clone for Edge {
    fn clone(&self) -> (r: Self)
        ensures
            r == *self,
    {
        Edge {
            from: self.from.clone(),
            to: self.to.clone(),
            kind: self.kind,
            line: self.line,
            confidence: self.confidence,
        }
    }
}

/// A copy of a list of edges.
pub fn clone_edges(v: &Vec<Edge>) -> (r: Vec<Edge>)
    ensures
        r@ == v@,
{
    let mut out: Vec<Edge> = Vec::new();
    let mut i: usize = 0;
    while i < v.len()
        invariant
            i <= v@.len(),
            out@ == v@.subrange(0, i as int),
        decreases v@.len() - i,
    {
        out.push(v[i].clone());
        i = i + 1;
        assert(out@ =~= v@.subrange(0, i as int));
    }
    assert(v@.subrange(0, v@.len() as int) =~= v@);
    out
}

/// External (npm/pypi/crates.io) import site. Library imports exit the graph.
#[derive(Debug)]
pub struct LibraryImport {
    pub library: String,
    pub symbol: String,
    pub file: String,
    pub line: u32,
}

impl Clone for LibraryImport {
    fn clone(&self) -> (r: Self)
        ensures
            r == *self,
    {
        LibraryImport {
            library: self.library.clone(),
            symbol: self.symbol.clone(),
            file: self.file.clone(),
            line: self.line,
        }
    }
}

/// In-memory code graph. Forward and reverse adjacency lists are maintained
/// on every mutation so lookups are proportional to the degree.
#[derive(Debug)]
pub struct CodeGraph {
    pub symbols: AssocMap<SymbolId, Symbol>,
    pub forward_edges: AssocMap<SymbolId, Vec<Edge>>,
    pub reverse_edges: AssocMap<SymbolId, Vec<Edge>>,
    pub file_symbols: AssocMap<String, Vec<SymbolId>>,
    pub library_imports: Vec<LibraryImport>,
    /// Reverse-edge in-degree, cached for result ranking.
    pub centrality: AssocMap<SymbolId, u32>,
}

/// The edge list stored under `k`, or the empty list.
pub open spec fn edges_under(m: Map<(Seq<char>, Seq<char>, SymbolKind), Vec<Edge>>, k: (Seq<char>, Seq<char>, SymbolKind)) -> Seq<Edge> {
    if m.dom().contains(k) {
        m[k]@
    } else {
        Seq::empty()
    }
}

/// The centrality recorded for `k`, zero when absent.
pub open spec fn centrality_under(m: Map<(Seq<char>, Seq<char>, SymbolKind), u32>, k: (Seq<char>, Seq<char>, SymbolKind)) -> nat {
    if m.dom().contains(k) {
        m[k] as nat
    } else {
        0
    }
}

/// The symbol ids recorded for file `f`, empty when absent.
pub open spec fn ids_under(m: Map<Seq<char>, Vec<SymbolId>>, f: Seq<char>) -> Seq<SymbolId> {
    if m.dom().contains(f) {
        m[f]@
    } else {
        Seq::empty()
    }
}

/// Views of a list of ids, as a set.
pub open spec fn id_set(ids: Seq<SymbolId>) -> Set<(Seq<char>, Seq<char>, SymbolKind)> {
    ids.map_values(|i: SymbolId| i@).to_set()
}

/// The outgoing edge lists that removing the ids `ids` (in order) drops from
/// `fwd`, concatenated; an id listed twice contributes its list once.
pub open spec fn removed_edges(fwd: Map<(Seq<char>, Seq<char>, SymbolKind), Vec<Edge>>, ids: Seq<SymbolId>) -> Seq<Edge>
    decreases ids.len(),
{
    if ids.len() == 0 {
        Seq::empty()
    } else {
        let prev = ids.drop_last();
        let id = ids.last()@;
        if fwd.dom().contains(id) && !id_set(prev).contains(id) {
            removed_edges(fwd, prev) + fwd[id]@
        } else {
            removed_edges(fwd, prev)
        }
    }
}

/// Views of the `from` ids of the edges in `es` that point at `k`.
pub open spec fn sources_into(es: Seq<Edge>, k: (Seq<char>, Seq<char>, SymbolKind)) -> Set<(Seq<char>, Seq<char>, SymbolKind)> {
    Set::new(|f: (Seq<char>, Seq<char>, SymbolKind)| exists|i: int| 0 <= i < es.len() && es[i].to@ == k && es[i].from@ == f)
}

/// Holds of the edges that point at `k`.
pub open spec fn points_at(k: (Seq<char>, Seq<char>, SymbolKind)) -> spec_fn(Edge) -> bool {
    |e: Edge| e.to@ == k
}

/// Number of edges in `es` that point at `k`.
pub open spec fn count_into(es: Seq<Edge>, k: (Seq<char>, Seq<char>, SymbolKind)) -> nat {
    es.filter(points_at(k)).len()
}

/// `x - d`, stopping at zero.
pub open spec fn sat_sub(x: nat, d: nat) -> nat {
    if x >= d {
        (x - d) as nat
    } else {
        0
    }
}

/// `b` is `a` with `sym` inserted, as [`CodeGraph::insert_symbol`] leaves it.
pub open spec fn symbol_inserted(a: CodeGraph, sym: Symbol, b: CodeGraph) -> bool {
    &&& b.symbols@ == a.symbols@.insert(sym.id@, sym)
    &&& seqs(b.file_symbols@) == seqs(a.file_symbols@).insert(
        sym.id.file@,
        ids_under(a.file_symbols@, sym.id.file@).push(sym.id),
    )
    &&& b.forward_edges@ == a.forward_edges@
    &&& b.reverse_edges@ == a.reverse_edges@
    &&& b.centrality@ == a.centrality@
    &&& b.library_imports@ == a.library_imports@
}

/// `b` is `a` with `edge` inserted, as [`CodeGraph::insert_edge`] leaves it.
pub open spec fn edge_inserted(a: CodeGraph, edge: Edge, b: CodeGraph) -> bool {
    &&& seqs(b.forward_edges@) == seqs(a.forward_edges@).insert(
        edge.from@,
        edges_under(a.forward_edges@, edge.from@).push(edge),
    )
    &&& seqs(b.reverse_edges@) == seqs(a.reverse_edges@).insert(
        edge.to@,
        edges_under(a.reverse_edges@, edge.to@).push(edge),
    )
    &&& b.centrality@ == a.centrality@.insert(edge.to@, (centrality_under(a.centrality@, edge.to@) + 1) as u32)
    &&& b.symbols@ == a.symbols@
    &&& b.file_symbols@ == a.file_symbols@
    &&& b.library_imports@ == a.library_imports@
}

/// The ids listed for `file`, or none.
pub open spec fn listed_ids(a: CodeGraph, file: Seq<char>) -> Seq<SymbolId> {
    if a.file_symbols@.dom().contains(file) {
        a.file_symbols@[file]@
    } else {
        Seq::empty()
    }
}

/// The ids in `file` with outgoing edges but not listed among `own`, such
/// as a module's anchor for its imports, in table order.
pub open spec fn anchor_ids(a: CodeGraph, file: Seq<char>, own: Seq<SymbolId>) -> Seq<SymbolId> {
    a.forward_edges.entry_seq().map_values(|e: (SymbolId, Vec<Edge>)| e.0).filter(
        |id: SymbolId| id.file@ == file && !id_set(own).contains(id@),
    )
}

/// Every id that belongs to `file`: its listed symbols, then the other ids
/// of the file that have outgoing edges.
pub open spec fn owned_ids(a: CodeGraph, file: Seq<char>) -> Seq<SymbolId> {
    listed_ids(a, file) + anchor_ids(a, file, listed_ids(a, file))
}

/// `b` is `a` with every symbol and edge of `file` removed, as
/// [`CodeGraph::remove_file`] leaves it: the file's listing, its symbols,
/// the outgoing edges of every id of the file (and their entries in the
/// reverse table and the in-degree counts), the reverse entries and counts
/// of those ids, and the file's library imports.
pub open spec fn file_removed(a: CodeGraph, file: Seq<char>, b: CodeGraph) -> bool {
    let ids = owned_ids(a, file);
    let gone = id_set(ids);
    let dropped = removed_edges(a.forward_edges@, ids);
    &&& b.file_symbols@ == a.file_symbols@.remove(file)
    &&& b.symbols@ == a.symbols@.remove_keys(gone)
    &&& b.forward_edges@ == a.forward_edges@.remove_keys(gone)
    &&& b.reverse_edges@.dom() == a.reverse_edges@.dom().difference(gone)
    &&& forall|k| #[trigger]
        b.reverse_edges@.dom().contains(k) ==> b.reverse_edges@[k]@ == a.reverse_edges@[k]@.filter(
            |e: Edge| !sources_into(dropped, k).contains(e.from@),
        )
    &&& b.centrality@.dom() == a.centrality@.dom().difference(gone)
    &&& forall|k| #[trigger]
        b.centrality@.dom().contains(k) ==> b.centrality@[k] as nat == sat_sub(
            a.centrality@[k] as nat,
            count_into(dropped, k),
        )
    &&& b.library_imports@ == a.library_imports@.filter(|li: LibraryImport| li.file@ != file)
}

/// Whether `id` is among the first `n` of `ids`.
fn has_id(ids: &Vec<SymbolId>, n: usize, id: &SymbolId) -> (r: bool)
    requires
        n <= ids@.len(),
    ensures
        r == id_set(ids@.take(n as int)).contains(id@),
{
    let mut i: usize = 0;
    while i < n
        invariant
            n <= ids@.len(),
            i <= n,
            forall|j: int| 0 <= j < i ==> ids@[j]@ != id@,
        decreases n - i,
    {
        if ids[i].key_eq(id) {
            assert(ids@.take(n as int).map_values(|x: SymbolId| x@)[i as int] == id@);
            return true;
        }
        i = i + 1;
    }
    let ghost vs = ids@.take(n as int).map_values(|x: SymbolId| x@);
    assert(!vs.contains(id@)) by {
        if vs.contains(id@) {
            let j = choose|j: int| 0 <= j < vs.len() && #[trigger] vs[j] == id@;
            assert(ids@[j]@ != id@);
        }
    }
    false
}

impl CodeGraph {
    /// Every table is a well-formed map, and each symbol is stored under its own id.
    pub open spec fn wf(&self) -> bool {
        &&& self.symbols.wf()
        &&& forall|k: (Seq<char>, Seq<char>, SymbolKind)| #[trigger] self.symbols@.dom().contains(k) ==> self.symbols@[k].id@ == k
        &&& self.forward_edges.wf()
        &&& self.reverse_edges.wf()
        &&& self.file_symbols.wf()
        &&& self.centrality.wf()
    }

    /// An empty graph.
    pub fn new() -> (g: Self)
        ensures
            g.wf(),
            g.symbols@ == Map::<(Seq<char>, Seq<char>, SymbolKind), Symbol>::empty(),
            g.forward_edges@ == Map::<(Seq<char>, Seq<char>, SymbolKind), Vec<Edge>>::empty(),
            g.reverse_edges@ == Map::<(Seq<char>, Seq<char>, SymbolKind), Vec<Edge>>::empty(),
            g.file_symbols@ == Map::<Seq<char>, Vec<SymbolId>>::empty(),
            g.centrality@ == Map::<(Seq<char>, Seq<char>, SymbolKind), u32>::empty(),
            g.library_imports@.len() == 0,
            mirrored(&g),
    {
        let g = CodeGraph {
            symbols: AssocMap::new(),
            forward_edges: AssocMap::new(),
            reverse_edges: AssocMap::new(),
            file_symbols: AssocMap::new(),
            library_imports: Vec::new(),
            centrality: AssocMap::new(),
        };
        proof {
            lemma_empty_mirrored(&g);
        }
        g
    }

    /// Insert a symbol, indexing it under its file.
    pub fn insert_symbol(&mut self, sym: Symbol)
        requires
            old(self).wf(),
        ensures
            final(self).wf(),
            symbol_inserted(*old(self), sym, *final(self)),
            mirrored(old(self)) ==> mirrored(final(self)),
    {
        let file = sym.id.file.clone();
        let id = sym.id.clone();
        match self.file_symbols.index_of(&file) {
            Some(i) => {
                let mut ids: Vec<SymbolId> = Vec::new();
                let cur = self.file_symbols.value_at(i);
                let mut k: usize = 0;
                while k < cur.len()
                    invariant
                        k <= cur@.len(),
                        ids@ == cur@.subrange(0, k as int),
                    decreases cur@.len() - k,
                {
                    ids.push(cur[k].clone());
                    k = k + 1;
                    assert(ids@ =~= cur@.subrange(0, k as int));
                }
                assert(cur@.subrange(0, cur@.len() as int) =~= cur@);
                ids.push(id);
                self.file_symbols.set_value_at(i, ids);
                assert(seqs(self.file_symbols@) =~= seqs(old(self).file_symbols@).insert(
                    sym.id.file@, ids_under(old(self).file_symbols@, sym.id.file@).push(sym.id)));
            },
            None => {
                let mut ids: Vec<SymbolId> = Vec::new();
                ids.push(id);
                assert(ids@ =~= ids_under(old(self).file_symbols@, sym.id.file@).push(sym.id));
                self.file_symbols.insert(file, ids);
                assert(seqs(self.file_symbols@) =~= seqs(old(self).file_symbols@).insert(
                    sym.id.file@, ids_under(old(self).file_symbols@, sym.id.file@).push(sym.id)));
            },
        }
        let ghost s0 = sym;
        let key = sym.id.clone();
        self.symbols.insert(key, sym);
        proof {
            if mirrored(old(self)) {
                lemma_insert_symbol_mirrored(old(self), s0, self);
            }
        }
    }

    /// Insert an edge, updating forward, reverse and centrality in lockstep.
    pub fn insert_edge(&mut self, edge: Edge)
        requires
            old(self).wf(),
            centrality_under(old(self).centrality@, edge.to@) < u32::MAX,
        ensures
            final(self).wf(),
            edge_inserted(*old(self), edge, *final(self)),
            mirrored(old(self)) ==> mirrored(final(self)),
    {
        let ghost e0 = edge;
        let e2 = edge.clone();
        push_edge_under(&mut self.forward_edges, &edge.from, e2);
        let to = edge.to.clone();
        push_edge_under(&mut self.reverse_edges, &to, edge);
        let c = match self.centrality.get(&to) {
            Some(c) => *c,
            None => 0,
        };
        self.centrality.insert(to, c + 1);
        proof {
            if mirrored(old(self)) {
                lemma_insert_edge_mirrored(old(self), e0, self);
            }
        }
    }

    /// Remove every symbol and edge belonging to `file`: its symbols and
    /// the outgoing edges of every id of the file, the module anchor of its
    /// imports included.
    ///
    /// Forward edges of other symbols that point at the removed symbols are
    /// kept: they are how a caller of a deleted symbol is found afterwards.
    pub fn remove_file(&mut self, file: &String)
        requires
            old(self).wf(),
        ensures
            final(self).wf(),
            file_removed(*old(self), file@, *final(self)),
    {
        let mut ids: Vec<SymbolId> = match self.file_symbols.remove(file) {
            Some(ids) => ids,
            None => Vec::new(),
        };
        let ghost own = ids@;
        assert(own == listed_ids(*old(self), file@));
        proof {
            if !old(self).file_symbols@.dom().contains(file@) {
                assert(self.file_symbols@ =~= old(self).file_symbols@.remove(file@));
            }
        }
        // The other ids of the file with outgoing edges, in table order.
        let n_own = ids.len();
        let n_fwd = self.forward_edges.len();
        let ghost keys = old(self).forward_edges.entry_seq().map_values(|e: (SymbolId, Vec<Edge>)| e.0);
        let ghost keep = |id: SymbolId| id.file@ == file@ && !id_set(own).contains(id@);
        let mut f: usize = 0;
        assert(keys.take(0).filter(keep) =~= Seq::<SymbolId>::empty()) by {
            reveal(Seq::filter);
        }
        assert(ids@ =~= own + keys.take(0).filter(keep));
        while f < n_fwd
            invariant
                f <= n_fwd,
                n_fwd == self.forward_edges.entry_seq().len(),
                self.forward_edges == old(self).forward_edges,
                keys == old(self).forward_edges.entry_seq().map_values(|e: (SymbolId, Vec<Edge>)| e.0),
                own.len() == n_own,
                n_own <= ids@.len(),
                ids@.take(n_own as int) == own,
                ids@ == own + keys.take(f as int).filter(keep),
                keep == (|id: SymbolId| id.file@ == file@ && !id_set(own).contains(id@)),
            decreases n_fwd - f,
        {
            let key = self.forward_edges.key_at(f);
            proof {
                reveal_filter_push(keys.take(f as int), *key, keep);
                assert(keys.take(f + 1) =~= keys.take(f as int).push(*key));
            }
            if key.file == *file && !has_id(&ids, n_own, key) {
                let ghost prev = ids@;
                ids.push(key.clone());
                assert(ids@.take(n_own as int) =~= prev.take(n_own as int));
            }
            f = f + 1;
        }
        assert(keys.take(n_fwd as int) =~= keys);
        assert(ids@ == owned_ids(*old(self), file@));
        let ghost g0_fwd = old(self).forward_edges@;
        let ghost g0_rev = old(self).reverse_edges@;
        let ghost g0_cen = old(self).centrality@;
        let ghost g0_sym = old(self).symbols@;
        proof {
            let p0 = ids@.subrange(0, 0);
            assert(id_set(p0) =~= Set::empty());
            assert(removed_edges(g0_fwd, p0) =~= Seq::<Edge>::empty());
            assert(g0_sym.remove_keys(Set::empty()) =~= g0_sym);
            assert(g0_fwd.remove_keys(Set::empty()) =~= g0_fwd);
            assert(g0_rev.dom().difference(Set::empty()) =~= g0_rev.dom());
            assert(g0_cen.dom().difference(Set::empty()) =~= g0_cen.dom());
            assert forall|k| #[trigger] self.reverse_edges@.dom().contains(k) implies self.reverse_edges@[k]@
                == g0_rev[k]@.filter(|e: Edge| !sources_into(removed_edges(g0_fwd, p0), k).contains(e.from@)) by {
                lemma_filter_all(g0_rev[k]@, |e: Edge| !sources_into(removed_edges(g0_fwd, p0), k).contains(e.from@));
            }
        }
        let mut i: usize = 0;
        while i < ids.len()
            invariant
                self.wf(),
                i <= ids@.len(),
                ids@ == owned_ids(*old(self), file@),
                g0_fwd == old(self).forward_edges@,
                g0_rev == old(self).reverse_edges@,
                g0_cen == old(self).centrality@,
                g0_sym == old(self).symbols@,
                self.file_symbols@ == old(self).file_symbols@.remove(file@),
                self.library_imports@ == old(self).library_imports@,
                self.symbols@ == g0_sym.remove_keys(id_set(ids@.subrange(0, i as int))),
                self.forward_edges@ == g0_fwd.remove_keys(id_set(ids@.subrange(0, i as int))),
                self.reverse_edges@.dom() == g0_rev.dom().difference(
                    id_set(ids@.subrange(0, i as int)),
                ),
                forall|k| #[trigger]
                    self.reverse_edges@.dom().contains(k) ==> self.reverse_edges@[k]@
                        == g0_rev[k]@.filter(
                        |e: Edge|
                            !sources_into(removed_edges(g0_fwd, ids@.subrange(0, i as int)), k).contains(
                                e.from@,
                            ),
                    ),
                self.centrality@.dom() == g0_cen.dom().difference(
                    id_set(ids@.subrange(0, i as int)),
                ),
                forall|k| #[trigger]
                    self.centrality@.dom().contains(k) ==> self.centrality@[k] as nat == sat_sub(
                        g0_cen[k] as nat,
                        count_into(removed_edges(g0_fwd, ids@.subrange(0, i as int)), k),
                    ),
            decreases ids@.len() - i,
        {
            let ghost pre = ids@.subrange(0, i as int);
            let ghost pre_set = id_set(pre);
            let ghost dropped = removed_edges(g0_fwd, pre);
            let id = &ids[i];
            proof {
                assert(ids@.subrange(0, i + 1) =~= pre.push(*id));
                lemma_id_set_push(pre, *id);
            }
            self.symbols.remove(id);
            let outgoing = self.forward_edges.remove(id);
            let ghost sym_after = self.symbols@;
            let ghost fwd_after = self.forward_edges@;
            let ghost rev_i = self.reverse_edges@;
            let ghost cen_i = self.centrality@;
            let out: Vec<Edge> = match outgoing {
                Some(out) => out,
                None => Vec::new(),
            };
            proof {
                assert(self.symbols@ =~= g0_sym.remove_keys(pre_set.insert(id@)));
                assert(self.forward_edges@ =~= g0_fwd.remove_keys(pre_set.insert(id@)));
                assert(ids@.subrange(0, i + 1).drop_last() =~= pre);
                if g0_fwd.dom().contains(id@) && !pre_set.contains(id@) {
                    assert(out@ == g0_fwd[id@]@);
                    assert(removed_edges(g0_fwd, ids@.subrange(0, i + 1)) == dropped + out@);
                } else {
                    assert(out@ =~= Seq::<Edge>::empty());
                    assert(removed_edges(g0_fwd, ids@.subrange(0, i + 1)) =~= dropped + out@);
                }
                lemma_filter_all_keys(rev_i, out@.subrange(0, 0));
                assert(out@.subrange(0, 0) =~= Seq::<Edge>::empty());
                assert forall|k| #[trigger] cen_i.dom().contains(k) implies cen_i[k] as nat == sat_sub(
                    cen_i[k] as nat, count_into(out@.subrange(0, 0), k)) by {
                    assert(out@.subrange(0, 0).filter(points_at(k)) =~= Seq::<Edge>::empty()) by {
                        reveal(Seq::filter);
                    }
                }
            }
            let mut j: usize = 0;
            while j < out.len()
                invariant
                    self.wf(),
                    j <= out@.len(),
                    self.symbols@ == sym_after,
                    self.forward_edges@ == fwd_after,
                    self.file_symbols@ == old(self).file_symbols@.remove(file@),
                    self.library_imports@ == old(self).library_imports@,
                    self.reverse_edges@.dom() == rev_i.dom(),
                    forall|k| #[trigger]
                        self.reverse_edges@.dom().contains(k) ==> self.reverse_edges@[k]@
                            == rev_i[k]@.filter(
                            |e: Edge| !sources_into(out@.subrange(0, j as int), k).contains(e.from@),
                        ),
                    self.centrality@.dom() == cen_i.dom(),
                    forall|k| #[trigger]
                        self.centrality@.dom().contains(k) ==> self.centrality@[k] as nat == sat_sub(
                            cen_i[k] as nat,
                            count_into(out@.subrange(0, j as int), k),
                        ),
                decreases out@.len() - j,
            {
                let edge = &out[j];
                let ghost done = out@.subrange(0, j as int);
                proof {
                    assert(out@.subrange(0, j + 1) =~= done.push(*edge));
                }
                let ghost rev_j = self.reverse_edges@;
                let ghost cen_j = self.centrality@;
                match self.reverse_edges.index_of(&edge.to) {
                    Some(r) => {
                        let kept = retain_not_from(self.reverse_edges.value_at(r), &edge.from);
                        self.reverse_edges.set_value_at(r, kept);
                    },
                    None => {},
                }
                match self.centrality.index_of(&edge.to) {
                    Some(c) => {
                        let v = *self.centrality.value_at(c);
                        self.centrality.set_value_at(c, v.saturating_sub(1));
                    },
                    None => {},
                }
                proof {
                    assert(self.reverse_edges@.dom() =~= rev_i.dom());
                    assert(self.centrality@.dom() =~= cen_i.dom());
                    assert forall|k| #[trigger] self.reverse_edges@.dom().contains(k) implies self.reverse_edges@[k]@
                        == rev_i[k]@.filter(|e: Edge| !sources_into(out@.subrange(0, j + 1), k).contains(e.from@)) by {
                        lemma_sources_push(done, *edge, k);
                        let p1 = |e: Edge| !sources_into(done, k).contains(e.from@);
                        let p2 = |e: Edge| !sources_into(out@.subrange(0, j + 1), k).contains(e.from@);
                        if k == edge.to@ {
                            let q = |e: Edge| e.from@ != edge.from@;
                            assert(self.reverse_edges@[k]@ == rev_j[k]@.filter(q));
                            lemma_filter_filter(rev_i[k]@, p1, q);
                            lemma_filter_ext(rev_i[k]@, |e: Edge| p1(e) && q(e), p2);
                        } else {
                            assert(self.reverse_edges@[k] == rev_j[k]);
                            lemma_filter_ext(rev_i[k]@, p1, p2);
                        }
                    }
                    assert forall|k| #[trigger] self.centrality@.dom().contains(k) implies self.centrality@[k] as nat
                        == sat_sub(cen_i[k] as nat, count_into(out@.subrange(0, j + 1), k)) by {
                        lemma_count_push(done, *edge, k);
                        if k == edge.to@ {
                            assert(self.centrality@[k] as nat == sat_sub(cen_j[k] as nat, 1));
                        } else {
                            assert(self.centrality@[k] == cen_j[k]);
                        }
                    }
                }
                j = j + 1;
            }
            let ghost rev_e = self.reverse_edges@;
            let ghost cen_e = self.centrality@;
            self.reverse_edges.remove(id);
            self.centrality.remove(id);
            proof {
                let post = ids@.subrange(0, i + 1);
                assert(out@.subrange(0, out@.len() as int) =~= out@);
                assert(id_set(post) == pre_set.insert(id@));
                assert(self.symbols@ =~= g0_sym.remove_keys(id_set(post)));
                assert(self.forward_edges@ =~= g0_fwd.remove_keys(id_set(post)));
                assert(self.reverse_edges@.dom() =~= g0_rev.dom().difference(id_set(post)));
                assert(self.centrality@.dom() =~= g0_cen.dom().difference(id_set(post)));
                let nd = removed_edges(g0_fwd, post);
                assert(nd == dropped + out@);
                assert forall|k| #[trigger] self.reverse_edges@.dom().contains(k) implies self.reverse_edges@[k]@
                    == g0_rev[k]@.filter(|e: Edge| !sources_into(nd, k).contains(e.from@)) by {
                    assert(rev_i.dom().contains(k));
                    assert(self.reverse_edges@[k] == rev_e[k]);
                    let pa = |e: Edge| !sources_into(dropped, k).contains(e.from@);
                    let pb = |e: Edge| !sources_into(out@, k).contains(e.from@);
                    let pc = |e: Edge| !sources_into(nd, k).contains(e.from@);
                    lemma_sources_add(dropped, out@, k);
                    lemma_filter_filter(g0_rev[k]@, pa, pb);
                    lemma_filter_ext(g0_rev[k]@, |e: Edge| pa(e) && pb(e), pc);
                }
                assert forall|k| #[trigger] self.centrality@.dom().contains(k) implies self.centrality@[k] as nat
                    == sat_sub(g0_cen[k] as nat, count_into(nd, k)) by {
                    assert(cen_i.dom().contains(k));
                    assert(self.centrality@[k] == cen_e[k]);
                    lemma_count_add(dropped, out@, k);
                }
            }
            i = i + 1;
        }
        proof {
            assert(ids@.subrange(0, ids@.len() as int) =~= ids@);
        }
        let mut kept: Vec<LibraryImport> = Vec::new();
        let mut k: usize = 0;
        while k < self.library_imports.len()
            invariant
                k <= self.library_imports@.len(),
                kept@ == self.library_imports@.subrange(0, k as int).filter(
                    |li: LibraryImport| li.file@ != file@,
                ),
            decreases self.library_imports@.len() - k,
        {
            let li = &self.library_imports[k];
            let same = li.file == *file;
            proof {
                reveal_filter_push(
                    self.library_imports@.subrange(0, k as int),
                    *li,
                    |li: LibraryImport| li.file@ != file@,
                );
                assert(self.library_imports@.subrange(0, k + 1) =~= self.library_imports@.subrange(
                    0,
                    k as int,
                ).push(*li));
            }
            if !same {
                kept.push(li.clone());
            }
            k = k + 1;
        }
        assert(self.library_imports@.subrange(0, self.library_imports@.len() as int)
            =~= self.library_imports@);
        self.library_imports = kept;
    }
}

proof fn lemma_id_set_push(ids: Seq<SymbolId>, id: SymbolId)
    ensures
        id_set(ids.push(id)) == id_set(ids).insert(id@),
{
    assert(ids.push(id).map_values(|i: SymbolId| i@) =~= ids.map_values(|i: SymbolId| i@).push(id@));
    ids.map_values(|i: SymbolId| i@).lemma_push_to_set_commute(id@);
}

/// Filtering by a predicate that holds everywhere keeps the sequence.
pub proof fn lemma_filter_all<A>(s: Seq<A>, p: spec_fn(A) -> bool)
    requires
        forall|x: A| #[trigger] p(x),
    ensures
        s.filter(p) == s,
    decreases s.len(),
{
    if s.len() > 0 {
        lemma_filter_all(s.drop_last(), p);
        reveal_filter_push(s.drop_last(), s.last(), p);
        assert(s.drop_last().push(s.last()) =~= s);
    } else {
        assert(s.filter(p) =~= s) by {
            reveal(Seq::filter);
        }
    }
}

proof fn lemma_filter_all_keys(rev: Map<(Seq<char>, Seq<char>, SymbolKind), Vec<Edge>>, none: Seq<Edge>)
    requires
        none.len() == 0,
    ensures
        forall|k| #[trigger] rev.dom().contains(k) ==> rev[k]@ == rev[k]@.filter(
            |e: Edge| !sources_into(none, k).contains(e.from@),
        ),
{
    assert forall|k| #[trigger] rev.dom().contains(k) implies rev[k]@ == rev[k]@.filter(
        |e: Edge| !sources_into(none, k).contains(e.from@),
    ) by {
        lemma_filter_all(rev[k]@, |e: Edge| !sources_into(none, k).contains(e.from@));
    }
}

/// Two filters in a row are one filter by the conjunction.
pub proof fn lemma_filter_filter<A>(s: Seq<A>, p: spec_fn(A) -> bool, q: spec_fn(A) -> bool)
    ensures
        s.filter(p).filter(q) == s.filter(|x: A| p(x) && q(x)),
    decreases s.len(),
{
    let pq = |x: A| p(x) && q(x);
    if s.len() > 0 {
        let t = s.drop_last();
        let x = s.last();
        assert(t.push(x) =~= s);
        lemma_filter_filter(t, p, q);
        reveal_filter_push(t, x, p);
        reveal_filter_push(t, x, pq);
        if p(x) {
            reveal_filter_push(t.filter(p), x, q);
        }
    } else {
        assert(s.filter(p) =~= s) by {
            reveal(Seq::filter);
        }
        assert(s.filter(pq) =~= s) by {
            reveal(Seq::filter);
        }
        assert(s.filter(p).filter(q) =~= s.filter(p)) by {
            reveal(Seq::filter);
        }
    }
}

/// Filters by predicates that agree on every element coincide.
pub proof fn lemma_filter_ext<A>(s: Seq<A>, p: spec_fn(A) -> bool, q: spec_fn(A) -> bool)
    requires
        forall|x: A| #[trigger] p(x) == q(x),
    ensures
        s.filter(p) == s.filter(q),
{
    assert(p =~= q);
}

proof fn lemma_sources_push(es: Seq<Edge>, e: Edge, k: (Seq<char>, Seq<char>, SymbolKind))
    ensures
        sources_into(es.push(e), k) == if e.to@ == k {
            sources_into(es, k).insert(e.from@)
        } else {
            sources_into(es, k)
        },
{
    let t = es.push(e);
    if e.to@ == k {
        assert forall|f| sources_into(t, k).contains(f) == sources_into(es, k).insert(e.from@).contains(f) by {
            if sources_into(t, k).contains(f) {
                let i = choose|i: int| 0 <= i < t.len() && t[i].to@ == k && t[i].from@ == f;
                if i < es.len() {
                    assert(es[i] == t[i]);
                }
            }
            if sources_into(es, k).contains(f) {
                let i = choose|i: int| 0 <= i < es.len() && es[i].to@ == k && es[i].from@ == f;
                assert(t[i] == es[i]);
            }
            if f == e.from@ {
                assert(t[es.len() as int] == e);
            }
        }
        assert(sources_into(t, k) =~= sources_into(es, k).insert(e.from@));
    } else {
        assert forall|f| sources_into(t, k).contains(f) == sources_into(es, k).contains(f) by {
            if sources_into(t, k).contains(f) {
                let i = choose|i: int| 0 <= i < t.len() && t[i].to@ == k && t[i].from@ == f;
                if i < es.len() {
                    assert(es[i] == t[i]);
                }
            }
            if sources_into(es, k).contains(f) {
                let i = choose|i: int| 0 <= i < es.len() && es[i].to@ == k && es[i].from@ == f;
                assert(t[i] == es[i]);
            }
        }
        assert(sources_into(t, k) =~= sources_into(es, k));
    }
}

proof fn lemma_sources_add(a: Seq<Edge>, b: Seq<Edge>, k: (Seq<char>, Seq<char>, SymbolKind))
    ensures
        forall|f| #[trigger] sources_into(a + b, k).contains(f) == (sources_into(a, k).contains(f)
            || sources_into(b, k).contains(f)),
{
    let t = a + b;
    assert forall|f| #[trigger] sources_into(t, k).contains(f) == (sources_into(a, k).contains(f)
        || sources_into(b, k).contains(f)) by {
        if sources_into(t, k).contains(f) {
            let i = choose|i: int| 0 <= i < t.len() && t[i].to@ == k && t[i].from@ == f;
            if i < a.len() {
                assert(a[i] == t[i]);
            } else {
                assert(b[i - a.len()] == t[i]);
            }
        }
        if sources_into(a, k).contains(f) {
            let i = choose|i: int| 0 <= i < a.len() && a[i].to@ == k && a[i].from@ == f;
            assert(t[i] == a[i]);
        }
        if sources_into(b, k).contains(f) {
            let i = choose|i: int| 0 <= i < b.len() && b[i].to@ == k && b[i].from@ == f;
            assert(t[i + a.len()] == b[i]);
        }
    }
}

proof fn lemma_count_push(es: Seq<Edge>, e: Edge, k: (Seq<char>, Seq<char>, SymbolKind))
    ensures
        count_into(es.push(e), k) == count_into(es, k) + if e.to@ == k {
            1nat
        } else {
            0nat
        },
{
    reveal_filter_push(es, e, points_at(k));
}

proof fn lemma_count_add(a: Seq<Edge>, b: Seq<Edge>, k: (Seq<char>, Seq<char>, SymbolKind))
    ensures
        count_into(a + b, k) == count_into(a, k) + count_into(b, k),
{
    Seq::filter_distributes_over_add(a, b, points_at(k));
}

/// The views of the lists a map stores.
pub open spec fn seqs<K, T>(m: Map<K, Vec<T>>) -> Map<K, Seq<T>> {
    m.map_values(|v: Vec<T>| v@)
}

/// Filtering a sequence extended by one element.
pub proof fn reveal_filter_push<A>(s: Seq<A>, x: A, p: spec_fn(A) -> bool)
    ensures
        s.push(x).filter(p) == if p(x) {
            s.filter(p).push(x)
        } else {
            s.filter(p)
        },
{
    assert(s.push(x).drop_last() =~= s);
    reveal(Seq::filter);
}

/// Push `e` onto the edge list stored under `k`, creating it when absent.
pub(crate) fn push_edge_under(m: &mut AssocMap<SymbolId, Vec<Edge>>, k: &SymbolId, e: Edge)
    requires
        old(m).wf(),
    ensures
        final(m).wf(),
        seqs(final(m)@) == seqs(old(m)@).insert(k@, edges_under(old(m)@, k@).push(e)),
{
    match m.index_of(k) {
        Some(i) => {
            let mut list = clone_edges(m.value_at(i));
            list.push(e);
            m.set_value_at(i, list);
            assert(seqs(m@) =~= seqs(old(m)@).insert(k@, edges_under(old(m)@, k@).push(e)));
        },
        None => {
            let mut list: Vec<Edge> = Vec::new();
            list.push(e);
            assert(list@ =~= edges_under(old(m)@, k@).push(e));
            m.insert(k.clone(), list);
            assert(seqs(m@) =~= seqs(old(m)@).insert(k@, edges_under(old(m)@, k@).push(e)));
        },
    }
}

/// The edges of `es` whose `from` differs from `from`.
fn retain_not_from(es: &Vec<Edge>, from: &SymbolId) -> (r: Vec<Edge>)
    ensures
        r@ == es@.filter(|e: Edge| e.from@ != from@),
{
    let mut out: Vec<Edge> = Vec::new();
    let mut k: usize = 0;
    while k < es.len()
        invariant
            k <= es@.len(),
            out@ == es@.subrange(0, k as int).filter(|e: Edge| e.from@ != from@),
        decreases es@.len() - k,
    {
        proof {
            reveal_filter_push(es@.subrange(0, k as int), es@[k as int], |e: Edge| e.from@ != from@);
            assert(es@.subrange(0, k + 1) =~= es@.subrange(0, k as int).push(es@[k as int]));
        }
        if !es[k].from.key_eq(from) {
            out.push(es[k].clone());
        }
        k = k + 1;
    }
    assert(es@.subrange(0, es@.len() as int) =~= es@);
    out
}

// ------------------------------------------------------------------
// Re-attaching the callers of a re-indexed file.
// ------------------------------------------------------------------

/// The edges held under other files' ids in `entries` that point at a
/// symbol of `file` that `syms` holds, in table order.
pub open spec fn stitch_list(
    entries: Seq<(SymbolId, Vec<Edge>)>,
    file: Seq<char>,
    syms: Map<(Seq<char>, Seq<char>, SymbolKind), Symbol>,
) -> Seq<Edge>
    decreases entries.len(),
{
    if entries.len() == 0 {
        Seq::empty()
    } else {
        stitch_list(entries.drop_last(), file, syms) + if entries.last().0.file@ != file {
            entries.last().1@.filter(|e: Edge| attaches(e, file, syms))
        } else {
            Seq::empty()
        }
    }
}

/// `e` points at a symbol of `file` that `syms` holds.
pub open spec fn attaches(e: Edge, file: Seq<char>, syms: Map<(Seq<char>, Seq<char>, SymbolKind), Symbol>) -> bool {
    e.to.file@ == file && syms.dom().contains(e.to@)
}

/// The edges of `es` that point at `k`.
pub open spec fn into_key(es: Seq<Edge>, k: (Seq<char>, Seq<char>, SymbolKind)) -> Seq<Edge> {
    es.filter(|e: Edge| e.to@ == k)
}

/// `b` is `a` with the edges `es` appended, each under its target, to the
/// reverse table; nothing else changes.
pub open spec fn reverse_appended(a: CodeGraph, es: Seq<Edge>, b: CodeGraph) -> bool {
    &&& forall|k| #[trigger] edges_under(b.reverse_edges@, k) == edges_under(a.reverse_edges@, k) + into_key(es, k)
    &&& forall|k| #[trigger] b.reverse_edges@.dom().contains(k) <==> (a.reverse_edges@.dom().contains(k) || into_key(es, k).len() > 0)
    &&& b.symbols@ == a.symbols@
    &&& b.file_symbols@ == a.file_symbols@
    &&& b.forward_edges@ == a.forward_edges@
    &&& b.forward_edges.entry_seq() == a.forward_edges.entry_seq()
    &&& b.centrality@ == a.centrality@
    &&& b.library_imports@ == a.library_imports@
}

/// `b` is `a` with the callers in other files of `file`'s symbols
/// attached again to the reverse table, as
/// [`CodeGraph::restitch_reverse_edges_for_file`] leaves it.
pub open spec fn restitched(a: CodeGraph, file: Seq<char>, b: CodeGraph) -> bool {
    reverse_appended(a, stitch_list(a.forward_edges.entry_seq(), file, a.symbols@), b)
}

impl CodeGraph {
    /// Attach again to the reverse table the edges that other files hold
    /// and that point at a symbol of `file` the graph holds. Removing a file
    /// drops the reverse entries of its symbols while the callers elsewhere
    /// keep their forward edges; after the file is parsed and inserted
    /// again, this lets `callers` find those callers once more. The in-degree
    /// counts are left as they are.
    pub fn restitch_reverse_edges_for_file(&mut self, file: &String)
        requires
            old(self).wf(),
        ensures
            final(self).wf(),
            restitched(*old(self), file@, *final(self)),
    {
        let ghost entries = self.forward_edges.entry_seq();
        let ghost syms = self.symbols@;
        // The edges to attach.
        let mut found: Vec<Edge> = Vec::new();
        let n = self.forward_edges.len();
        let mut i: usize = 0;
        assert(entries.take(0) =~= Seq::<(SymbolId, Vec<Edge>)>::empty());
        while i < n
            invariant
                self.wf(),
                entries == self.forward_edges.entry_seq(),
                syms == self.symbols@,
                n == entries.len(),
                i <= n,
                found@ == stitch_list(entries.take(i as int), file@, syms),
            decreases n - i,
        {
            assert(entries.take(i + 1).drop_last() =~= entries.take(i as int));
            let key = self.forward_edges.key_at(i);
            let es = self.forward_edges.value_at(i);
            let ghost before = found@;
            let ghost pred = |x: Edge| attaches(x, file@, syms);
            if key.file != *file {
                let mut j: usize = 0;
                assert(es@.take(0).filter(pred) =~= Seq::<Edge>::empty());
                while j < es.len()
                    invariant
                        self.wf(),
                        syms == self.symbols@,
                        j <= es@.len(),
                        found@ == before + es@.take(j as int).filter(pred),
                        pred == (|x: Edge| attaches(x, file@, syms)),
                    decreases es@.len() - j,
                {
                    let e = &es[j];
                    proof {
                        reveal_filter_push(es@.take(j as int), es@[j as int], pred);
                        assert(es@.take(j + 1) =~= es@.take(j as int).push(es@[j as int]));
                    }
                    let ghost mid = found@;
                    if e.to.file == *file && self.symbols.contains_key(&e.to) {
                        assert(attaches(es@[j as int], file@, syms));
                        found.push(e.clone());
                        assert(found@ =~= mid.push(es@[j as int]));
                    } else {
                        assert(!attaches(es@[j as int], file@, syms));
                    }
                    assert(pred(es@[j as int]) == attaches(es@[j as int], file@, syms));
                    assert(found@ =~= before + es@.take(j + 1).filter(pred));
                    j = j + 1;
                }
                assert(es@.take(es@.len() as int) =~= es@);
            }
            i = i + 1;
        }
        assert(entries.take(n as int) =~= entries);
        let ghost list = found@;
        let ghost g0 = *self;
        let mut k: usize = 0;
        assert(list.take(0) =~= Seq::<Edge>::empty());
        while k < found.len()
            invariant
                self.wf(),
                list == found@,
                k <= list.len(),
                reverse_appended(g0, list.take(k as int), *self),
            decreases list.len() - k,
        {
            let e = found[k].clone();
            let ghost pre = *self;
            let to = e.to.clone();
            push_edge_under(&mut self.reverse_edges, &to, e);
            proof {
                let t = list.take(k + 1);
                assert(t =~= list.take(k as int).push(list[k as int]));
                assert forall|q| #[trigger] edges_under(self.reverse_edges@, q) == edges_under(g0.reverse_edges@, q) + into_key(t, q) by {
                    reveal_filter_push(list.take(k as int), list[k as int], |x: Edge| x.to@ == q);
                    assert(seqs(self.reverse_edges@).dom() == self.reverse_edges@.dom());
                    assert(seqs(pre.reverse_edges@).dom() == pre.reverse_edges@.dom());
                    if q == to@ {
                        assert(seqs(self.reverse_edges@)[q] == self.reverse_edges@[q]@);
                        assert(edges_under(self.reverse_edges@, q) == edges_under(pre.reverse_edges@, q).push(list[k as int]));
                        assert((edges_under(g0.reverse_edges@, q) + into_key(list.take(k as int), q)).push(list[k as int]) =~= edges_under(
                            g0.reverse_edges@,
                            q,
                        ) + into_key(list.take(k as int), q).push(list[k as int]));
                    } else {
                        if self.reverse_edges@.dom().contains(q) {
                            assert(seqs(self.reverse_edges@)[q] == self.reverse_edges@[q]@);
                            assert(seqs(pre.reverse_edges@)[q] == pre.reverse_edges@[q]@);
                        }
                        assert(edges_under(self.reverse_edges@, q) == edges_under(pre.reverse_edges@, q));
                    }
                }
                assert forall|q| #[trigger] self.reverse_edges@.dom().contains(q) <==> (g0.reverse_edges@.dom().contains(q) || into_key(
                    t,
                    q,
                ).len() > 0) by {
                    reveal_filter_push(list.take(k as int), list[k as int], |x: Edge| x.to@ == q);
                    assert(seqs(self.reverse_edges@).dom() == self.reverse_edges@.dom());
                    assert(seqs(pre.reverse_edges@).dom() == pre.reverse_edges@.dom());
                }
            }
            k = k + 1;
        }
        assert(list.take(list.len() as int) =~= list);
    }
}

} // verus!
