//! The Rust driver.
//!
//! tree-sitter parses the file with its Rust grammar and hands back the
//! tree as a list of plain nodes in preorder (see [`crate::search::syntax`]).
//! What is read from that list is the library's:
//! - `function_item`, `mod_item`, `struct_item`, `enum_item` and
//!   `trait_item` nodes become symbols; a function inside an `impl` block
//!   is a method, and an `async` function is an async function (an async
//!   method stays a method with `is_async` set);
//! - the argument of a `use` declaration becomes an unresolved `Imports`
//!   edge from the file's module when it starts with `crate`, `self` or
//!   `super`, and a library import of its first segment otherwise;
//! - a call whose callee is a name or a path, made inside a function,
//!   becomes an unresolved `Calls` edge from that function to the callee's
//!   last segment, once per caller and callee name.
//!
//! Visibility comes from the `visibility_modifier` child: `pub` alone is
//! exported, `pub(…)` is public, no modifier is private.

use vstd::prelude::*;

use crate::graph::types::{Confidence, Edge, EdgeKind, LibraryImport, Symbol, SymbolId, SymbolKind, Visibility};
use crate::parse::body_hash::body_hash;
use crate::parse::nodes::{
    add_edge, add_symbol, after_kind, after_of_kind, any_reads, children, empty_parse, first_kind, first_of_kind, has_error_node,
    has_text, hash_of_text, ints, kids, kind_is, last_kind, last_of_kind, line_of_row, pair_texts, params_of, parse_view,
    reading_view, row_line, seen_pair, split_params, symbol_view, text_or_empty, text_or_nothing, ParseAcc, ParseView,
    Reading, SymbolView, texts, library_view, EdgeView, LibraryView,
};
use crate::parse::symbols::{render_signature, rendered_signature};
use crate::parse::ParseOutput;
use crate::paths::{file_stem, path_file_stem};
use crate::search::syntax::{
    node_text, node_views, parent_index, parent_of, parse_nodes, syntax_tree, text_of_node, Grammar, NodeView, SyntaxNode,
};
use crate::strings::{chars_of, find_first, first_at, string_of_range, trim, trim_string};

verus! {

broadcast use vstd::string::group_string_axioms;

// ------------------------------------------------------------------
// What the Rust grammar's nodes give.
// ------------------------------------------------------------------

/// The visibility the first telling `visibility_modifier` among `cs`
/// gives: `pub` is exported, `pub(…)` public; private when none tells.
pub open spec fn visibility_in(ns: Seq<NodeView>, src: Seq<char>, cs: Seq<int>) -> Visibility
    decreases cs.len(),
{
    if cs.len() == 0 {
        Visibility::Private
    } else {
        let t = text_or_empty(src, ns[cs[0]]);
        if ns[cs[0]].kind == "visibility_modifier"@ && t == "pub"@ {
            Visibility::Export
        } else if ns[cs[0]].kind == "visibility_modifier"@ && t.len() >= 4 && t.take(4) == "pub("@ {
            Visibility::Public
        } else {
            visibility_in(ns, src, cs.drop_first())
        }
    }
}

/// Node `i` is a method: walking up from it, an `impl_item` comes before
/// any `function_item` or `source_file`.
pub open spec fn method_from(ns: Seq<NodeView>, i: int) -> bool
    decreases i + 1,
{
    match parent_of(ns, i) {
        None => false,
        Some(p) => if 0 <= p < i {
            if ns[p].kind == "impl_item"@ {
                true
            } else if ns[p].kind == "function_item"@ || ns[p].kind == "source_file"@ {
                false
            } else {
                method_from(ns, p)
            }
        } else {
            false
        },
    }
}

/// The nearest `function_item` above node `i`.
pub open spec fn enclosing_fn(ns: Seq<NodeView>, i: int) -> Option<int>
    decreases i + 1,
{
    match parent_of(ns, i) {
        None => None,
        Some(p) => if 0 <= p < i {
            if ns[p].kind == "function_item"@ {
                Some(p)
            } else {
                enclosing_fn(ns, p)
            }
        } else {
            None
        },
    }
}

/// The first segment of a `use` path.
pub open spec fn path_head(t: Seq<char>) -> Seq<char> {
    let k = first_at(t, "::"@, 0);
    if k < 0 {
        t
    } else {
        t.take(k)
    }
}

/// Is node `f` async: does one of its children read `async`?
pub open spec fn fn_is_async(ns: Seq<NodeView>, src: Seq<char>, f: int) -> bool {
    has_text(ns, src, kids(ns, f), "async"@)
}

/// The kind of the function at node `f`.
pub open spec fn fn_kind(ns: Seq<NodeView>, src: Seq<char>, f: int) -> SymbolKind {
    if method_from(ns, f) {
        SymbolKind::Method
    } else if fn_is_async(ns, src, f) {
        SymbolKind::AsyncFunction
    } else {
        SymbolKind::Function
    }
}

/// The symbol a `function_item` at `i` declares, if it has a name.
pub open spec fn function_symbol(path: Seq<char>, src: Seq<char>, ns: Seq<NodeView>, i: int) -> Option<SymbolView> {
    let cs = kids(ns, i);
    match first_kind(ns, cs, "identifier"@) {
        None => None,
        Some(n) => {
            let name = text_or_empty(src, ns[n]);
            let params = match first_kind(ns, cs, "parameters"@) {
                Some(p) => text_or_empty(src, ns[p]),
                None => Seq::empty(),
            };
            let ret = match after_kind(ns, cs, "->"@) {
                Some(p) => Some(trim(text_or_empty(src, ns[p]))),
                None => None,
            };
            if name.len() == 0 {
                None
            } else {
                Some(SymbolView {
                    id: (path, name, fn_kind(ns, src, i)),
                    line_start: row_line(ns[i].start_row),
                    line_end: row_line(ns[i].end_row),
                    signature: rendered_signature(name, params, ret),
                    params: params_of(params),
                    return_type: ret,
                    visibility: visibility_in(ns, src, cs),
                    body_hash: hash_of_text(text_or_empty(src, ns[i])),
                    is_async: fn_is_async(ns, src, i),
                    embedding_id: None,
                })
            }
        },
    }
}

/// The symbol a module, struct, enum or trait at `i` declares, if it has
/// a name.
pub open spec fn simple_symbol(path: Seq<char>, src: Seq<char>, ns: Seq<NodeView>, i: int, kind: SymbolKind) -> Option<SymbolView> {
    let cs = kids(ns, i);
    match first_kind(ns, cs, name_kind(kind)) {
        None => None,
        Some(n) => {
            let name = text_or_empty(src, ns[n]);
            if name.len() == 0 {
                None
            } else {
                Some(SymbolView {
                    id: (path, name, kind),
                    line_start: row_line(ns[i].start_row),
                    line_end: row_line(ns[i].end_row),
                    signature: name,
                    params: Seq::empty(),
                    return_type: None,
                    visibility: visibility_in(ns, src, cs),
                    body_hash: hash_of_text(text_or_empty(src, ns[i])),
                    is_async: false,
                    embedding_id: None,
                })
            }
        },
    }
}

/// The kind of the node naming a declaration of `kind`: an identifier for
/// a module, a type identifier for a type.
pub open spec fn name_kind(kind: SymbolKind) -> Seq<char> {
    if kind == SymbolKind::Module {
        "identifier"@
    } else {
        "type_identifier"@
    }
}

/// The kind of symbol a declaration node of kind `k` declares, other than
/// a function.
pub open spec fn simple_kind(k: Seq<char>) -> Option<SymbolKind> {
    if k == "mod_item"@ {
        Some(SymbolKind::Module)
    } else if k == "struct_item"@ {
        Some(SymbolKind::Struct)
    } else if k == "enum_item"@ {
        Some(SymbolKind::Enum)
    } else if k == "trait_item"@ {
        Some(SymbolKind::Trait)
    } else {
        None
    }
}

/// The callee node of a `call_expression` at `i`: its function when that
/// is a name, the last name of its function when that is a path.
pub open spec fn callee_of(ns: Seq<NodeView>, i: int) -> Option<int> {
    let cs = kids(ns, i);
    if cs.len() == 0 {
        None
    } else if ns[cs[0]].kind == "identifier"@ {
        Some(cs[0])
    } else if ns[cs[0]].kind == "scoped_identifier"@ {
        last_kind(ns, kids(ns, cs[0]), "identifier"@)
    } else {
        None
    }
}

/// Read node `i` of a `use` declaration's argument into `acc`.
pub open spec fn read_use(path: Seq<char>, src: Seq<char>, ns: Seq<NodeView>, a: int, acc: ParseAcc) -> ParseAcc {
    let t = text_or_empty(src, ns[a]);
    let head = path_head(t);
    let line = row_line(ns[a].start_row);
    if t.len() == 0 {
        acc
    } else if head == "crate"@ || head == "self"@ || head == "super"@ {
        let stem = match file_stem(path) {
            Some(s) => s,
            None => Seq::empty(),
        };
        ParseAcc {
            edges: acc.edges.push(
                ((path, stem, SymbolKind::Module), (t, Seq::empty(), SymbolKind::Module), EdgeKind::Imports, line, Confidence::Unresolved),
            ),
            ..acc
        }
    } else {
        ParseAcc { library_imports: acc.library_imports.push((head, Seq::empty(), path, line)), ..acc }
    }
}

/// Read the callee node `c` into `acc`.
pub open spec fn read_call(path: Seq<char>, src: Seq<char>, ns: Seq<NodeView>, c: int, acc: ParseAcc) -> ParseAcc {
    match (node_text(src, ns[c]), enclosing_fn(ns, c)) {
        (Some(callee), Some(f)) => match first_kind(ns, kids(ns, f), "identifier"@) {
            Some(n) => match node_text(src, ns[n]) {
                Some(from) => if callee.len() == 0 || acc.seen.contains((from, callee)) {
                    acc
                } else {
                    ParseAcc {
                        edges: acc.edges.push(
                            (
                                (path, from, fn_kind(ns, src, f)),
                                (path, callee, SymbolKind::Function),
                                EdgeKind::Calls,
                                row_line(ns[c].start_row),
                                Confidence::Unresolved,
                            ),
                        ),
                        seen: acc.seen.push((from, callee)),
                        ..acc
                    }
                },
                None => acc,
            },
            None => acc,
        },
        _ => acc,
    }
}

/// Read node `i` into `acc`.
pub open spec fn read_node(path: Seq<char>, src: Seq<char>, ns: Seq<NodeView>, i: int, acc: ParseAcc) -> ParseAcc {
    let k = ns[i].kind;
    if k == "function_item"@ {
        match function_symbol(path, src, ns, i) {
            Some(s) => ParseAcc { symbols: acc.symbols.push(s), ..acc },
            None => acc,
        }
    } else if simple_kind(k) is Some {
        match simple_symbol(path, src, ns, i, simple_kind(k)->0) {
            Some(s) => ParseAcc { symbols: acc.symbols.push(s), ..acc },
            None => acc,
        }
    } else if k == "use_declaration"@ {
        match after_kind(ns, kids(ns, i), "use"@) {
            Some(a) => read_use(path, src, ns, a, acc),
            None => acc,
        }
    } else if k == "call_expression"@ {
        match callee_of(ns, i) {
            Some(c) => read_call(path, src, ns, c, acc),
            None => acc,
        }
    } else {
        acc
    }
}

/// What the first `n` nodes give.
pub open spec fn read_nodes(path: Seq<char>, src: Seq<char>, ns: Seq<NodeView>, n: int) -> ParseAcc
    decreases n,
{
    if n <= 0 {
        ParseAcc { symbols: Seq::empty(), edges: Seq::empty(), library_imports: Seq::empty(), seen: Seq::empty() }
    } else {
        read_node(path, src, ns, n - 1, read_nodes(path, src, ns, n - 1))
    }
}

/// What the Rust driver reads from the nodes `ns` of `src`, the file at
/// `path`.
pub open spec fn rust_extraction(path: Seq<char>, src: Seq<char>, ns: Seq<NodeView>) -> ParseView {
    let acc = read_nodes(path, src, ns, ns.len() as int);
    ParseView {
        symbols: acc.symbols,
        edges: acc.edges,
        library_imports: acc.library_imports,
        partial_parse: has_error_node(ns),
    }
}

// ------------------------------------------------------------------
// The same, in code.
// ------------------------------------------------------------------

/// Does `t` start with `pub(`?
fn starts_pub_paren(t: &String) -> (r: bool)
    ensures
        r == (t@.len() >= 4 && t@.take(4) == "pub("@),
{
    let cs = chars_of(t.as_str());
    let ok = cs.len() >= 4 && cs[0] == 'p' && cs[1] == 'u' && cs[2] == 'b' && cs[3] == '(';
    proof {
        reveal_strlit("pub(");
        if cs@.len() >= 4 {
            let lit: Seq<char> = "pub("@;
            assert(lit.len() == 4);
            if ok {
                assert(t@.take(4) =~= lit);
            }
            if t@.take(4) == lit {
                assert(t@.take(4)[0] == lit[0]);
                assert(t@.take(4)[1] == lit[1]);
                assert(t@.take(4)[2] == lit[2]);
                assert(t@.take(4)[3] == lit[3]);
            }
        }
    }
    ok
}

/// The visibility `cs` gives.
fn visibility_of(ns: &Vec<SyntaxNode>, source: &str, cs: &Vec<usize>) -> (r: Visibility)
    requires
        forall|p: int| 0 <= p < cs@.len() ==> #[trigger] cs@[p] < ns@.len(),
    ensures
        r == visibility_in(node_views(ns@), source@, ints(cs@)),
{
    let ghost vs = node_views(ns@);
    let ghost all = ints(cs@);
    let pubw = "pub".to_owned();
    let mut p: usize = 0;
    assert(all.skip(0) =~= all);
    while p < cs.len()
        invariant
            vs == node_views(ns@),
            all == ints(cs@),
            pubw@ == "pub"@,
            p <= cs@.len(),
            forall|q: int| 0 <= q < cs@.len() ==> #[trigger] cs@[q] < ns@.len(),
            visibility_in(vs, source@, all) == visibility_in(vs, source@, all.skip(p as int)),
        decreases cs@.len() - p,
    {
        assert(all.skip(p as int)[0] == cs@[p as int] as int);
        let n = &ns[cs[p]];
        if kind_is(n, "visibility_modifier") {
            let t = text_or_nothing(source, n);
            if t == pubw {
                return Visibility::Export;
            } else if starts_pub_paren(&t) {
                return Visibility::Public;
            }
        }
        assert(all.skip(p as int).drop_first() =~= all.skip(p + 1));
        p = p + 1;
    }
    assert(all.skip(p as int) =~= Seq::<int>::empty());
    Visibility::Private
}

/// Is the node at `i` a method?
fn is_method(ns: &Vec<SyntaxNode>, i: usize) -> (r: bool)
    requires
        i < ns@.len(),
    ensures
        r == method_from(node_views(ns@), i as int),
{
    let ghost vs = node_views(ns@);
    let mut j = i;
    loop
        invariant
            vs == node_views(ns@),
            j < ns@.len(),
            method_from(vs, i as int) == method_from(vs, j as int),
        decreases j,
    {
        match parent_index(ns, j) {
            None => {
                return false;
            },
            Some(p) => {
                if kind_is(&ns[p], "impl_item") {
                    return true;
                }
                if kind_is(&ns[p], "function_item") || kind_is(&ns[p], "source_file") {
                    return false;
                }
                j = p;
            },
        }
    }
}

/// The nearest `function_item` above the node at `i`.
fn enclosing_function(ns: &Vec<SyntaxNode>, i: usize) -> (r: Option<usize>)
    requires
        i < ns@.len(),
    ensures
        match r {
            Some(f) => enclosing_fn(node_views(ns@), i as int) == Some(f as int) && f < ns@.len(),
            None => enclosing_fn(node_views(ns@), i as int) is None,
        },
{
    let ghost vs = node_views(ns@);
    let mut j = i;
    loop
        invariant
            vs == node_views(ns@),
            j < ns@.len(),
            enclosing_fn(vs, i as int) == enclosing_fn(vs, j as int),
        decreases j,
    {
        match parent_index(ns, j) {
            None => {
                return None;
            },
            Some(p) => {
                if kind_is(&ns[p], "function_item") {
                    return Some(p);
                }
                j = p;
            },
        }
    }
}

/// The first segment of a `use` path.
fn head_of_path(t: &String) -> (r: String)
    ensures
        r@ == path_head(t@),
{
    let cs = chars_of(t.as_str());
    let sep = chars_of("::");
    match find_first(&cs, &sep) {
        Some(k) => {
            let h = string_of_range(&cs, 0, k);
            assert(h@ =~= t@.take(k as int));
            h
        },
        None => t.clone(),
    }
}

/// The symbol a `function_item` at `i` declares, if it has a name.
fn function_symbol_at(path: &str, source: &str, ns: &Vec<SyntaxNode>, i: usize) -> (r: Option<Symbol>)
    requires
        i < ns@.len(),
    ensures
        match r {
            Some(s) => function_symbol(path@, source@, node_views(ns@), i as int) == Some(symbol_view(s)),
            None => function_symbol(path@, source@, node_views(ns@), i as int) is None,
        },
{
    let ghost vs = node_views(ns@);
    let cs = children(ns, i);
    let n = match first_of_kind(ns, &cs, "identifier") {
        Some(n) => n,
        None => {
            return None;
        },
    };
    let name = text_or_nothing(source, &ns[n]);
    let params = match first_of_kind(ns, &cs, "parameters") {
        Some(p) => text_or_nothing(source, &ns[p]),
        None => String::new(),
    };
    let ret: Option<String> = match after_of_kind(ns, &cs, "->") {
        Some(p) => {
            let t = text_or_nothing(source, &ns[p]);
            Some(trim_string(t.as_str()))
        },
        None => None,
    };
    if chars_of(name.as_str()).len() == 0 {
        return None;
    }
    let is_async = any_reads(ns, source, &cs, "async");
    let kind = if is_method(ns, i) {
        SymbolKind::Method
    } else if is_async {
        SymbolKind::AsyncFunction
    } else {
        SymbolKind::Function
    };
    let signature = match &ret {
        Some(t) => render_signature(name.as_str(), params.as_str(), Some(t.as_str())),
        None => render_signature(name.as_str(), params.as_str(), None),
    };
    let visibility = visibility_of(ns, source, &cs);
    let body = text_or_nothing(source, &ns[i]);
    let sym = Symbol {
        id: SymbolId { file: path.to_owned(), name, kind },
        line_start: line_of_row(ns[i].start_row),
        line_end: line_of_row(ns[i].end_row),
        signature,
        params: split_params(params.as_str()),
        return_type: ret,
        visibility,
        body_hash: body_hash(body.as_str()),
        is_async,
        embedding_id: None,
    };
    assert(symbol_view(sym) == function_symbol(path@, source@, vs, i as int)->0);
    Some(sym)
}

/// The symbol a module, struct, enum or trait at `i` declares, if it has
/// a name.
fn simple_symbol_at(path: &str, source: &str, ns: &Vec<SyntaxNode>, i: usize, kind: SymbolKind) -> (r: Option<Symbol>)
    requires
        i < ns@.len(),
    ensures
        match r {
            Some(s) => simple_symbol(path@, source@, node_views(ns@), i as int, kind) == Some(symbol_view(s)),
            None => simple_symbol(path@, source@, node_views(ns@), i as int, kind) is None,
        },
{
    let ghost vs = node_views(ns@);
    let cs = children(ns, i);
    let key = if kind == SymbolKind::Module {
        "identifier"
    } else {
        "type_identifier"
    };
    let n = match first_of_kind(ns, &cs, key) {
        Some(n) => n,
        None => {
            return None;
        },
    };
    let name = text_or_nothing(source, &ns[n]);
    if chars_of(name.as_str()).len() == 0 {
        return None;
    }
    let signature = name.clone();
    let body = text_or_nothing(source, &ns[i]);
    let sym = Symbol {
        id: SymbolId { file: path.to_owned(), name, kind },
        line_start: line_of_row(ns[i].start_row),
        line_end: line_of_row(ns[i].end_row),
        signature,
        params: Vec::new(),
        return_type: None,
        visibility: visibility_of(ns, source, &cs),
        body_hash: body_hash(body.as_str()),
        is_async: false,
        embedding_id: None,
    };
    assert(texts(sym.params@) =~= Seq::<Seq<char>>::empty());
    assert(symbol_view(sym) == simple_symbol(path@, source@, vs, i as int, kind)->0);
    Some(sym)
}

// ------------------------------------------------------------------
// The walk.
// ------------------------------------------------------------------

/// Read the argument node `a` of a `use` declaration.
fn read_use_at(path: &str, source: &str, ns: &Vec<SyntaxNode>, a: usize, acc: &mut Reading)
    requires
        a < ns@.len(),
    ensures
        reading_view(*final(acc)) == read_use(path@, source@, node_views(ns@), a as int, reading_view(*old(acc))),
{
    let t = text_or_nothing(source, &ns[a]);
    if chars_of(t.as_str()).len() == 0 {
        return;
    }
    let head = head_of_path(&t);
    let line = line_of_row(ns[a].start_row);
    let is_local = head == "crate".to_owned() || head == "self".to_owned() || head == "super".to_owned();
    if is_local {
        let stem = match path_file_stem(path) {
            Some(s) => s,
            None => String::new(),
        };
        let e = Edge {
            from: SymbolId { file: path.to_owned(), name: stem, kind: SymbolKind::Module },
            to: SymbolId { file: t, name: String::new(), kind: SymbolKind::Module },
            kind: EdgeKind::Imports,
            line,
            confidence: Confidence::Unresolved,
        };
        add_edge(acc, e);
    } else {
        let li = LibraryImport { library: head, symbol: String::new(), file: path.to_owned(), line };
        let ghost before = acc.out.library_imports@;
        acc.out.library_imports.push(li);
        assert(acc.out.library_imports@.map_values(|x: LibraryImport| library_view(x)) =~= before.map_values(
            |x: LibraryImport| library_view(x),
        ).push(library_view(li)));
    }
}

/// Read the callee node `c` of a call.
fn read_call_at(path: &str, source: &str, ns: &Vec<SyntaxNode>, c: usize, acc: &mut Reading)
    requires
        c < ns@.len(),
    ensures
        reading_view(*final(acc)) == read_call(path@, source@, node_views(ns@), c as int, reading_view(*old(acc))),
{
    let callee = match text_of_node(source, &ns[c]) {
        Some(t) => t,
        None => {
            return;
        },
    };
    let f = match enclosing_function(ns, c) {
        Some(f) => f,
        None => {
            return;
        },
    };
    let cs = children(ns, f);
    let n = match first_of_kind(ns, &cs, "identifier") {
        Some(n) => n,
        None => {
            return;
        },
    };
    let from = match text_of_node(source, &ns[n]) {
        Some(t) => t,
        None => {
            return;
        },
    };
    if chars_of(callee.as_str()).len() == 0 || seen_pair(&acc.seen, &from, &callee) {
        return;
    }
    let kind = if is_method(ns, f) {
        SymbolKind::Method
    } else if any_reads(ns, source, &cs, "async") {
        SymbolKind::AsyncFunction
    } else {
        SymbolKind::Function
    };
    let e = Edge {
        from: SymbolId { file: path.to_owned(), name: from.clone(), kind },
        to: SymbolId { file: path.to_owned(), name: callee.clone(), kind: SymbolKind::Function },
        kind: EdgeKind::Calls,
        line: line_of_row(ns[c].start_row),
        confidence: Confidence::Unresolved,
    };
    add_edge(acc, e);
    let ghost before = acc.seen@;
    acc.seen.push((from, callee));
    assert(pair_texts(acc.seen@) =~= pair_texts(before).push((from@, callee@)));
}

/// Read node `i`.
fn read_node_at(path: &str, source: &str, ns: &Vec<SyntaxNode>, i: usize, acc: &mut Reading)
    requires
        i < ns@.len(),
    ensures
        reading_view(*final(acc)) == read_node(path@, source@, node_views(ns@), i as int, reading_view(*old(acc))),
{
    let n = &ns[i];
    if kind_is(n, "function_item") {
        match function_symbol_at(path, source, ns, i) {
            Some(s) => add_symbol(acc, s),
            None => {},
        }
    } else if kind_is(n, "mod_item") || kind_is(n, "struct_item") || kind_is(n, "enum_item") || kind_is(n, "trait_item") {
        let kind = if kind_is(n, "mod_item") {
            SymbolKind::Module
        } else if kind_is(n, "struct_item") {
            SymbolKind::Struct
        } else if kind_is(n, "enum_item") {
            SymbolKind::Enum
        } else {
            SymbolKind::Trait
        };
        match simple_symbol_at(path, source, ns, i, kind) {
            Some(s) => add_symbol(acc, s),
            None => {},
        }
    } else if kind_is(n, "use_declaration") {
        let cs = children(ns, i);
        match after_of_kind(ns, &cs, "use") {
            Some(a) => read_use_at(path, source, ns, a, acc),
            None => {},
        }
    } else if kind_is(n, "call_expression") {
        let cs = children(ns, i);
        let callee = if cs.len() == 0 {
            None
        } else if kind_is(&ns[cs[0]], "identifier") {
            Some(cs[0])
        } else if kind_is(&ns[cs[0]], "scoped_identifier") {
            let inner = children(ns, cs[0]);
            last_of_kind(ns, &inner, "identifier")
        } else {
            None
        };
        assert(ints(cs@).len() == cs@.len());
        proof {
            if cs@.len() > 0 {
                assert(ints(cs@)[0] == cs@[0] as int);
            }
        }
        match callee {
            Some(c) => read_call_at(path, source, ns, c, acc),
            None => {},
        }
    }
}

/// Read the Rust file at `path`, holding `source`, from the nodes of its
/// syntax tree in preorder: its functions, methods, structs, enums and
/// traits, the edges of its `use` declarations and calls, its library
/// imports, and whether the tree holds an `ERROR` node.
pub fn extract_nodes(path: &str, source: &str, nodes: &Vec<SyntaxNode>) -> (r: ParseOutput)
    ensures
        parse_view(r) == rust_extraction(path@, source@, node_views(nodes@)),
{
    let ghost vs = node_views(nodes@);
    let mut acc = Reading { out: ParseOutput::default(), seen: Vec::new() };
    let mut error = false;
    let mut i: usize = 0;
    proof {
        assert(reading_view(acc).symbols =~= Seq::<SymbolView>::empty());
        assert(reading_view(acc).edges =~= Seq::<EdgeView>::empty());
        assert(reading_view(acc).library_imports =~= Seq::<LibraryView>::empty());
        assert(reading_view(acc).seen =~= Seq::<(Seq<char>, Seq<char>)>::empty());
    }
    while i < nodes.len()
        invariant
            vs == node_views(nodes@),
            i <= nodes@.len(),
            reading_view(acc) == read_nodes(path@, source@, vs, i as int),
            error == exists|j: int| 0 <= j < i && #[trigger] vs[j].kind == "ERROR"@,
        decreases nodes@.len() - i,
    {
        read_node_at(path, source, nodes, i, &mut acc);
        if kind_is(&nodes[i], "ERROR") {
            error = true;
        }
        i = i + 1;
    }
    acc.out.partial_parse = error;
    acc.out
}

/// Parse the Rust file at `path`, holding `source`: tree-sitter builds its
/// syntax tree and [`extract_nodes`] reads it. When tree-sitter builds no
/// tree, nothing is read and the parse is marked partial.
pub fn extract(path: &str, source: &str) -> (r: ParseOutput)
    ensures
        parse_view(r) == match syntax_tree(source@, Grammar::Rust) {
            Some(ns) => rust_extraction(path@, source@, ns),
            None => empty_parse(true),
        },
{
    match parse_nodes(source, Grammar::Rust) {
        Some(ns) => extract_nodes(path, source, &ns),
        None => {
            let mut out = ParseOutput::default();
            out.partial_parse = true;
            assert(parse_view(out).symbols =~= Seq::<SymbolView>::empty());
            assert(parse_view(out).edges =~= Seq::<EdgeView>::empty());
            assert(parse_view(out).library_imports =~= Seq::<LibraryView>::empty());
            out
        },
    }
}

} // verus!
