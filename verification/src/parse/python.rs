//! The Python driver.
//!
//! tree-sitter parses the file with its Python grammar and hands back its
//! nodes in preorder; what is read from them is the library's:
//! - `def` (or `async def`) becomes a function, an async function, or,
//!   directly inside a class, a method, with its parameters and return
//!   annotation; `class` becomes a class;
//! - each module of an `import` statement, and the module of a
//!   `from … import`, becomes an unresolved `Imports` edge from the file's
//!   module (relative modules keep their dots, as in `..mid`);
//! - a call by name or by attribute (`a.b()` names `b`) inside a function
//!   becomes an unresolved `Calls` edge from that function, once per caller
//!   and callee name.
//!
//! A name starting with an underscore is private; other methods are public
//! and other functions and classes exported.

use vstd::prelude::*;

use crate::graph::types::{Symbol, SymbolId, SymbolKind, Visibility};
use crate::parse::body_hash::body_hash;
use crate::parse::nodes::{
    add_call, add_import, add_symbol, after_kind, after_of_kind, any_error, any_reads, begins_with, call_added, children,
    empty_parse, empty_reading, first_kind, first_of_kind, has_error_node, has_text, hash_of_text, import_added, ints,
    kids, kind_is, last_kind, last_of_kind, line_of_row, params_of, parent_is, parent_kind, parse_view, reading_view,
    row_line, split_params, starts_with_char, symbol_view, text_or_empty, text_or_nothing, texts, unparsed, ParseAcc,
    ParseView, Reading, SymbolView,
};
use crate::parse::symbols::{render_signature, rendered_signature};
use crate::parse::ParseOutput;
use crate::search::syntax::{
    node_text, node_views, parent_index, parent_of, parse_nodes, syntax_tree, text_of_node, Grammar, NodeView, SyntaxNode,
};
use crate::strings::{chars_of, trim, trim_string};

verus! {

broadcast use vstd::string::group_string_axioms;

// ------------------------------------------------------------------
// What the nodes give.
// ------------------------------------------------------------------

/// Node `i` is a method: walking up from it, a `class_definition` comes
/// before any `function_definition` or `module`.
pub open spec fn in_class(ns: Seq<NodeView>, i: int) -> bool
    decreases i + 1,
{
    match parent_of(ns, i) {
        None => false,
        Some(p) => if 0 <= p < i {
            if ns[p].kind == "class_definition"@ {
                true
            } else if ns[p].kind == "function_definition"@ || ns[p].kind == "module"@ {
                false
            } else {
                in_class(ns, p)
            }
        } else {
            false
        },
    }
}

/// The nearest `function_definition` above node `i`.
pub open spec fn enclosing_def(ns: Seq<NodeView>, i: int) -> Option<int>
    decreases i + 1,
{
    match parent_of(ns, i) {
        None => None,
        Some(p) => if 0 <= p < i {
            if ns[p].kind == "function_definition"@ {
                Some(p)
            } else {
                enclosing_def(ns, p)
            }
        } else {
            None
        },
    }
}

/// Is the function defined at `f` async?
pub open spec fn def_async(ns: Seq<NodeView>, src: Seq<char>, f: int) -> bool {
    has_text(ns, src, kids(ns, f), "async"@)
}

/// The kind of the function defined at `f`.
pub open spec fn def_kind(ns: Seq<NodeView>, src: Seq<char>, f: int) -> SymbolKind {
    if in_class(ns, f) {
        SymbolKind::Method
    } else if def_async(ns, src, f) {
        SymbolKind::AsyncFunction
    } else {
        SymbolKind::Function
    }
}

/// The visibility of `name`: private with a leading underscore, else
/// public for a method and exported otherwise.
pub open spec fn name_visibility(name: Seq<char>, method: bool) -> Visibility {
    if starts_with_char(name, '_') {
        Visibility::Private
    } else if method {
        Visibility::Public
    } else {
        Visibility::Export
    }
}

/// The symbol a `function_definition` at `i` declares, if it has a name.
pub open spec fn def_symbol(path: Seq<char>, src: Seq<char>, ns: Seq<NodeView>, i: int) -> Option<SymbolView> {
    let cs = kids(ns, i);
    match first_kind(ns, cs, "identifier"@) {
        None => None,
        Some(n) => {
            let name = text_or_empty(src, ns[n]);
            let params = match first_kind(ns, cs, "parameters"@) {
                Some(p) => text_or_empty(src, ns[p]),
                None => Seq::empty(),
            };
            let ret = match after_kind(ns, cs, "->"@) {
                Some(p) => Some(trim(text_or_empty(src, ns[p]))),
                None => None,
            };
            if name.len() == 0 {
                None
            } else {
                Some(SymbolView {
                    id: (path, name, def_kind(ns, src, i)),
                    line_start: row_line(ns[i].start_row),
                    line_end: row_line(ns[i].end_row),
                    signature: rendered_signature(name, params, ret),
                    params: params_of(params),
                    return_type: ret,
                    visibility: name_visibility(name, in_class(ns, i)),
                    body_hash: hash_of_text(text_or_empty(src, ns[i])),
                    is_async: def_async(ns, src, i),
                    embedding_id: None,
                })
            }
        },
    }
}

/// The symbol a `class_definition` at `i` declares, if it has a name.
pub open spec fn class_symbol(path: Seq<char>, src: Seq<char>, ns: Seq<NodeView>, i: int) -> Option<SymbolView> {
    match first_kind(ns, kids(ns, i), "identifier"@) {
        None => None,
        Some(n) => {
            let name = text_or_empty(src, ns[n]);
            if name.len() == 0 {
                None
            } else {
                Some(SymbolView {
                    id: (path, name, SymbolKind::Class),
                    line_start: row_line(ns[i].start_row),
                    line_end: row_line(ns[i].end_row),
                    signature: name,
                    params: Seq::empty(),
                    return_type: None,
                    visibility: name_visibility(name, false),
                    body_hash: hash_of_text(text_or_empty(src, ns[i])),
                    is_async: false,
                    embedding_id: None,
                })
            }
        },
    }
}

/// What the `call` at `i` adds: a call edge from the function around it to
/// its callee, a name or an attribute's last name.
pub open spec fn read_call(path: Seq<char>, src: Seq<char>, ns: Seq<NodeView>, i: int, acc: ParseAcc) -> ParseAcc {
    let cs = kids(ns, i);
    let callee = if cs.len() == 0 {
        None
    } else if ns[cs[0]].kind == "identifier"@ {
        Some(cs[0])
    } else if ns[cs[0]].kind == "attribute"@ {
        last_kind(ns, kids(ns, cs[0]), "identifier"@)
    } else {
        None
    };
    match callee {
        Some(c) => match (node_text(src, ns[c]), enclosing_def(ns, i)) {
            (Some(name), Some(f)) => if 0 <= f < ns.len() {
                match first_kind(ns, kids(ns, f), "identifier"@) {
                    Some(n) => match node_text(src, ns[n]) {
                        Some(from) => call_added(acc, path, from, def_kind(ns, src, f), name, row_line(ns[c].start_row)),
                        None => acc,
                    },
                    None => acc,
                }
            } else {
                acc
            },
            _ => acc,
        },
        None => acc,
    }
}

/// The module node an import node `i` names, if it is one: a dotted name
/// or an aliased module directly in an `import` statement, or the module of
/// a `from … import`.
pub open spec fn imported_module(ns: Seq<NodeView>, i: int) -> Option<int> {
    let k = ns[i].kind;
    if k == "dotted_name"@ && parent_kind(ns, i) == Some("import_statement"@) {
        Some(i)
    } else if k == "aliased_import"@ && parent_kind(ns, i) == Some("import_statement"@) {
        first_kind(ns, kids(ns, i), "dotted_name"@)
    } else if k == "import_from_statement"@ {
        after_kind(ns, kids(ns, i), "from"@)
    } else {
        None
    }
}

/// What node `i` adds to `acc`.
pub open spec fn read_node(path: Seq<char>, src: Seq<char>, ns: Seq<NodeView>, i: int, acc: ParseAcc) -> ParseAcc {
    let k = ns[i].kind;
    if k == "function_definition"@ {
        match def_symbol(path, src, ns, i) {
            Some(s) => ParseAcc { symbols: acc.symbols.push(s), ..acc },
            None => acc,
        }
    } else if k == "class_definition"@ {
        match class_symbol(path, src, ns, i) {
            Some(s) => ParseAcc { symbols: acc.symbols.push(s), ..acc },
            None => acc,
        }
    } else if k == "call"@ {
        read_call(path, src, ns, i, acc)
    } else {
        match imported_module(ns, i) {
            Some(m) => import_added(acc, path, text_or_empty(src, ns[m]), row_line(ns[i].start_row)),
            None => acc,
        }
    }
}

/// What the first `n` nodes give.
pub open spec fn read_nodes(path: Seq<char>, src: Seq<char>, ns: Seq<NodeView>, n: int) -> ParseAcc
    decreases n,
{
    if n <= 0 {
        ParseAcc { symbols: Seq::empty(), edges: Seq::empty(), library_imports: Seq::empty(), seen: Seq::empty() }
    } else {
        read_node(path, src, ns, n - 1, read_nodes(path, src, ns, n - 1))
    }
}

/// What the Python driver reads from the nodes `ns` of `src`, the file at
/// `path`.
pub open spec fn python_extraction(path: Seq<char>, src: Seq<char>, ns: Seq<NodeView>) -> ParseView {
    let acc = read_nodes(path, src, ns, ns.len() as int);
    ParseView {
        symbols: acc.symbols,
        edges: acc.edges,
        library_imports: acc.library_imports,
        partial_parse: has_error_node(ns),
    }
}

// ------------------------------------------------------------------
// The same, in code.
// ------------------------------------------------------------------

/// Whether the node at `i` is a method.
fn in_class_at(ns: &Vec<SyntaxNode>, i: usize) -> (r: bool)
    requires
        i < ns@.len(),
    ensures
        r == in_class(node_views(ns@), i as int),
{
    let ghost vs = node_views(ns@);
    let mut j = i;
    loop
        invariant
            vs == node_views(ns@),
            j < ns@.len(),
            in_class(vs, i as int) == in_class(vs, j as int),
        decreases j,
    {
        match parent_index(ns, j) {
            None => {
                return false;
            },
            Some(p) => {
                if kind_is(&ns[p], "class_definition") {
                    return true;
                }
                if kind_is(&ns[p], "function_definition") || kind_is(&ns[p], "module") {
                    return false;
                }
                j = p;
            },
        }
    }
}

/// The nearest `function_definition` above node `i`.
fn enclosing_def_at(ns: &Vec<SyntaxNode>, i: usize) -> (r: Option<usize>)
    requires
        i < ns@.len(),
    ensures
        match r {
            Some(f) => enclosing_def(node_views(ns@), i as int) == Some(f as int) && f < ns@.len(),
            None => enclosing_def(node_views(ns@), i as int) is None,
        },
{
    let ghost vs = node_views(ns@);
    let mut j = i;
    loop
        invariant
            vs == node_views(ns@),
            j < ns@.len(),
            enclosing_def(vs, i as int) == enclosing_def(vs, j as int),
        decreases j,
    {
        match parent_index(ns, j) {
            None => {
                return None;
            },
            Some(p) => {
                if kind_is(&ns[p], "function_definition") {
                    return Some(p);
                }
                j = p;
            },
        }
    }
}

/// The kind of the function defined at `f`.
fn def_kind_at(ns: &Vec<SyntaxNode>, source: &str, f: usize) -> (r: SymbolKind)
    requires
        f < ns@.len(),
    ensures
        r == def_kind(node_views(ns@), source@, f as int),
{
    if in_class_at(ns, f) {
        SymbolKind::Method
    } else {
        let cs = children(ns, f);
        if any_reads(ns, source, &cs, "async") {
            SymbolKind::AsyncFunction
        } else {
            SymbolKind::Function
        }
    }
}

/// The visibility of `name`.
fn visibility_of_name(name: &String, method: bool) -> (r: Visibility)
    ensures
        r == name_visibility(name@, method),
{
    if begins_with(name, '_') {
        Visibility::Private
    } else if method {
        Visibility::Public
    } else {
        Visibility::Export
    }
}

/// The symbol a `function_definition` at `i` declares, if it has a name.
fn def_symbol_at(path: &str, source: &str, ns: &Vec<SyntaxNode>, i: usize) -> (r: Option<Symbol>)
    requires
        i < ns@.len(),
    ensures
        match r {
            Some(s) => def_symbol(path@, source@, node_views(ns@), i as int) == Some(symbol_view(s)),
            None => def_symbol(path@, source@, node_views(ns@), i as int) is None,
        },
{
    let ghost vs = node_views(ns@);
    let cs = children(ns, i);
    let n = match first_of_kind(ns, &cs, "identifier") {
        Some(n) => n,
        None => {
            return None;
        },
    };
    let name = text_or_nothing(source, &ns[n]);
    let params = match first_of_kind(ns, &cs, "parameters") {
        Some(p) => text_or_nothing(source, &ns[p]),
        None => String::new(),
    };
    let ret: Option<String> = match after_of_kind(ns, &cs, "->") {
        Some(p) => {
            let t = text_or_nothing(source, &ns[p]);
            Some(trim_string(t.as_str()))
        },
        None => None,
    };
    if chars_of(name.as_str()).len() == 0 {
        return None;
    }
    let is_async = any_reads(ns, source, &cs, "async");
    let method = in_class_at(ns, i);
    let kind = if method {
        SymbolKind::Method
    } else if is_async {
        SymbolKind::AsyncFunction
    } else {
        SymbolKind::Function
    };
    let signature = match &ret {
        Some(t) => render_signature(name.as_str(), params.as_str(), Some(t.as_str())),
        None => render_signature(name.as_str(), params.as_str(), None),
    };
    let visibility = visibility_of_name(&name, method);
    let body = text_or_nothing(source, &ns[i]);
    let sym = Symbol {
        id: SymbolId { file: path.to_owned(), name, kind },
        line_start: line_of_row(ns[i].start_row),
        line_end: line_of_row(ns[i].end_row),
        signature,
        params: split_params(params.as_str()),
        return_type: ret,
        visibility,
        body_hash: body_hash(body.as_str()),
        is_async,
        embedding_id: None,
    };
    assert(symbol_view(sym) == def_symbol(path@, source@, vs, i as int)->0);
    Some(sym)
}

/// The symbol a `class_definition` at `i` declares, if it has a name.
fn class_symbol_at(path: &str, source: &str, ns: &Vec<SyntaxNode>, i: usize) -> (r: Option<Symbol>)
    requires
        i < ns@.len(),
    ensures
        match r {
            Some(s) => class_symbol(path@, source@, node_views(ns@), i as int) == Some(symbol_view(s)),
            None => class_symbol(path@, source@, node_views(ns@), i as int) is None,
        },
{
    let ghost vs = node_views(ns@);
    let cs = children(ns, i);
    let n = match first_of_kind(ns, &cs, "identifier") {
        Some(n) => n,
        None => {
            return None;
        },
    };
    let name = text_or_nothing(source, &ns[n]);
    if chars_of(name.as_str()).len() == 0 {
        return None;
    }
    let body = text_or_nothing(source, &ns[i]);
    let visibility = visibility_of_name(&name, false);
    let sym = Symbol {
        id: SymbolId { file: path.to_owned(), name: name.clone(), kind: SymbolKind::Class },
        line_start: line_of_row(ns[i].start_row),
        line_end: line_of_row(ns[i].end_row),
        signature: name,
        params: Vec::new(),
        return_type: None,
        visibility,
        body_hash: body_hash(body.as_str()),
        is_async: false,
        embedding_id: None,
    };
    assert(texts(sym.params@) =~= Seq::<Seq<char>>::empty());
    assert(symbol_view(sym) == class_symbol(path@, source@, vs, i as int)->0);
    Some(sym)
}

/// Read the `call` at `i`.
fn read_call_at(path: &str, source: &str, ns: &Vec<SyntaxNode>, i: usize, acc: &mut Reading)
    requires
        i < ns@.len(),
    ensures
        reading_view(*final(acc)) == read_call(path@, source@, node_views(ns@), i as int, reading_view(*old(acc))),
{
    let cs = children(ns, i);
    proof {
        if cs@.len() > 0 {
            assert(ints(cs@)[0] == cs@[0] as int);
        }
    }
    let callee = if cs.len() == 0 {
        None
    } else if kind_is(&ns[cs[0]], "identifier") {
        Some(cs[0])
    } else if kind_is(&ns[cs[0]], "attribute") {
        let inner = children(ns, cs[0]);
        last_of_kind(ns, &inner, "identifier")
    } else {
        None
    };
    let c = match callee {
        Some(c) => c,
        None => {
            return;
        },
    };
    let name = match text_of_node(source, &ns[c]) {
        Some(t) => t,
        None => {
            return;
        },
    };
    let f = match enclosing_def_at(ns, i) {
        Some(f) => f,
        None => {
            return;
        },
    };
    let fcs = children(ns, f);
    let n = match first_of_kind(ns, &fcs, "identifier") {
        Some(n) => n,
        None => {
            return;
        },
    };
    let from = match text_of_node(source, &ns[n]) {
        Some(t) => t,
        None => {
            return;
        },
    };
    let fk = def_kind_at(ns, source, f);
    add_call(acc, path, from, fk, name, line_of_row(ns[c].start_row));
}

/// The module node the import node `i` names, if it is one.
fn imported_module_at(ns: &Vec<SyntaxNode>, i: usize) -> (r: Option<usize>)
    requires
        i < ns@.len(),
    ensures
        match r {
            Some(m) => imported_module(node_views(ns@), i as int) == Some(m as int) && m < ns@.len(),
            None => imported_module(node_views(ns@), i as int) is None,
        },
{
    let n = &ns[i];
    if kind_is(n, "dotted_name") && parent_is(ns, i, "import_statement") {
        Some(i)
    } else if kind_is(n, "aliased_import") && parent_is(ns, i, "import_statement") {
        let cs = children(ns, i);
        first_of_kind(ns, &cs, "dotted_name")
    } else if kind_is(n, "import_from_statement") {
        let cs = children(ns, i);
        after_of_kind(ns, &cs, "from")
    } else {
        None
    }
}

/// Read node `i`.
fn read_node_at(path: &str, source: &str, ns: &Vec<SyntaxNode>, i: usize, acc: &mut Reading)
    requires
        i < ns@.len(),
    ensures
        reading_view(*final(acc)) == read_node(path@, source@, node_views(ns@), i as int, reading_view(*old(acc))),
{
    let n = &ns[i];
    if kind_is(n, "function_definition") {
        match def_symbol_at(path, source, ns, i) {
            Some(s) => add_symbol(acc, s),
            None => {},
        }
    } else if kind_is(n, "class_definition") {
        match class_symbol_at(path, source, ns, i) {
            Some(s) => add_symbol(acc, s),
            None => {},
        }
    } else if kind_is(n, "call") {
        read_call_at(path, source, ns, i, acc);
    } else {
        match imported_module_at(ns, i) {
            Some(m) => {
                let spec = text_or_nothing(source, &ns[m]);
                add_import(acc, path, spec, line_of_row(ns[i].start_row));
            },
            None => {},
        }
    }
}

/// Read the Python file at `path`, holding `source`, from the nodes of its
/// syntax tree in preorder: its functions, methods and classes, its imports
/// and calls, and whether the tree holds an `ERROR` node.
pub fn extract_nodes(path: &str, source: &str, nodes: &Vec<SyntaxNode>) -> (r: ParseOutput)
    ensures
        parse_view(r) == python_extraction(path@, source@, node_views(nodes@)),
{
    let ghost vs = node_views(nodes@);
    let mut acc = empty_reading();
    let mut i: usize = 0;
    while i < nodes.len()
        invariant
            vs == node_views(nodes@),
            i <= nodes@.len(),
            reading_view(acc) == read_nodes(path@, source@, vs, i as int),
        decreases nodes@.len() - i,
    {
        read_node_at(path, source, nodes, i, &mut acc);
        i = i + 1;
    }
    acc.out.partial_parse = any_error(nodes);
    acc.out
}

/// Parse the Python file at `path`, holding `source`: tree-sitter builds its
/// syntax tree and [`extract_nodes`] reads it. When tree-sitter builds no
/// tree, nothing is read and the parse is marked partial.
pub fn extract(path: &str, source: &str) -> (r: ParseOutput)
    ensures
        parse_view(r) == match syntax_tree(source@, Grammar::Python) {
            Some(ns) => python_extraction(path@, source@, ns),
            None => empty_parse(true),
        },
{
    match parse_nodes(source, Grammar::Python) {
        Some(ns) => extract_nodes(path, source, &ns),
        None => unparsed(),
    }
}

} // verus!
