//! The TypeScript and JavaScript driver, shared by `.ts`, `.tsx` and the
//! JavaScript family (whose grammar also reads JSX).
//!
//! tree-sitter parses the file and hands back its nodes in preorder; what is
//! read from them is the library's:
//! - function declarations (generators too), class methods and `const` or
//!   `let` bindings of an arrow function or function expression become
//!   functions, async functions or methods, with their parameters and, in
//!   TypeScript, their return type;
//! - classes, interfaces and type aliases become symbols of their kind; an
//!   interface or alias carries its whole declaration as its signature, so a
//!   change of shape shows as a change of signature;
//! - an `import … from "spec"`, and a `require("spec")` call, become an
//!   unresolved `Imports` edge from the file's module to `spec`;
//! - each interface named in a class's `implements` clause becomes an
//!   unresolved `Implements` edge from the class;
//! - a call by name or by member (`a.b()` names `b`) and a JSX element whose
//!   name starts with an uppercase letter (`<Button />`, `<Radix.Button>`)
//!   become an unresolved `Calls` edge from the named function around it,
//!   once per caller and callee name.
//!
//! A declaration directly under `export` is exported, other declarations
//! are private; a method is private when marked `private`, else public.

use vstd::prelude::*;

use crate::graph::types::{Confidence, Edge, EdgeKind, Symbol, SymbolId, SymbolKind, Visibility};
use crate::parse::body_hash::body_hash;
use crate::parse::nodes::{
    add_call, add_edge, add_import, add_symbol, after_kind, after_of_kind, any_error, any_reads, begins_upper, call_added, children,
    drop_leading, empty_reading, first_kind, first_of_kind, has_error_node, has_text, hash_of_text, import_added, ints, kids, kind_is,
    last_kind, last_of_kind, line_of_row, params_of, parent_is, parent_kind, parse_view, reading_view, row_line,
    split_params, starts_upper, strip_leading, symbol_view, text_or_empty, text_or_nothing, texts, unparsed, ParseAcc,
    ParseView, Reading, SymbolView,
};
use crate::parse::symbols::{render_signature, rendered_signature};
use crate::parse::ParseOutput;
use crate::search::syntax::{
    node_text, node_views, parent_index, parent_of, parse_nodes, syntax_tree, text_of_node, Grammar, NodeView, SyntaxNode,
};
use crate::strings::{chars_of, trim, trim_string};

verus! {

broadcast use vstd::string::group_string_axioms;

// ------------------------------------------------------------------
// What the nodes give.
// ------------------------------------------------------------------

/// Function declarations, by kind.
pub open spec fn is_fn_decl(k: Seq<char>) -> bool {
    k == "function_declaration"@ || k == "generator_function_declaration"@
}

/// Nodes of a function value.
pub open spec fn is_fn_value(k: Seq<char>) -> bool {
    k == "arrow_function"@ || k == "function_expression"@
}

/// The function value a `variable_declarator` at `i` binds, if any.
pub open spec fn bound_value(ns: Seq<NodeView>, i: int) -> Option<int> {
    match first_kind(ns, kids(ns, i), "arrow_function"@) {
        Some(v) => Some(v),
        None => first_kind(ns, kids(ns, i), "function_expression"@),
    }
}

/// Does node `i` declare a function: a function declaration, a method, or
/// a binding of a function value?
pub open spec fn declares_fn(ns: Seq<NodeView>, i: int) -> bool {
    let k = ns[i].kind;
    is_fn_decl(k) || k == "method_definition"@ || (k == "variable_declarator"@ && bound_value(ns, i) is Some)
}

/// The node holding the parameters of the function node `i` declares.
pub open spec fn carrier(ns: Seq<NodeView>, i: int) -> int {
    if ns[i].kind == "variable_declarator"@ {
        match bound_value(ns, i) {
            Some(v) => v,
            None => i,
        }
    } else {
        i
    }
}

/// The node naming the function node `i` declares.
pub open spec fn name_node(ns: Seq<NodeView>, i: int) -> Option<int> {
    if ns[i].kind == "method_definition"@ {
        first_kind(ns, kids(ns, i), "property_identifier"@)
    } else {
        first_kind(ns, kids(ns, i), "identifier"@)
    }
}

/// Is the function node `i` declares async?
pub open spec fn fn_async(ns: Seq<NodeView>, src: Seq<char>, i: int) -> bool {
    has_text(ns, src, kids(ns, carrier(ns, i)), "async"@)
}

/// The kind of the function node `i` declares.
pub open spec fn fn_kind(ns: Seq<NodeView>, src: Seq<char>, i: int) -> SymbolKind {
    if ns[i].kind == "method_definition"@ {
        SymbolKind::Method
    } else if fn_async(ns, src, i) {
        SymbolKind::AsyncFunction
    } else {
        SymbolKind::Function
    }
}

/// Is the declaration at `i` exported: directly under `export`, or, for a
/// binding, its declaration is?
pub open spec fn exported(ns: Seq<NodeView>, i: int) -> bool {
    if ns[i].kind == "variable_declarator"@ {
        match parent_of(ns, i) {
            Some(p) => 0 <= p < i && parent_kind(ns, p) == Some("export_statement"@),
            None => false,
        }
    } else {
        parent_kind(ns, i) == Some("export_statement"@)
    }
}

/// The visibility of the declaration at `i`.
pub open spec fn decl_visibility(ns: Seq<NodeView>, src: Seq<char>, i: int) -> Visibility {
    if ns[i].kind == "method_definition"@ {
        if has_text(ns, src, kids(ns, i), "private"@) {
            Visibility::Private
        } else {
            Visibility::Public
        }
    } else if exported(ns, i) {
        Visibility::Export
    } else {
        Visibility::Private
    }
}

/// The return type written after the parameters of node `f`, without its
/// colon.
pub open spec fn return_type_of(ns: Seq<NodeView>, src: Seq<char>, f: int) -> Option<Seq<char>> {
    match after_kind(ns, kids(ns, f), "formal_parameters"@) {
        Some(p) => if ns[p].kind == "type_annotation"@ {
            Some(trim(strip_leading(text_or_empty(src, ns[p]), ':')))
        } else {
            None
        },
        None => None,
    }
}

/// The parameter list text of node `f`.
pub open spec fn params_text(ns: Seq<NodeView>, src: Seq<char>, f: int) -> Seq<char> {
    match first_kind(ns, kids(ns, f), "formal_parameters"@) {
        Some(p) => text_or_empty(src, ns[p]),
        None => Seq::empty(),
    }
}

/// The symbol of the function node `i` declares, if it has a name.
pub open spec fn function_symbol(path: Seq<char>, src: Seq<char>, ns: Seq<NodeView>, i: int) -> Option<SymbolView> {
    match name_node(ns, i) {
        None => None,
        Some(n) => {
            let name = text_or_empty(src, ns[n]);
            let f = carrier(ns, i);
            let params = params_text(ns, src, f);
            let ret = return_type_of(ns, src, f);
            if name.len() == 0 {
                None
            } else {
                Some(SymbolView {
                    id: (path, name, fn_kind(ns, src, i)),
                    line_start: row_line(ns[i].start_row),
                    line_end: row_line(ns[i].end_row),
                    signature: rendered_signature(name, params, ret),
                    params: params_of(params),
                    return_type: ret,
                    visibility: decl_visibility(ns, src, i),
                    body_hash: hash_of_text(text_or_empty(src, ns[i])),
                    is_async: fn_async(ns, src, i),
                    embedding_id: None,
                })
            }
        },
    }
}

/// The kind of symbol a class, interface or type alias node of kind `k`
/// declares.
pub open spec fn type_kind(k: Seq<char>) -> Option<SymbolKind> {
    if k == "class_declaration"@ || k == "abstract_class_declaration"@ {
        Some(SymbolKind::Class)
    } else if k == "interface_declaration"@ {
        Some(SymbolKind::Interface)
    } else if k == "type_alias_declaration"@ {
        Some(SymbolKind::TypeAlias)
    } else {
        None
    }
}

/// The node naming the type declared at `i`: a type identifier, or in
/// JavaScript an identifier.
pub open spec fn type_name_node(ns: Seq<NodeView>, i: int) -> Option<int> {
    match first_kind(ns, kids(ns, i), "type_identifier"@) {
        Some(n) => Some(n),
        None => first_kind(ns, kids(ns, i), "identifier"@),
    }
}

/// The symbol of the type declared at `i` with kind `kind`: a class is
/// signed by its name, an interface or alias by its whole declaration.
pub open spec fn type_symbol(path: Seq<char>, src: Seq<char>, ns: Seq<NodeView>, i: int, kind: SymbolKind) -> Option<SymbolView> {
    match type_name_node(ns, i) {
        None => None,
        Some(n) => {
            let name = text_or_empty(src, ns[n]);
            if name.len() == 0 {
                None
            } else {
                Some(SymbolView {
                    id: (path, name, kind),
                    line_start: row_line(ns[i].start_row),
                    line_end: row_line(ns[i].end_row),
                    signature: if kind == SymbolKind::Class {
                        name
                    } else {
                        trim(text_or_empty(src, ns[i]))
                    },
                    params: Seq::empty(),
                    return_type: None,
                    visibility: decl_visibility(ns, src, i),
                    body_hash: hash_of_text(text_or_empty(src, ns[i])),
                    is_async: false,
                    embedding_id: None,
                })
            }
        },
    }
}

/// The named function around node `i`: the nearest function declaration
/// or method above it, or binding of a function value above it; an
/// anonymous function value is looked through.
pub open spec fn scope_of(ns: Seq<NodeView>, i: int) -> Option<int>
    decreases i + 1,
{
    match parent_of(ns, i) {
        None => None,
        Some(p) => if 0 <= p < i {
            if is_fn_decl(ns[p].kind) || ns[p].kind == "method_definition"@ {
                Some(p)
            } else if is_fn_value(ns[p].kind) && parent_kind(ns, p) == Some("variable_declarator"@) {
                parent_of(ns, p)
            } else {
                scope_of(ns, p)
            }
        } else {
            None
        },
    }
}

/// The text of the string literal `s`: its fragment, or nothing.
pub open spec fn string_value(ns: Seq<NodeView>, src: Seq<char>, s: int) -> Seq<char> {
    match first_kind(ns, kids(ns, s), "string_fragment"@) {
        Some(f) => text_or_empty(src, ns[f]),
        None => Seq::empty(),
    }
}

/// What a use of the callee node `c` found at node `at` adds: a call edge
/// from the named function around `at`.
pub open spec fn read_use_of(path: Seq<char>, src: Seq<char>, ns: Seq<NodeView>, at: int, c: int, acc: ParseAcc) -> ParseAcc {
    match (node_text(src, ns[c]), scope_of(ns, at)) {
        (Some(callee), Some(f)) => if 0 <= f < ns.len() {
            match name_node(ns, f) {
                Some(n) => match node_text(src, ns[n]) {
                    Some(from) => call_added(acc, path, from, fn_kind(ns, src, f), callee, row_line(ns[c].start_row)),
                    None => acc,
                },
                None => acc,
            }
        } else {
            acc
        },
        _ => acc,
    }
}

/// What the `call_expression` at `i` adds: an import for `require("…")`,
/// else a call edge to its callee (a name, or a member's property).
pub open spec fn read_call(path: Seq<char>, src: Seq<char>, ns: Seq<NodeView>, i: int, acc: ParseAcc) -> ParseAcc {
    let cs = kids(ns, i);
    if cs.len() == 0 {
        acc
    } else {
        let f = cs[0];
        if ns[f].kind == "identifier"@ && text_or_empty(src, ns[f]) == "require"@ {
            match first_kind(ns, cs, "arguments"@) {
                Some(a) => match first_kind(ns, kids(ns, a), "string"@) {
                    Some(s) => import_added(acc, path, string_value(ns, src, s), row_line(ns[i].start_row)),
                    None => acc,
                },
                None => acc,
            }
        } else if ns[f].kind == "identifier"@ {
            read_use_of(path, src, ns, i, f, acc)
        } else if ns[f].kind == "member_expression"@ {
            match last_kind(ns, kids(ns, f), "property_identifier"@) {
                Some(c) => read_use_of(path, src, ns, i, c, acc),
                None => acc,
            }
        } else {
            acc
        }
    }
}

/// What the JSX element at `i` adds: a call edge to a component, named
/// by an identifier starting with an uppercase letter or by the property
/// of a member.
pub open spec fn read_jsx(path: Seq<char>, src: Seq<char>, ns: Seq<NodeView>, i: int, acc: ParseAcc) -> ParseAcc {
    match after_kind(ns, kids(ns, i), "<"@) {
        Some(n) => if ns[n].kind == "identifier"@ && starts_upper(text_or_empty(src, ns[n])) {
            read_use_of(path, src, ns, i, n, acc)
        } else if ns[n].kind == "member_expression"@ {
            match last_kind(ns, kids(ns, n), "property_identifier"@) {
                Some(c) => read_use_of(path, src, ns, i, c, acc),
                None => acc,
            }
        } else {
            acc
        },
        None => acc,
    }
}

/// What the `import` statement at `i` adds: an import of its source.
pub open spec fn read_import(path: Seq<char>, src: Seq<char>, ns: Seq<NodeView>, i: int, acc: ParseAcc) -> ParseAcc {
    match first_kind(ns, kids(ns, i), "string"@) {
        Some(s) => import_added(acc, path, string_value(ns, src, s), row_line(ns[i].start_row)),
        None => acc,
    }
}

/// The class whose `implements` clause holds node `i`, if it is one of
/// the clause's types.
pub open spec fn implementer(ns: Seq<NodeView>, i: int) -> Option<int> {
    match parent_of(ns, i) {
        Some(p) => if 0 <= p < i && ns[p].kind == "implements_clause"@ {
            match parent_of(ns, p) {
                Some(q) => if 0 <= q < p && ns[q].kind == "class_heritage"@ {
                    match parent_of(ns, q) {
                        Some(c) => if 0 <= c < q && type_kind(ns[c].kind) == Some(SymbolKind::Class) {
                            Some(c)
                        } else {
                            None
                        },
                        None => None,
                    }
                } else {
                    None
                },
                None => None,
            }
        } else {
            None
        },
        None => None,
    }
}

/// What a type named in a class's `implements` clause at `i` adds: an
/// unresolved `Implements` edge from the class to the interface.
pub open spec fn read_implements(path: Seq<char>, src: Seq<char>, ns: Seq<NodeView>, i: int, acc: ParseAcc) -> ParseAcc {
    match implementer(ns, i) {
        Some(c) => match type_name_node(ns, c) {
            Some(n) => {
                let class = text_or_empty(src, ns[n]);
                let iface = text_or_empty(src, ns[i]);
                if class.len() == 0 || iface.len() == 0 {
                    acc
                } else {
                    ParseAcc {
                        edges: acc.edges.push(
                            (
                                (path, class, SymbolKind::Class),
                                (path, iface, SymbolKind::Interface),
                                EdgeKind::Implements,
                                row_line(ns[i].start_row),
                                Confidence::Unresolved,
                            ),
                        ),
                        ..acc
                    }
                }
            },
            None => acc,
        },
        None => acc,
    }
}

/// What node `i` adds to `acc`.
pub open spec fn read_node(path: Seq<char>, src: Seq<char>, ns: Seq<NodeView>, i: int, acc: ParseAcc) -> ParseAcc {
    let k = ns[i].kind;
    if declares_fn(ns, i) {
        match function_symbol(path, src, ns, i) {
            Some(s) => ParseAcc { symbols: acc.symbols.push(s), ..acc },
            None => acc,
        }
    } else if type_kind(k) is Some {
        match type_symbol(path, src, ns, i, type_kind(k)->0) {
            Some(s) => ParseAcc { symbols: acc.symbols.push(s), ..acc },
            None => acc,
        }
    } else if k == "import_statement"@ {
        read_import(path, src, ns, i, acc)
    } else if k == "call_expression"@ {
        read_call(path, src, ns, i, acc)
    } else if k == "jsx_self_closing_element"@ || k == "jsx_opening_element"@ {
        read_jsx(path, src, ns, i, acc)
    } else if k == "type_identifier"@ {
        read_implements(path, src, ns, i, acc)
    } else {
        acc
    }
}

/// What the first `n` nodes give.
pub open spec fn read_nodes(path: Seq<char>, src: Seq<char>, ns: Seq<NodeView>, n: int) -> ParseAcc
    decreases n,
{
    if n <= 0 {
        ParseAcc { symbols: Seq::empty(), edges: Seq::empty(), library_imports: Seq::empty(), seen: Seq::empty() }
    } else {
        read_node(path, src, ns, n - 1, read_nodes(path, src, ns, n - 1))
    }
}

/// What the driver reads from the nodes `ns` of `src`, the file at `path`.
pub open spec fn ecma_extraction(path: Seq<char>, src: Seq<char>, ns: Seq<NodeView>) -> ParseView {
    let acc = read_nodes(path, src, ns, ns.len() as int);
    ParseView {
        symbols: acc.symbols,
        edges: acc.edges,
        library_imports: acc.library_imports,
        partial_parse: has_error_node(ns),
    }
}

// ------------------------------------------------------------------
// The same, in code.
// ------------------------------------------------------------------

/// The function value the binding at `i` holds, if any.
fn bound_value_at(ns: &Vec<SyntaxNode>, i: usize) -> (r: Option<usize>)
    requires
        i < ns@.len(),
    ensures
        match r {
            Some(v) => bound_value(node_views(ns@), i as int) == Some(v as int) && v < ns@.len(),
            None => bound_value(node_views(ns@), i as int) is None,
        },
{
    let cs = children(ns, i);
    match first_of_kind(ns, &cs, "arrow_function") {
        Some(v) => Some(v),
        None => first_of_kind(ns, &cs, "function_expression"),
    }
}

/// Does node `i` declare a function?
fn declares_fn_at(ns: &Vec<SyntaxNode>, i: usize) -> (r: bool)
    requires
        i < ns@.len(),
    ensures
        r == declares_fn(node_views(ns@), i as int),
{
    let n = &ns[i];
    if kind_is(n, "function_declaration") || kind_is(n, "generator_function_declaration") || kind_is(n, "method_definition") {
        true
    } else if kind_is(n, "variable_declarator") {
        bound_value_at(ns, i).is_some()
    } else {
        false
    }
}

/// The node holding the parameters of the function node `i` declares.
fn carrier_at(ns: &Vec<SyntaxNode>, i: usize) -> (r: usize)
    requires
        i < ns@.len(),
    ensures
        r as int == carrier(node_views(ns@), i as int),
        r < ns@.len(),
{
    if kind_is(&ns[i], "variable_declarator") {
        match bound_value_at(ns, i) {
            Some(v) => v,
            None => i,
        }
    } else {
        i
    }
}

/// The node naming the function node `i` declares.
fn name_node_at(ns: &Vec<SyntaxNode>, i: usize) -> (r: Option<usize>)
    requires
        i < ns@.len(),
    ensures
        match r {
            Some(n) => name_node(node_views(ns@), i as int) == Some(n as int) && n < ns@.len(),
            None => name_node(node_views(ns@), i as int) is None,
        },
{
    let cs = children(ns, i);
    if kind_is(&ns[i], "method_definition") {
        first_of_kind(ns, &cs, "property_identifier")
    } else {
        first_of_kind(ns, &cs, "identifier")
    }
}

/// Whether the function node `i` declares is async.
fn fn_async_at(ns: &Vec<SyntaxNode>, source: &str, i: usize) -> (r: bool)
    requires
        i < ns@.len(),
    ensures
        r == fn_async(node_views(ns@), source@, i as int),
{
    let f = carrier_at(ns, i);
    let cs = children(ns, f);
    any_reads(ns, source, &cs, "async")
}

/// The kind of the function node `i` declares.
fn fn_kind_at(ns: &Vec<SyntaxNode>, source: &str, i: usize) -> (r: SymbolKind)
    requires
        i < ns@.len(),
    ensures
        r == fn_kind(node_views(ns@), source@, i as int),
{
    if kind_is(&ns[i], "method_definition") {
        SymbolKind::Method
    } else if fn_async_at(ns, source, i) {
        SymbolKind::AsyncFunction
    } else {
        SymbolKind::Function
    }
}

/// Whether the declaration at `i` is exported.
fn exported_at(ns: &Vec<SyntaxNode>, i: usize) -> (r: bool)
    requires
        i < ns@.len(),
    ensures
        r == exported(node_views(ns@), i as int),
{
    if kind_is(&ns[i], "variable_declarator") {
        match parent_index(ns, i) {
            Some(p) => parent_is(ns, p, "export_statement"),
            None => false,
        }
    } else {
        parent_is(ns, i, "export_statement")
    }
}

/// The visibility of the declaration at `i`.
fn visibility_at(ns: &Vec<SyntaxNode>, source: &str, i: usize) -> (r: Visibility)
    requires
        i < ns@.len(),
    ensures
        r == decl_visibility(node_views(ns@), source@, i as int),
{
    if kind_is(&ns[i], "method_definition") {
        let cs = children(ns, i);
        if any_reads(ns, source, &cs, "private") {
            Visibility::Private
        } else {
            Visibility::Public
        }
    } else if exported_at(ns, i) {
        Visibility::Export
    } else {
        Visibility::Private
    }
}

/// The return type written after the parameters of node `f`.
fn return_type_at(ns: &Vec<SyntaxNode>, source: &str, f: usize) -> (r: Option<String>)
    requires
        f < ns@.len(),
    ensures
        opt_texts(r) == return_type_of(node_views(ns@), source@, f as int),
{
    let cs = children(ns, f);
    match after_of_kind(ns, &cs, "formal_parameters") {
        Some(p) => if kind_is(&ns[p], "type_annotation") {
            let t = text_or_nothing(source, &ns[p]);
            let u = drop_leading(t.as_str(), ':');
            Some(trim_string(u.as_str()))
        } else {
            None
        },
        None => None,
    }
}

/// An optional string by its value.
pub open spec fn opt_texts(o: Option<String>) -> Option<Seq<char>> {
    match o {
        Some(s) => Some(s@),
        None => None,
    }
}

/// The parameter list text of node `f`.
fn params_text_at(ns: &Vec<SyntaxNode>, source: &str, f: usize) -> (r: String)
    requires
        f < ns@.len(),
    ensures
        r@ == params_text(node_views(ns@), source@, f as int),
{
    let cs = children(ns, f);
    match first_of_kind(ns, &cs, "formal_parameters") {
        Some(p) => text_or_nothing(source, &ns[p]),
        None => String::new(),
    }
}

/// The symbol of the function node `i` declares, if it has a name.
fn function_symbol_at(path: &str, source: &str, ns: &Vec<SyntaxNode>, i: usize) -> (r: Option<Symbol>)
    requires
        i < ns@.len(),
    ensures
        match r {
            Some(s) => function_symbol(path@, source@, node_views(ns@), i as int) == Some(symbol_view(s)),
            None => function_symbol(path@, source@, node_views(ns@), i as int) is None,
        },
{
    let ghost vs = node_views(ns@);
    let n = match name_node_at(ns, i) {
        Some(n) => n,
        None => {
            return None;
        },
    };
    let name = text_or_nothing(source, &ns[n]);
    let f = carrier_at(ns, i);
    let params = params_text_at(ns, source, f);
    let ret = return_type_at(ns, source, f);
    if chars_of(name.as_str()).len() == 0 {
        return None;
    }
    let signature = match &ret {
        Some(t) => render_signature(name.as_str(), params.as_str(), Some(t.as_str())),
        None => render_signature(name.as_str(), params.as_str(), None),
    };
    let kind = fn_kind_at(ns, source, i);
    let is_async = fn_async_at(ns, source, i);
    let visibility = visibility_at(ns, source, i);
    let body = text_or_nothing(source, &ns[i]);
    let sym = Symbol {
        id: SymbolId { file: path.to_owned(), name, kind },
        line_start: line_of_row(ns[i].start_row),
        line_end: line_of_row(ns[i].end_row),
        signature,
        params: split_params(params.as_str()),
        return_type: ret,
        visibility,
        body_hash: body_hash(body.as_str()),
        is_async,
        embedding_id: None,
    };
    assert(symbol_view(sym) == function_symbol(path@, source@, vs, i as int)->0);
    Some(sym)
}

/// The kind of type a node declares.
fn type_kind_of(n: &SyntaxNode) -> (r: Option<SymbolKind>)
    ensures
        r == type_kind(n@.kind),
{
    if kind_is(n, "class_declaration") || kind_is(n, "abstract_class_declaration") {
        Some(SymbolKind::Class)
    } else if kind_is(n, "interface_declaration") {
        Some(SymbolKind::Interface)
    } else if kind_is(n, "type_alias_declaration") {
        Some(SymbolKind::TypeAlias)
    } else {
        None
    }
}

/// The symbol of the type declared at `i` with kind `kind`.
fn type_symbol_at(path: &str, source: &str, ns: &Vec<SyntaxNode>, i: usize, kind: SymbolKind) -> (r: Option<Symbol>)
    requires
        i < ns@.len(),
    ensures
        match r {
            Some(s) => type_symbol(path@, source@, node_views(ns@), i as int, kind) == Some(symbol_view(s)),
            None => type_symbol(path@, source@, node_views(ns@), i as int, kind) is None,
        },
{
    let ghost vs = node_views(ns@);
    let cs = children(ns, i);
    let n = match first_of_kind(ns, &cs, "type_identifier") {
        Some(n) => n,
        None => match first_of_kind(ns, &cs, "identifier") {
            Some(n) => n,
            None => {
                return None;
            },
        },
    };
    let name = text_or_nothing(source, &ns[n]);
    if chars_of(name.as_str()).len() == 0 {
        return None;
    }
    let body = text_or_nothing(source, &ns[i]);
    let signature = if kind == SymbolKind::Class {
        name.clone()
    } else {
        trim_string(body.as_str())
    };
    let sym = Symbol {
        id: SymbolId { file: path.to_owned(), name, kind },
        line_start: line_of_row(ns[i].start_row),
        line_end: line_of_row(ns[i].end_row),
        signature,
        params: Vec::new(),
        return_type: None,
        visibility: visibility_at(ns, source, i),
        body_hash: body_hash(body.as_str()),
        is_async: false,
        embedding_id: None,
    };
    assert(texts(sym.params@) =~= Seq::<Seq<char>>::empty());
    assert(symbol_view(sym) == type_symbol(path@, source@, vs, i as int, kind)->0);
    Some(sym)
}

/// The named function around node `i`.
fn scope_at(ns: &Vec<SyntaxNode>, i: usize) -> (r: Option<usize>)
    requires
        i < ns@.len(),
    ensures
        match r {
            Some(f) => scope_of(node_views(ns@), i as int) == Some(f as int) && f < ns@.len(),
            None => scope_of(node_views(ns@), i as int) is None,
        },
{
    let ghost vs = node_views(ns@);
    let mut j = i;
    loop
        invariant
            vs == node_views(ns@),
            j < ns@.len(),
            scope_of(vs, i as int) == scope_of(vs, j as int),
        decreases j,
    {
        match parent_index(ns, j) {
            None => {
                return None;
            },
            Some(p) => {
                let n = &ns[p];
                if kind_is(n, "function_declaration") || kind_is(n, "generator_function_declaration") || kind_is(
                    n,
                    "method_definition",
                ) {
                    return Some(p);
                }
                if (kind_is(n, "arrow_function") || kind_is(n, "function_expression")) && parent_is(ns, p, "variable_declarator") {
                    return parent_index(ns, p);
                }
                j = p;
            },
        }
    }
}

/// The text of the string literal at `s`.
fn string_value_at(ns: &Vec<SyntaxNode>, source: &str, s: usize) -> (r: String)
    requires
        s < ns@.len(),
    ensures
        r@ == string_value(node_views(ns@), source@, s as int),
{
    let cs = children(ns, s);
    match first_of_kind(ns, &cs, "string_fragment") {
        Some(f) => text_or_nothing(source, &ns[f]),
        None => String::new(),
    }
}

/// Read a use of the callee node `c` found at node `at`.
fn read_use_at(path: &str, source: &str, ns: &Vec<SyntaxNode>, at: usize, c: usize, acc: &mut Reading)
    requires
        at < ns@.len(),
        c < ns@.len(),
    ensures
        reading_view(*final(acc)) == read_use_of(path@, source@, node_views(ns@), at as int, c as int, reading_view(*old(acc))),
{
    let callee = match text_of_node(source, &ns[c]) {
        Some(t) => t,
        None => {
            return;
        },
    };
    let f = match scope_at(ns, at) {
        Some(f) => f,
        None => {
            return;
        },
    };
    let n = match name_node_at(ns, f) {
        Some(n) => n,
        None => {
            return;
        },
    };
    let from = match text_of_node(source, &ns[n]) {
        Some(t) => t,
        None => {
            return;
        },
    };
    let fk = fn_kind_at(ns, source, f);
    add_call(acc, path, from, fk, callee, line_of_row(ns[c].start_row));
}

/// Read the `call_expression` at `i`.
fn read_call_at(path: &str, source: &str, ns: &Vec<SyntaxNode>, i: usize, acc: &mut Reading)
    requires
        i < ns@.len(),
    ensures
        reading_view(*final(acc)) == read_call(path@, source@, node_views(ns@), i as int, reading_view(*old(acc))),
{
    let ghost vs = node_views(ns@);
    let cs = children(ns, i);
    if cs.len() == 0 {
        return;
    }
    assert(ints(cs@)[0] == cs@[0] as int);
    let f = cs[0];
    let req = "require".to_owned();
    if kind_is(&ns[f], "identifier") && text_or_nothing(source, &ns[f]) == req {
        match first_of_kind(ns, &cs, "arguments") {
            Some(a) => {
                let args = children(ns, a);
                match first_of_kind(ns, &args, "string") {
                    Some(s) => {
                        let spec = string_value_at(ns, source, s);
                        add_import(acc, path, spec, line_of_row(ns[i].start_row));
                    },
                    None => {},
                }
            },
            None => {},
        }
    } else if kind_is(&ns[f], "identifier") {
        read_use_at(path, source, ns, i, f, acc);
    } else if kind_is(&ns[f], "member_expression") {
        let inner = children(ns, f);
        match last_of_kind(ns, &inner, "property_identifier") {
            Some(c) => read_use_at(path, source, ns, i, c, acc),
            None => {},
        }
    }
}

/// Read the JSX element at `i`.
fn read_jsx_at(path: &str, source: &str, ns: &Vec<SyntaxNode>, i: usize, acc: &mut Reading)
    requires
        i < ns@.len(),
    ensures
        reading_view(*final(acc)) == read_jsx(path@, source@, node_views(ns@), i as int, reading_view(*old(acc))),
{
    let cs = children(ns, i);
    match after_of_kind(ns, &cs, "<") {
        Some(n) => {
            if kind_is(&ns[n], "identifier") && begins_upper(&text_or_nothing(source, &ns[n])) {
                read_use_at(path, source, ns, i, n, acc);
            } else if kind_is(&ns[n], "member_expression") {
                let inner = children(ns, n);
                match last_of_kind(ns, &inner, "property_identifier") {
                    Some(c) => read_use_at(path, source, ns, i, c, acc),
                    None => {},
                }
            }
        },
        None => {},
    }
}

/// The class whose `implements` clause holds node `i`.
fn implementer_at(ns: &Vec<SyntaxNode>, i: usize) -> (r: Option<usize>)
    requires
        i < ns@.len(),
    ensures
        match r {
            Some(c) => implementer(node_views(ns@), i as int) == Some(c as int) && c < ns@.len(),
            None => implementer(node_views(ns@), i as int) is None,
        },
{
    let p = match parent_index(ns, i) {
        Some(p) => p,
        None => {
            return None;
        },
    };
    if !kind_is(&ns[p], "implements_clause") {
        return None;
    }
    let q = match parent_index(ns, p) {
        Some(q) => q,
        None => {
            return None;
        },
    };
    if !kind_is(&ns[q], "class_heritage") {
        return None;
    }
    let c = match parent_index(ns, q) {
        Some(c) => c,
        None => {
            return None;
        },
    };
    match type_kind_of(&ns[c]) {
        Some(SymbolKind::Class) => Some(c),
        _ => None,
    }
}

/// Read a type named in a class's `implements` clause at `i`.
fn read_implements_at(path: &str, source: &str, ns: &Vec<SyntaxNode>, i: usize, acc: &mut Reading)
    requires
        i < ns@.len(),
    ensures
        reading_view(*final(acc)) == read_implements(path@, source@, node_views(ns@), i as int, reading_view(*old(acc))),
{
    let c = match implementer_at(ns, i) {
        Some(c) => c,
        None => {
            return;
        },
    };
    let cs = children(ns, c);
    let n = match first_of_kind(ns, &cs, "type_identifier") {
        Some(n) => n,
        None => match first_of_kind(ns, &cs, "identifier") {
            Some(n) => n,
            None => {
                return;
            },
        },
    };
    let class = text_or_nothing(source, &ns[n]);
    let iface = text_or_nothing(source, &ns[i]);
    if chars_of(class.as_str()).len() == 0 || chars_of(iface.as_str()).len() == 0 {
        return;
    }
    let e = Edge {
        from: SymbolId { file: path.to_owned(), name: class, kind: SymbolKind::Class },
        to: SymbolId { file: path.to_owned(), name: iface, kind: SymbolKind::Interface },
        kind: EdgeKind::Implements,
        line: line_of_row(ns[i].start_row),
        confidence: Confidence::Unresolved,
    };
    add_edge(acc, e);
}

/// Read node `i`.
fn read_node_at(path: &str, source: &str, ns: &Vec<SyntaxNode>, i: usize, acc: &mut Reading)
    requires
        i < ns@.len(),
    ensures
        reading_view(*final(acc)) == read_node(path@, source@, node_views(ns@), i as int, reading_view(*old(acc))),
{
    let n = &ns[i];
    if declares_fn_at(ns, i) {
        match function_symbol_at(path, source, ns, i) {
            Some(s) => add_symbol(acc, s),
            None => {},
        }
    } else {
        match type_kind_of(n) {
            Some(kind) => {
                match type_symbol_at(path, source, ns, i, kind) {
                    Some(s) => add_symbol(acc, s),
                    None => {},
                }
            },
            None => {
                if kind_is(n, "import_statement") {
                    let cs = children(ns, i);
                    match first_of_kind(ns, &cs, "string") {
                        Some(s) => {
                            let spec = string_value_at(ns, source, s);
                            add_import(acc, path, spec, line_of_row(ns[i].start_row));
                        },
                        None => {},
                    }
                } else if kind_is(n, "call_expression") {
                    read_call_at(path, source, ns, i, acc);
                } else if kind_is(n, "jsx_self_closing_element") || kind_is(n, "jsx_opening_element") {
                    read_jsx_at(path, source, ns, i, acc);
                } else if kind_is(n, "type_identifier") {
                    read_implements_at(path, source, ns, i, acc);
                }
            },
        }
    }
}

/// Read the TypeScript or JavaScript file at `path`, holding `source`,
/// from the nodes of its syntax tree in preorder: its functions, methods,
/// classes, interfaces and type aliases, its imports and calls, and whether
/// the tree holds an `ERROR` node.
pub fn extract_nodes(path: &str, source: &str, nodes: &Vec<SyntaxNode>) -> (r: ParseOutput)
    ensures
        parse_view(r) == ecma_extraction(path@, source@, node_views(nodes@)),
{
    let ghost vs = node_views(nodes@);
    let mut acc = empty_reading();
    let mut i: usize = 0;
    while i < nodes.len()
        invariant
            vs == node_views(nodes@),
            i <= nodes@.len(),
            reading_view(acc) == read_nodes(path@, source@, vs, i as int),
        decreases nodes@.len() - i,
    {
        read_node_at(path, source, nodes, i, &mut acc);
        i = i + 1;
    }
    acc.out.partial_parse = any_error(nodes);
    acc.out
}

/// Parse the file at `path`, holding `source`, with `grammar` (one of
/// TypeScript, TSX and JavaScript): tree-sitter builds its syntax tree and
/// [`extract_nodes`] reads it. When tree-sitter builds no tree, nothing is
/// read and the parse is marked partial.
pub fn extract_with(path: &str, source: &str, grammar: Grammar) -> (r: ParseOutput)
    ensures
        parse_view(r) == match syntax_tree(source@, grammar) {
            Some(ns) => ecma_extraction(path@, source@, ns),
            None => crate::parse::nodes::empty_parse(true),
        },
{
    match parse_nodes(source, grammar) {
        Some(ns) => extract_nodes(path, source, &ns),
        None => unparsed(),
    }
}

} // verus!
