//! The statement that encloses a call, found in the file's syntax tree.
//! tree-sitter parses the file; its tree comes back as a list of plain
//! nodes in preorder, each with its depth, rows and byte range. The search
//! over that list, and the text it yields, are the library's: among the
//! calls starting on the call's row that the search descends to, the one
//! starting last; then its nearest ancestor of a statement kind, at most
//! sixteen steps up; then that node's text, capped to twenty lines. When
//! no statement is found, the lines around the call stand in for it.

use vstd::prelude::*;

use tree_sitter::Parser;
use tree_sitter_javascript::LANGUAGE as JAVASCRIPT;
use tree_sitter_python::LANGUAGE as PYTHON;
use tree_sitter_rust::LANGUAGE as RUST;
use tree_sitter_typescript::{LANGUAGE_TSX, LANGUAGE_TYPESCRIPT};

use crate::paths::{extension, path_extension};
use crate::runner::parse::utf8_text;
use crate::search::context_extract::{cap_lines, capped_lines, line_window, line_window_fallback, row_of};
use vstd::utf8::{decode_utf8, encode_utf8, valid_utf8};

verus! {

broadcast use vstd::string::group_string_axioms;

/// The grammars a call's enclosing statement is looked for with.
#[derive(Debug, Clone, Copy, PartialEq, Eq, Structural)]
pub enum Grammar {
    Rust,
    Python,
    TypeScript,
    Tsx,
    JavaScript,
}

/// The grammar for a file extension.
pub open spec fn grammar_of_extension(e: Seq<char>) -> Option<Grammar> {
    if e == "rs"@ {
        Some(Grammar::Rust)
    } else if e == "py"@ {
        Some(Grammar::Python)
    } else if e == "ts"@ {
        Some(Grammar::TypeScript)
    } else if e == "tsx"@ {
        Some(Grammar::Tsx)
    } else if e == "js"@ || e == "jsx"@ || e == "mjs"@ || e == "cjs"@ {
        Some(Grammar::JavaScript)
    } else {
        None
    }
}

/// The grammar for a path, by its extension.
pub open spec fn grammar_of(p: Seq<char>) -> Option<Grammar> {
    match extension(p) {
        Some(e) => grammar_of_extension(e),
        None => None,
    }
}

/// The grammar `path` is read with, by its extension.
pub fn grammar_for(path: &str) -> (r: Option<Grammar>)
    ensures
        r == grammar_of(path@),
{
    let ext = match path_extension(path) {
        Some(e) => e,
        None => {
            return None;
        },
    };
    let eq = |t: &str| -> (b: bool)
        ensures
            b == (ext@ == t@),
        {
            let lit = t.to_owned();
            ext == lit
        };
    if eq("rs") {
        Some(Grammar::Rust)
    } else if eq("py") {
        Some(Grammar::Python)
    } else if eq("ts") {
        Some(Grammar::TypeScript)
    } else if eq("tsx") {
        Some(Grammar::Tsx)
    } else if eq("js") || eq("jsx") || eq("mjs") || eq("cjs") {
        Some(Grammar::JavaScript)
    } else {
        None
    }
}

/// One node of a syntax tree.
#[derive(Debug)]
pub struct SyntaxNode {
    /// The node's type, as the grammar names it.
    pub kind: String,
    /// How many ancestors the node has.
    pub depth: u32,
    /// First and last rows the node covers, counted from 0.
    pub start_row: usize,
    pub end_row: usize,
    /// The node's byte range in the source.
    pub start_byte: usize,
    pub end_byte: usize,
}

/// Abstract value of a [`SyntaxNode`].
pub struct NodeView {
    pub kind: Seq<char>,
    pub depth: u32,
    pub start_row: usize,
    pub end_row: usize,
    pub start_byte: usize,
    pub end_byte: usize,
}

impl View for SyntaxNode {
    type V = NodeView;

    open spec fn view(&self) -> NodeView {
        NodeView {
            kind: self.kind@,
            depth: self.depth,
            start_row: self.start_row,
            end_row: self.end_row,
            start_byte: self.start_byte,
            end_byte: self.end_byte,
        }
    }
}

/// The views of a list of nodes.
pub open spec fn node_views(ns: Seq<SyntaxNode>) -> Seq<NodeView> {
    ns.map_values(|n: SyntaxNode| n@)
}

/// The nodes of the tree tree-sitter builds for `source` with `grammar`,
/// in preorder; `None` when it builds none.
pub uninterp spec fn syntax_tree(source: Seq<char>, grammar: Grammar) -> Option<Seq<NodeView>>;

/// Parses `source` with a `tree_sitter::Parser` set to `grammar`'s language
/// and lists the nodes of the tree by walking it with a `TreeCursor` in
/// preorder; the result is `syntax_tree` of the text and the grammar.
#[verifier::external_body]
pub(crate) fn parse_nodes(source: &str, grammar: Grammar) -> (r: Option<Vec<SyntaxNode>>)
    ensures
        match r {
            Some(ns) => syntax_tree(source@, grammar) == Some(node_views(ns@)),
            None => syntax_tree(source@, grammar) is None,
        },
{
    let langs = [RUST, PYTHON, LANGUAGE_TYPESCRIPT, LANGUAGE_TSX, JAVASCRIPT];
    let mut parser = Parser::new();
    parser.set_language(&langs[grammar as usize].into()).ok()?;
    let tree = parser.parse(source, None)?;
    let (mut c, mut out) = (tree.walk(), Vec::new());
    loop {
        let n = c.node();
        out.push(SyntaxNode { kind: n.kind().to_owned(), depth: c.depth(), start_row: n.start_position().row, end_row: n.end_position().row, start_byte: n.start_byte(), end_byte: n.end_byte() });
        if c.goto_first_child() { continue; }
        while !c.goto_next_sibling() { if !c.goto_parent() { return Some(out); } }
    }
}

/// The nearest node before `j + 1` one level above node `i`: its parent
/// in a preorder list.
pub open spec fn parent_from(ns: Seq<NodeView>, i: int, j: int) -> Option<int>
    decreases j + 1,
{
    if j < 0 {
        None
    } else if ns[j].depth + 1 == ns[i].depth {
        Some(j)
    } else {
        parent_from(ns, i, j - 1)
    }
}

/// The parent of node `i`.
pub open spec fn parent_of(ns: Seq<NodeView>, i: int) -> Option<int> {
    parent_from(ns, i, i - 1)
}

/// Node `n` covers row `row`.
pub open spec fn spans(n: NodeView, row: int) -> bool {
    n.start_row <= row <= n.end_row
}

/// The search for calls on `row` reaches node `i`: it is the root, or it
/// covers the row and its parent is reached.
pub open spec fn reached(ns: Seq<NodeView>, row: int, i: int) -> bool
    decreases i + 1,
{
    match parent_of(ns, i) {
        None => true,
        Some(p) => if 0 <= p < i {
            spans(ns[i], row) && reached(ns, row, p)
        } else {
            false
        },
    }
}

/// A node type of a call.
pub open spec fn is_call_kind(k: Seq<char>) -> bool {
    k == "call_expression"@ || k == "call"@ || k == "macro_invocation"@
}

/// Node `i` is a call starting on `row` that the search reaches.
pub open spec fn call_candidate(ns: Seq<NodeView>, row: int, i: int) -> bool {
    &&& is_call_kind(ns[i].kind)
    &&& ns[i].start_row == row
    &&& reached(ns, row, i)
}

/// Among the first `k` nodes, the call candidate starting last; of those
/// starting at the same byte, the first.
pub open spec fn latest_call(ns: Seq<NodeView>, row: int, k: int) -> Option<int>
    decreases k,
{
    if k <= 0 {
        None
    } else {
        let b = latest_call(ns, row, k - 1);
        if call_candidate(ns, row, k - 1) && (b is None || ns[k - 1].start_byte > ns[b->0].start_byte) {
            Some(k - 1)
        } else {
            b
        }
    }
}

/// The node types that count as statements in `g`.
pub open spec fn statement_kinds(g: Grammar) -> Seq<Seq<char>> {
    match g {
        Grammar::Rust => seq![
            "let_declaration"@,
            "expression_statement"@,
            "return_expression"@,
            "macro_invocation"@,
            "assignment_expression"@,
            "if_expression"@,
            "for_expression"@,
            "match_expression"@,
            "while_expression"@,
            "loop_expression"@,
            "unsafe_block"@,
            "try_block"@,
        ],
        Grammar::Python => seq!["expression_statement"@, "assignment"@, "return_statement"@, "if_statement"@],
        _ => seq![
            "lexical_declaration"@,
            "expression_statement"@,
            "return_statement"@,
            "assignment_expression"@,
            "variable_declaration"@,
        ],
    }
}

/// Most steps taken up from a call towards its statement.
pub const MAX_ANCESTOR_HOPS: u32 = 16;

/// The first of node `i` and its ancestors, looking at most `hops` nodes,
/// whose type is one of `kinds`.
pub open spec fn statement_from(ns: Seq<NodeView>, kinds: Seq<Seq<char>>, i: int, hops: nat) -> Option<int>
    decreases hops,
{
    if hops == 0 {
        None
    } else if kinds.contains(ns[i].kind) {
        Some(i)
    } else {
        match parent_of(ns, i) {
            Some(p) => statement_from(ns, kinds, p, (hops - 1) as nat),
            None => None,
        }
    }
}

/// The text of node `n` in `source`, when its byte range lies in the
/// source and holds valid UTF-8.
pub open spec fn node_text(source: Seq<char>, n: NodeView) -> Option<Seq<char>> {
    let b = encode_utf8(source);
    if n.start_byte <= n.end_byte <= b.len() && valid_utf8(b.subrange(n.start_byte as int, n.end_byte as int)) {
        Some(decode_utf8(b.subrange(n.start_byte as int, n.end_byte as int)))
    } else {
        None
    }
}

/// The text of the statement enclosing the call at the 1-based `line`, as
/// found in the nodes `ns` of `source`.
pub open spec fn statement_found(ns: Seq<NodeView>, source: Seq<char>, g: Grammar, line: u32) -> Option<Seq<char>> {
    match latest_call(ns, row_of(line), ns.len() as int) {
        None => None,
        Some(c) => match statement_from(ns, statement_kinds(g), c, MAX_ANCESTOR_HOPS as nat) {
            None => None,
            Some(s) => node_text(source, ns[s]),
        },
    }
}

/// The context shown for the call at `line`: its statement's first twenty
/// lines, or the lines around the call when no statement is found.
pub open spec fn statement_context(ns: Seq<NodeView>, source: Seq<char>, g: Grammar, line: u32) -> Seq<char> {
    match statement_found(ns, source, g, line) {
        Some(t) => capped_lines(t),
        None => line_window(source, line, 1),
    }
}

/// The context of the call at `line` of the file `path` holding `source`;
/// `None` when no grammar reads the file or tree-sitter builds no tree.
pub open spec fn enclosing(path: Seq<char>, source: Seq<char>, line: u32) -> Option<Seq<char>> {
    match grammar_of(path) {
        None => None,
        Some(g) => match syntax_tree(source, g) {
            None => None,
            Some(ns) => Some(statement_context(ns, source, g, line)),
        },
    }
}

/// The parent of node `i`, if any.
pub(crate) fn parent_index(ns: &Vec<SyntaxNode>, i: usize) -> (r: Option<usize>)
    requires
        i < ns@.len(),
    ensures
        match r {
            Some(p) => parent_of(node_views(ns@), i as int) == Some(p as int) && p < i,
            None => parent_of(node_views(ns@), i as int) is None,
        },
{
    let ghost vs = node_views(ns@);
    let d = ns[i].depth;
    let mut j = i;
    while j > 0
        invariant
            j <= i < ns@.len(),
            vs == node_views(ns@),
            d == vs[i as int].depth,
            parent_of(vs, i as int) == parent_from(vs, i as int, j - 1),
        decreases j,
    {
        if d > 0 && ns[j - 1].depth == d - 1 {
            assert(vs[j - 1].depth + 1 == vs[i as int].depth);
            return Some(j - 1);
        }
        assert(vs[j - 1].depth + 1 != vs[i as int].depth);
        j = j - 1;
    }
    None
}

/// Whether the search for calls on `row` reaches node `i`.
fn is_reached(ns: &Vec<SyntaxNode>, row: usize, i: usize) -> (r: bool)
    requires
        i < ns@.len(),
    ensures
        r == reached(node_views(ns@), row as int, i as int),
    decreases i,
{
    match parent_index(ns, i) {
        None => true,
        Some(p) => {
            let n = &ns[i];
            n.start_row <= row && row <= n.end_row && is_reached(ns, row, p)
        },
    }
}

/// Whether `k` names a call.
fn call_kind(k: &str) -> (r: bool)
    ensures
        r == is_call_kind(k@),
{
    let s = k.to_owned();
    s == "call_expression".to_owned() || s == "call".to_owned() || s == "macro_invocation".to_owned()
}

/// The call starting on `row` that starts last, among those the search reaches.
fn deepest_call_at_row(ns: &Vec<SyntaxNode>, row: usize) -> (r: Option<usize>)
    ensures
        match r {
            Some(c) => latest_call(node_views(ns@), row as int, ns@.len() as int) == Some(c as int) && c < ns@.len(),
            None => latest_call(node_views(ns@), row as int, ns@.len() as int) is None,
        },
{
    let ghost vs = node_views(ns@);
    let mut best: Option<usize> = None;
    let mut k: usize = 0;
    while k < ns.len()
        invariant
            k <= ns@.len(),
            vs == node_views(ns@),
            match best {
                Some(c) => latest_call(vs, row as int, k as int) == Some(c as int) && c < k,
                None => latest_call(vs, row as int, k as int) is None,
            },
        decreases ns@.len() - k,
    {
        let n = &ns[k];
        let later = match best {
            None => true,
            Some(c) => n.start_byte > ns[c].start_byte,
        };
        if later && n.start_row == row && call_kind(n.kind.as_str()) && is_reached(ns, row, k) {
            best = Some(k);
        }
        k = k + 1;
    }
    best
}

/// Whether `k` is one of the statement kinds of `g`.
fn is_statement_kind(g: Grammar, k: &str) -> (r: bool)
    ensures
        r == statement_kinds(g).contains(k@),
{
    let s = k.to_owned();
    let kinds: Vec<&str> = match g {
        Grammar::Rust => vec![
            "let_declaration",
            "expression_statement",
            "return_expression",
            "macro_invocation",
            "assignment_expression",
            "if_expression",
            "for_expression",
            "match_expression",
            "while_expression",
            "loop_expression",
            "unsafe_block",
            "try_block",
        ],
        Grammar::Python => vec!["expression_statement", "assignment", "return_statement", "if_statement"],
        _ => vec![
            "lexical_declaration",
            "expression_statement",
            "return_statement",
            "assignment_expression",
            "variable_declaration",
        ],
    };
    let ghost want = statement_kinds(g);
    proof {
        assert(kinds@.map_values(|t: &str| t@) =~= want);
    }
    let mut i: usize = 0;
    while i < kinds.len()
        invariant
            i <= kinds@.len(),
            kinds@.map_values(|t: &str| t@) == want,
            s@ == k@,
            want == statement_kinds(g),
            forall|j: int| 0 <= j < i ==> want[j] != s@,
        decreases kinds@.len() - i,
    {
        let t = kinds[i].to_owned();
        assert(want[i as int] == kinds@[i as int]@);
        if t == s {
            assert(want[i as int] == k@);
            assert(want.contains(k@));
            return true;
        }
        i = i + 1;
    }
    assert(!want.contains(k@)) by {
        if want.contains(k@) {
            let j = choose|j: int| 0 <= j < want.len() && want[j] == k@;
            assert(want[j] != s@);
        }
    }
    false
}

/// The first of node `i` and its ancestors, looking at most `hops` nodes,
/// of a statement kind of `g`.
fn climb_to_statement(ns: &Vec<SyntaxNode>, g: Grammar, i: usize, hops: u32) -> (r: Option<usize>)
    requires
        i < ns@.len(),
    ensures
        match r {
            Some(s) => statement_from(node_views(ns@), statement_kinds(g), i as int, hops as nat) == Some(s as int) && s < ns@.len(),
            None => statement_from(node_views(ns@), statement_kinds(g), i as int, hops as nat) is None,
        },
    decreases hops,
{
    if hops == 0 {
        return None;
    }
    if is_statement_kind(g, ns[i].kind.as_str()) {
        return Some(i);
    }
    match parent_index(ns, i) {
        Some(p) => climb_to_statement(ns, g, p, hops - 1),
        None => None,
    }
}

/// The text of node `n` in `source`.
pub(crate) fn text_of_node(source: &str, n: &SyntaxNode) -> (r: Option<String>)
    ensures
        match r {
            Some(t) => node_text(source@, n@) == Some(t@),
            None => node_text(source@, n@) is None,
        },
{
    let bytes = source.as_bytes();
    assert(bytes@ == encode_utf8(source@));
    if n.start_byte > n.end_byte || n.end_byte > bytes.len() {
        return None;
    }
    let part = vstd::slice::slice_subrange(bytes, n.start_byte, n.end_byte);
    match utf8_text(part) {
        Some(t) => Some(t.to_owned()),
        None => None,
    }
}

/// The context of the call at the 1-based `line` of `source`, from the
/// nodes `nodes` of its syntax tree in preorder: the text of the call's
/// enclosing statement, at most twenty lines of it, or the lines around
/// the call when no statement is found.
pub fn statement_in(nodes: &Vec<SyntaxNode>, source: &str, grammar: Grammar, line: u32) -> (r: String)
    ensures
        r@ == statement_context(node_views(nodes@), source@, grammar, line),
{
    let row: usize = if line >= 1 {
        (line - 1) as usize
    } else {
        0
    };
    let found = match deepest_call_at_row(nodes, row) {
        None => None,
        Some(c) => match climb_to_statement(nodes, grammar, c, MAX_ANCESTOR_HOPS) {
            None => None,
            Some(s) => text_of_node(source, &nodes[s]),
        },
    };
    match found {
        Some(t) => cap_lines(t.as_str()),
        None => line_window_fallback(source, line, 1),
    }
}

/// The context of the call at the 1-based `line` of the file `path`
/// holding `source`: see [`statement_in`]. `None` when no grammar reads
/// the file or tree-sitter builds no tree for it.
pub fn enclosing_statement(path: &str, source: &str, line: u32) -> (r: Option<String>)
    ensures
        match r {
            Some(t) => enclosing(path@, source@, line) == Some(t@),
            None => enclosing(path@, source@, line) is None,
        },
{
    let grammar = match grammar_for(path) {
        Some(g) => g,
        None => {
            return None;
        },
    };
    match parse_nodes(source, grammar) {
        Some(nodes) => Some(statement_in(&nodes, source, grammar, line)),
        None => None,
    }
}

} // verus!
