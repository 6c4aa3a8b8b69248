//! The TypeScript driver: `.tsx` files are read with the TSX grammar,
//! other TypeScript files with the TypeScript grammar, both by the shared
//! driver in [`crate::parse::ecma`].

use vstd::prelude::*;

use crate::parse::ecma::{ecma_extraction, extract_with};
use crate::parse::nodes::{empty_parse, parse_view};
use crate::parse::ParseOutput;
use crate::paths::{extension, path_extension};
use crate::search::syntax::{syntax_tree, Grammar};

verus! {

/// The grammar a TypeScript file is read with: TSX for `.tsx`, else
/// TypeScript.
pub open spec fn ts_grammar(path: Seq<char>) -> Grammar {
    if extension(path) == Some("tsx"@) {
        Grammar::Tsx
    } else {
        Grammar::TypeScript
    }
}

/// Parse the TypeScript file at `path`, holding `source`.
pub fn extract(path: &str, source: &str) -> (r: ParseOutput)
    ensures
        parse_view(r) == match syntax_tree(source@, ts_grammar(path@)) {
            Some(ns) => ecma_extraction(path@, source@, ns),
            None => empty_parse(true),
        },
{
    let tsx = match path_extension(path) {
        Some(e) => e == "tsx".to_owned(),
        None => false,
    };
    let grammar = if tsx {
        Grammar::Tsx
    } else {
        Grammar::TypeScript
    };
    extract_with(path, source, grammar)
}

} // verus!
