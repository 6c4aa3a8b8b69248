//! The JavaScript driver: the JavaScript grammar, which also reads JSX,
//! by the shared driver in [`crate::parse::ecma`].

use vstd::prelude::*;

use crate::parse::ecma::{ecma_extraction, extract_with};
use crate::parse::nodes::{empty_parse, parse_view};
use crate::parse::ParseOutput;
use crate::search::syntax::{syntax_tree, Grammar};

verus! {

/// Parse the JavaScript file at `path`, holding `source`.
pub fn extract(path: &str, source: &str) -> (r: ParseOutput)
    ensures
        parse_view(r) == match syntax_tree(source@, Grammar::JavaScript) {
            Some(ns) => ecma_extraction(path@, source@, ns),
            None => empty_parse(true),
        },
{
    extract_with(path, source, Grammar::JavaScript)
}

} // verus!
