//! Per-language parse results and language detection.

pub mod body_hash;
pub mod calls;
pub mod ecma;
pub mod javascript;
pub mod python;
pub mod nodes;
pub mod resolve;
pub mod rust;
pub mod symbols;
pub mod typescript;

use vstd::prelude::*;

use crate::graph::types::{Edge, LibraryImport, Symbol};
use crate::parse::ecma::ecma_extraction;
use crate::parse::nodes::{empty_parse, parse_view, ParseView};
use crate::parse::python::python_extraction;
use crate::parse::rust::rust_extraction;
use crate::parse::typescript::ts_grammar;
use crate::paths::{extension, path_extension};
use crate::search::syntax::{syntax_tree, Grammar};

verus! {

broadcast use vstd::string::group_string_axioms;

/// Output of one file's parse.
#[derive(Debug)]
pub struct ParseOutput {
    pub symbols: Vec<Symbol>,
    pub edges: Vec<Edge>,
    pub library_imports: Vec<LibraryImport>,
    /// The parser met syntax errors but recovered part of the file.
    pub partial_parse: bool,
}

impl Default for ParseOutput {
    /// Nothing parsed.
    fn default() -> (r: Self)
        ensures
            r.symbols@.len() == 0,
            r.edges@.len() == 0,
            r.library_imports@.len() == 0,
            !r.partial_parse,
    {
        ParseOutput { symbols: Vec::new(), edges: Vec::new(), library_imports: Vec::new(), partial_parse: false }
    }
}

/// Source languages with a parser.
#[derive(Debug, Clone, Copy, PartialEq, Eq, Structural)]
pub enum Language {
    TypeScript,
    JavaScript,
    Python,
    Rust,
}

/// The language a file extension denotes.
pub open spec fn language_of_extension(e: Seq<char>) -> Option<Language> {
    if e == "ts"@ || e == "tsx"@ || e == "mts"@ || e == "cts"@ {
        Some(Language::TypeScript)
    } else if e == "js"@ || e == "jsx"@ || e == "mjs"@ || e == "cjs"@ {
        Some(Language::JavaScript)
    } else if e == "py"@ || e == "pyi"@ {
        Some(Language::Python)
    } else if e == "rs"@ {
        Some(Language::Rust)
    } else {
        None
    }
}

/// The language of a path, by its extension; `None` for other files.
pub open spec fn language_of(p: Seq<char>) -> Option<Language> {
    match extension(p) {
        Some(e) => language_of_extension(e),
        None => None,
    }
}

/// A file's language follows its extension: `ts`, `tsx`, `mts` and `cts`
/// are TypeScript; `js`, `jsx`, `mjs` and `cjs` JavaScript; `py` and `pyi`
/// Python; `rs` Rust. A file with any other extension, or none, has no
/// language.
pub proof fn lemma_language_by_extension(p: Seq<char>)
    ensures
        extension(p) == Some("ts"@) || extension(p) == Some("tsx"@) || extension(p) == Some("mts"@) || extension(p) == Some(
            "cts"@,
        ) ==> language_of(p) == Some(Language::TypeScript),
        extension(p) == Some("js"@) || extension(p) == Some("jsx"@) || extension(p) == Some("mjs"@) || extension(p) == Some(
            "cjs"@,
        ) ==> language_of(p) == Some(Language::JavaScript),
        extension(p) == Some("py"@) || extension(p) == Some("pyi"@) ==> language_of(p) == Some(Language::Python),
        extension(p) == Some("rs"@) ==> language_of(p) == Some(Language::Rust),
        language_of(p) is Some ==> extension(p) == Some("ts"@) || extension(p) == Some("tsx"@) || extension(p) == Some("mts"@)
            || extension(p) == Some("cts"@) || extension(p) == Some("js"@) || extension(p) == Some("jsx"@) || extension(p)
            == Some("mjs"@) || extension(p) == Some("cjs"@) || extension(p) == Some("py"@) || extension(p) == Some("pyi"@)
            || extension(p) == Some("rs"@),
{
    reveal_strlit("ts");
    reveal_strlit("tsx");
    reveal_strlit("mts");
    reveal_strlit("cts");
    reveal_strlit("js");
    reveal_strlit("jsx");
    reveal_strlit("mjs");
    reveal_strlit("cjs");
    reveal_strlit("py");
    reveal_strlit("pyi");
    reveal_strlit("rs");
    assert("ts"@[0] == 't' && "ts"@[1] == 's' && "ts"@.len() == 2);
    assert("tsx"@[0] == 't' && "tsx"@[1] == 's' && "tsx"@.len() == 3);
    assert("mts"@[0] == 'm' && "mts"@[1] == 't' && "mts"@.len() == 3);
    assert("cts"@[0] == 'c' && "cts"@[1] == 't' && "cts"@.len() == 3);
    assert("js"@[0] == 'j' && "js"@[1] == 's' && "js"@.len() == 2);
    assert("jsx"@[0] == 'j' && "jsx"@[1] == 's' && "jsx"@.len() == 3);
    assert("mjs"@[0] == 'm' && "mjs"@[1] == 'j' && "mjs"@.len() == 3);
    assert("cjs"@[0] == 'c' && "cjs"@[1] == 'j' && "cjs"@.len() == 3);
    assert("py"@[0] == 'p' && "py"@[1] == 'y' && "py"@.len() == 2);
    assert("pyi"@[0] == 'p' && "pyi"@[1] == 'y' && "pyi"@.len() == 3);
    assert("rs"@[0] == 'r' && "rs"@[1] == 's' && "rs"@.len() == 2);
}

/// Detect a file's language from its extension.
pub fn detect_language(path: &str) -> (r: Option<Language>)
    ensures
        r == language_of(path@),
{
    let ext = match path_extension(path) {
        Some(e) => e,
        None => {
            return None;
        },
    };
    let eq = |t: &str| -> (b: bool)
        ensures
            b == (ext@ == t@),
        {
            let lit = t.to_owned();
            ext == lit
        };
    if eq("ts") || eq("tsx") || eq("mts") || eq("cts") {
        Some(Language::TypeScript)
    } else if eq("js") || eq("jsx") || eq("mjs") || eq("cjs") {
        Some(Language::JavaScript)
    } else if eq("py") || eq("pyi") {
        Some(Language::Python)
    } else if eq("rs") {
        Some(Language::Rust)
    } else {
        None
    }
}

/// What the driver of a grammar reads from `src` when tree-sitter builds
/// a tree with it, and nothing (marked partial) when it builds none.
pub open spec fn driver_view(grammar: Grammar, path: Seq<char>, src: Seq<char>) -> ParseView {
    match syntax_tree(src, grammar) {
        Some(ns) => if grammar == Grammar::Rust {
            rust_extraction(path, src, ns)
        } else if grammar == Grammar::Python {
            python_extraction(path, src, ns)
        } else {
            ecma_extraction(path, src, ns)
        },
        None => empty_parse(true),
    }
}

/// The grammar a file in `lang` is read with.
pub open spec fn grammar_for_language(lang: Language, path: Seq<char>) -> Grammar {
    match lang {
        Language::TypeScript => ts_grammar(path),
        Language::JavaScript => Grammar::JavaScript,
        Language::Python => Grammar::Python,
        Language::Rust => Grammar::Rust,
    }
}

/// The parse of `source`, the file at `path`, by the driver of its
/// language; `None` for a file in no language with a driver.
pub fn parse_source(path: &str, source: &str) -> (r: Option<ParseOutput>)
    ensures
        match language_of(path@) {
            None => r is None,
            Some(lang) => r matches Some(o) && parse_view(o) == driver_view(grammar_for_language(lang, path@), path@, source@),
        },
{
    let out = match detect_language(path) {
        None => {
            return None;
        },
        Some(Language::TypeScript) => typescript::extract(path, source),
        Some(Language::JavaScript) => javascript::extract(path, source),
        Some(Language::Python) => python::extract(path, source),
        Some(Language::Rust) => rust::extract(path, source),
    };
    Some(out)
}

} // verus!
