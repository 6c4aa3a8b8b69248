use blastguard::search::syntax::{enclosing_statement, grammar_for, Grammar};

#[test]
fn enclosing_stmt_rust_single_line_call() {
    let src = "fn main() {\n    let x = foo(1, 2);\n}\n";
    let got = enclosing_statement("a.rs", src, 2).expect("some");
    assert!(got.contains("let x = foo(1, 2)"), "got: {got:?}");
}

#[test]
fn enclosing_stmt_rust_multi_line_args() {
    let src = "fn main() {\n    let x = foo(\n        1,\n        2,\n    );\n}\n";
    let got = enclosing_statement("a.rs", src, 2).expect("some");
    assert!(got.contains("let x = foo("), "got: {got:?}");
    assert!(got.contains("1,"), "got: {got:?}");
    assert!(got.contains("2,"), "got: {got:?}");
}

#[test]
fn enclosing_stmt_python_assignment() {
    let src = "def main():\n    result = module.func(arg)\n    return result\n";
    let got = enclosing_statement("a.py", src, 2).expect("some");
    assert!(got.contains("result = module.func(arg)"), "got: {got:?}");
}

#[test]
fn enclosing_stmt_typescript_return_expr() {
    let src = "function main() {\n    return handle(req);\n}\n";
    let got = enclosing_statement("a.ts", src, 2).expect("some");
    assert!(got.contains("return handle(req)"), "got: {got:?}");
}

#[test]
fn enclosing_stmt_javascript_return_expr() {
    let src = "function main() {\n    return handle(req);\n}\n";
    let got = enclosing_statement("a.js", src, 2).expect("some");
    assert!(got.contains("return handle(req)"), "got: {got:?}");
}

#[test]
fn enclosing_stmt_none_on_unsupported_language() {
    let src = "# just a markdown\n";
    assert!(enclosing_statement("a.md", src, 1).is_none());
}

#[test]
fn enclosing_stmt_rust_sibling_calls_picks_deepest() {
    let src = "fn main() {\n    let _ = (foo(1), bar(2));\n}\n";
    let got = enclosing_statement("a.rs", src, 2).expect("some");
    assert!(got.contains("let _ = (foo(1), bar(2))"), "got: {got:?}");
}

#[test]
fn enclosing_stmt_fallback_on_ast_miss() {
    let src = "fn main() {\n    match x { Some(y) => foo(y), _ => () };\n}\n";
    let got = enclosing_statement("a.rs", src, 2).expect("some");
    assert!(got.contains("foo(y)"), "got: {got:?}");
}

#[test]
fn enclosing_stmt_without_call_uses_line_window() {
    let src = "a = 1\nb = 2\nc = 3\n";
    assert_eq!(enclosing_statement("a.py", src, 2), Some("a = 1\nb = 2\nc = 3".to_string()));
}

#[test]
fn grammars_follow_extensions() {
    assert_eq!(grammar_for("src/x.rs"), Some(Grammar::Rust));
    assert_eq!(grammar_for("x.tsx"), Some(Grammar::Tsx));
    assert_eq!(grammar_for("x.mjs"), Some(Grammar::JavaScript));
    assert_eq!(grammar_for("x.pyi"), None);
    assert_eq!(grammar_for("Makefile"), None);
}
