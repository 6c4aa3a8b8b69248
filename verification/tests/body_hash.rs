use blastguard::graph::types::SymbolKind;
use blastguard::parse::body_hash::{body_hash, normalize};
use blastguard::parse::{javascript, python, typescript};

#[test]
fn whitespace_changes_do_not_shift_hash() {
    let a = "fn foo() {\n    return 1;\n}";
    let b = "fn foo() {\nreturn 1;\n}";
    assert_eq!(body_hash(a), body_hash(b));
}

#[test]
fn comment_changes_do_not_shift_hash() {
    let a = "fn foo() { // old comment\n    return 1;\n}";
    let b = "fn foo() { // brand new comment\n    return 1;\n}";
    assert_eq!(body_hash(a), body_hash(b));
}

#[test]
fn block_comments_stripped() {
    let a = "fn foo() {\n/* block\n spanning */ return 1;\n}";
    let b = "fn foo() { return 1;\n}";
    assert_eq!(body_hash(a), body_hash(b));
}

#[test]
fn body_changes_shift_hash() {
    let a = "fn foo() { return 1; }";
    let b = "fn foo() { return 2; }";
    assert_ne!(body_hash(a), body_hash(b));
}

#[test]
fn python_hash_comments() {
    let a = "def foo():\n    # old\n    return 1";
    let b = "def foo():\n    # new text\n    return 1";
    assert_eq!(body_hash(a), body_hash(b));
}

#[test]
fn normal_form_exact() {
    assert_eq!(normalize("fn foo() {\n    return 1; // one\n\n}"), "fn foo() { return 1; }");
    assert_eq!(normalize("a /* x */ b"), "a  b");
    assert_eq!(normalize("a /* never closed"), "a");
    assert_eq!(normalize("x = 1 # note"), "x = 1");
    assert_eq!(normalize(""), "");
}

#[test]
fn hash_is_seahash_of_the_normal_form() {
    let src = "fn foo() {\n  return 1;\n}";
    assert_eq!(body_hash(src), seahash::hash(normalize(src).as_bytes()));
    assert_ne!(body_hash(src), seahash::hash(src.as_bytes()));
}

#[test]
fn each_driver_reads_a_function() {
    for out in [javascript::extract("a.js", "function f() {}"), python::extract("a.py", "def f(): pass"), typescript::extract("a.ts", "function f() {}")] {
        assert_eq!(out.symbols.len(), 1);
        assert_eq!(out.symbols[0].id.name, "f");
        assert_eq!(out.symbols[0].id.kind, SymbolKind::Function);
        assert!(out.edges.is_empty());
        assert!(out.library_imports.is_empty());
        assert!(!out.partial_parse);
    }
}
