use blastguard::search::query::{classify, QueryKind};

#[test]
fn callers_of_pattern() {
    assert_eq!(classify("callers of processRequest"), QueryKind::Callers("processRequest".into()));
}

#[test]
fn what_calls_alias() {
    assert_eq!(classify("what calls handler"), QueryKind::Callers("handler".into()));
}

#[test]
fn callees_of_pattern() {
    assert_eq!(classify("callees of foo"), QueryKind::Callees("foo".into()));
}

#[test]
fn what_does_x_call_alias() {
    assert_eq!(classify("what does foo call"), QueryKind::Callees("foo".into()));
}

#[test]
fn outline_of_file() {
    assert_eq!(classify("outline of src/handler.ts"), QueryKind::Outline("src/handler.ts".into()));
}

#[test]
fn chain_from_to() {
    assert_eq!(classify("chain from a to b"), QueryKind::Chain("a".into(), "b".into()));
}

#[test]
fn find_and_where_is() {
    assert_eq!(classify("find x"), QueryKind::Find("x".into()));
    assert_eq!(classify("where is y"), QueryKind::Find("y".into()));
}

#[test]
fn tests_for_file_or_symbol() {
    assert_eq!(classify("tests for src/a.ts"), QueryKind::TestsFor("src/a.ts".into()));
    assert_eq!(classify("tests for processRequest"), QueryKind::TestsFor("processRequest".into()));
}

#[test]
fn imports_and_importers() {
    assert_eq!(classify("imports of src/a.ts"), QueryKind::ImportsOf("src/a.ts".into()));
    assert_eq!(classify("importers of src/a.ts"), QueryKind::ImportersOf("src/a.ts".into()));
}

#[test]
fn exports_of_file() {
    assert_eq!(classify("exports of src/a.ts"), QueryKind::ExportsOf("src/a.ts".into()));
}

#[test]
fn libraries_keyword() {
    assert_eq!(classify("libraries"), QueryKind::Libraries);
}

#[test]
fn unknown_falls_through_to_grep() {
    assert_eq!(
        classify("some random regex pattern [a-z]+"),
        QueryKind::Grep("some random regex pattern [a-z]+".into())
    );
}

#[test]
fn leading_trailing_whitespace_trimmed() {
    assert_eq!(classify("  callers of foo  "), QueryKind::Callers("foo".into()));
}

#[test]
fn callers_of_whitespace_in_arg() {
    assert_eq!(classify("callers of some symbol"), QueryKind::Callers("some symbol".into()));
}

#[test]
fn chain_takes_shortest_first_argument() {
    assert_eq!(classify("chain from a b to c to d"), QueryKind::Chain("a b".into(), "c to d".into()));
    assert_eq!(classify("chain from   to x"), QueryKind::Chain("".into(), "x".into()));
}

#[test]
fn line_breaks_fall_through_to_grep() {
    assert_eq!(classify("find a\nb"), QueryKind::Grep("find a\nb".into()));
    assert_eq!(classify("what does call"), QueryKind::Grep("what does call".into()));
    assert_eq!(classify("find"), QueryKind::Grep("find".into()));
}
