use blastguard::search::hit::SearchHit;
use blastguard::search::text::{grep_lines, grep_matcher, GREP_MAX_HITS};

fn lines(ls: &[&str]) -> Vec<Option<String>> {
    ls.iter().map(|l| Some(l.to_string())).collect()
}

#[test]
fn grep_reports_matching_lines_with_numbers() {
    let m = grep_matcher(r"fn \w+\(").expect("valid");
    let mut hits: Vec<SearchHit> = Vec::new();
    grep_lines(&m, "src/a.rs", &lines(&["use x;", "fn foo() {   ", "}", "pub fn bar(x: i32) {}"]), &mut hits);
    assert_eq!(hits.len(), 2);
    assert_eq!(hits[0].file, "src/a.rs");
    assert_eq!(hits[0].line, 2);
    assert_eq!(hits[0].snippet.as_deref(), Some("fn foo() {"));
    assert_eq!(hits[1].line, 4);
    assert!(hits[0].signature.is_none());
}

#[test]
fn grep_invalid_regex_is_searched_literally() {
    let m = grep_matcher("foo(").expect("escaped pattern compiles");
    let mut hits: Vec<SearchHit> = Vec::new();
    grep_lines(&m, "a.py", &lines(&["foo(1)", "food", "x = foo(2)"]), &mut hits);
    let numbers: Vec<u32> = hits.iter().map(|h| h.line).collect();
    assert_eq!(numbers, vec![1, 3]);
}

#[test]
fn grep_stops_at_the_cap_across_files() {
    let m = grep_matcher("hit").expect("valid");
    let many: Vec<Option<String>> = (0..25).map(|i| Some(format!("hit {i}"))).collect();
    let mut hits: Vec<SearchHit> = Vec::new();
    grep_lines(&m, "a.txt", &many, &mut hits);
    assert_eq!(hits.len(), 25);
    grep_lines(&m, "b.txt", &many, &mut hits);
    assert_eq!(hits.len(), GREP_MAX_HITS);
    assert_eq!(hits[29].file, "b.txt");
    assert_eq!(hits[29].line, 5);
}

#[test]
fn unreadable_lines_keep_their_numbers() {
    let m = grep_matcher("x").expect("valid");
    let mut hits: Vec<SearchHit> = Vec::new();
    grep_lines(&m, "f", &vec![None, Some("x".to_string())], &mut hits);
    assert_eq!(hits.len(), 1);
    assert_eq!(hits[0].line, 2);
}
