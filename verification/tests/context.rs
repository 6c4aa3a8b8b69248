use blastguard::search::context_extract::{call_context, cap_lines, extract_call_args, line_window_fallback};

#[test]
fn line_window_takes_one_line_either_side() {
    let src = "a\nb\nc\nd\ne\n";
    assert_eq!(line_window_fallback(src, 3, 1), "b\nc\nd");
    assert_eq!(line_window_fallback(src, 1, 1), "a\nb");
    assert_eq!(line_window_fallback(src, 5, 1), "d\ne");
}

#[test]
fn line_window_is_capped_at_twenty_lines() {
    let src: String = (1..=50).map(|i| format!("l{i}\n")).collect();
    let got = line_window_fallback(&src, 25, 30);
    assert_eq!(got.lines().count(), 20);
    assert!(got.starts_with("l1\n"));
}

#[test]
fn cap_lines_keeps_the_first_twenty() {
    let text: String = (1..=25).map(|i| format!("x{i}\n")).collect();
    let got = cap_lines(&text);
    assert_eq!(got.lines().count(), 20);
    assert!(got.ends_with("x20"));
    assert_eq!(cap_lines("let x = 1;"), "let x = 1;");
}

#[test]
fn call_args_on_one_line() {
    let src = "fn main() {\n    let x = foo(1, 2);\n}\n";
    assert_eq!(extract_call_args(src, 2, "foo"), Some("1, 2".to_string()));
}

#[test]
fn call_args_across_lines_with_nested_parens() {
    let src = "fn main() {\n    foo(\n        bar(1),\n        2,\n    );\n}\n";
    assert_eq!(extract_call_args(src, 2, "foo"), Some("bar(1),\n        2,".to_string()));
}

#[test]
fn call_args_need_the_callee_before_the_paren() {
    let src = "let y = bar(1) + foo(2);\n";
    assert_eq!(extract_call_args(src, 1, "foo"), None);
    assert_eq!(extract_call_args(src, 1, "bar"), Some("1".to_string()));
}

#[test]
fn call_args_blank_or_missing_are_none() {
    assert_eq!(extract_call_args("foo();\n", 1, "foo"), None);
    assert_eq!(extract_call_args("foo(1\n", 1, "foo"), None);
    assert_eq!(extract_call_args("foo(1);\n", 5, "foo"), None);
    assert_eq!(extract_call_args("no call here\n", 1, "foo"), None);
}

#[test]
fn long_call_args_are_cut_and_marked() {
    let arg = "a".repeat(250);
    let src = format!("foo({arg});\n");
    let got = extract_call_args(&src, 1, "foo").expect("args");
    assert_eq!(got.chars().count(), 200);
    assert!(got.ends_with("..."));
    assert_eq!(&got[..197], &arg[..197]);
}

#[test]
fn call_args_scan_at_most_ten_lines() {
    let mut src = String::from("foo(\n");
    for _ in 0..12 {
        src.push_str("  1,\n");
    }
    src.push_str(");\n");
    assert_eq!(extract_call_args(&src, 1, "foo"), None);
}

#[test]
fn call_context_prefixes_callee_and_args() {
    let src = "fn main() {\n    let x = foo(1, 2);\n}\n";
    let got = call_context(src, "let x = foo(1, 2);", "fn foo(a: i32, b: i32)", 2);
    assert_eq!(got, "// args: 1, 2\n// callee: fn foo(a: i32, b: i32)\nlet x = foo(1, 2);");
    let bare = call_context(src, "let x = foo(1, 2);", "foo", 2);
    assert_eq!(bare, "// callee: foo\nlet x = foo(1, 2);");
}

#[test]
fn line_window_past_the_end_is_clamped() {
    let src = "a\nb\nc\n";
    assert_eq!(line_window_fallback(src, 100, 1), "");
    assert_eq!(line_window_fallback(src, 4, 1), "c");
    assert_eq!(line_window_fallback(src, 5, 1), "");
}
