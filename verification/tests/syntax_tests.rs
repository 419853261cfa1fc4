use rustforge::syntax::{parse_source, summarize_source};

#[test]
fn parse_source_accepts_simple_function() {
    let parsed = parse_source("fn main() {} ").expect("expected parse success");
    assert_eq!(parsed, "fn main() {}");
}

#[test]
fn parse_source_rejects_empty_input() {
    assert_eq!(parse_source(" \n\t"), Err("source must not be empty"));
}

#[test]
fn parse_source_rejects_missing_function_keyword() {
    assert_eq!(
        parse_source("let x = 1;"),
        Err("source must contain a function declaration")
    );
}

#[test]
fn summary_of_simple_function() {
    let source = parse_source("fn main() {}").expect("valid source");
    let summary = summarize_source(source);
    assert_eq!(summary.trimmed, "fn main() {}");
    assert_eq!(summary.byte_len, 12);
    assert!(summary.contains_fn);
    assert_eq!(summary.line_count, 1);
}

#[test]
fn summary_of_multiline_function_with_params() {
    let source = parse_source("fn add(a: i32, b: i32) -> i32 {\n    a + b\n}")
        .expect("valid source");
    let summary = summarize_source(source);
    assert_eq!(summary.trimmed, "fn add(a: i32, b: i32) -> i32 {\n    a + b\n}");
    assert_eq!(summary.byte_len, 43);
    assert!(summary.contains_fn);
    assert_eq!(summary.line_count, 3);
}

#[test]
fn parse_source_is_idempotent_and_trims_unicode_space() {
    let once = parse_source("\u{2003} fn f() {}\r\n").expect("valid source");
    assert_eq!(once, "fn f() {}");
    assert_eq!(parse_source(once), Ok(once));
}

#[test]
fn line_count_matches_str_lines() {
    for s in ["", "\n", "a", "a\n", "a\nb", "a\r\nb\r\n", "\n\n", "x\n\ny"] {
        let summary = summarize_source(s);
        assert_eq!(summary.line_count, s.lines().count(), "{s:?}");
        assert_eq!(summary.byte_len, s.len());
        assert_eq!(summary.contains_fn, s.contains("fn"));
    }
}
