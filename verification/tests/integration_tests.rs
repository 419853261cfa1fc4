use rustforge::input::utf8_input;
use rustforge::stats::sum;
use rustforge::suite::suite_name;
use rustforge::syntax::parse_source;

#[test]
fn suite_reports_its_name() {
    assert_eq!(suite_name(), "RustForge");
}

#[test]
fn validated_source_round_trips_through_utf8_input() {
    let source = parse_source("  fn pipeline() {}\n").expect("valid source");
    assert_eq!(source, "fn pipeline() {}");
    let reparsed = utf8_input(source.as_bytes()).expect("source is valid utf8");
    assert_eq!(reparsed, source);
    assert_eq!(sum(&[1u64, 2, 3, 4, 5]), 15);
}

#[test]
fn categories_compose_without_threads() {
    let source = parse_source("fn pipeline() {}").expect("valid source");
    let reparsed = utf8_input(source.as_bytes()).expect("source is valid utf8");
    assert_eq!(reparsed, source);

    let unicode_source = "fn café() {}";
    let preview = rustforge::edge::safe_truncate(unicode_source, 6);
    assert!(unicode_source.starts_with(preview));

    let sizes = vec![1u64, 2, 3, 4, 5];
    assert_eq!(sum(&sizes), 15);
}
