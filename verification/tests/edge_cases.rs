use rustforge::edge::{clamp_len, safe_truncate};

#[test]
fn handles_empty_and_large_inputs() {
    assert_eq!(clamp_len("", 4), 0);
    assert_eq!(clamp_len("abcdef", 4), 4);
}

#[test]
fn clamp_len_counts_bytes_not_characters() {
    assert_eq!(clamp_len("café", 10), 5);
    assert_eq!(clamp_len("café", 4), 4);
    assert_eq!(clamp_len("abc", 3), 3);
    assert_eq!(clamp_len("abc", 0), 0);
}

#[test]
fn safe_truncate_walks_back_to_a_char_boundary() {
    assert_eq!(safe_truncate("fn café() {}", 6), "fn caf");
    assert_eq!(safe_truncate("fn café() {}", 7), "fn caf");
    assert_eq!(safe_truncate("fn café() {}", 8), "fn café");
    assert_eq!(safe_truncate("abcdef", 4), "abcd");
    assert_eq!(safe_truncate("abc", 10), "abc");
    assert_eq!(safe_truncate("", 3), "");
    assert_eq!(safe_truncate("é", 1), "");
    assert_eq!(safe_truncate("👍x", 3), "");
    assert_eq!(safe_truncate("👍x", 4), "👍");
    assert_eq!(safe_truncate("abc", 0), "");
}

#[test]
fn safe_truncate_is_the_longest_boundary_prefix() {
    let s = "aé👍b黑c";
    for max in 0..=s.len() + 2 {
        let t = safe_truncate(s, max);
        assert!(s.starts_with(t));
        assert!(t.len() <= max);
        let best = (0..=max.min(s.len())).rev().find(|&k| s.is_char_boundary(k)).unwrap();
        assert_eq!(t.len(), best);
    }
}
