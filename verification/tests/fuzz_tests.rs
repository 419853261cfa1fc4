use rustforge::input::{parse_u32_lenient, utf8_input};

#[test]
fn valid_utf8_is_accepted() {
    assert_eq!(utf8_input(b"rust").expect("expected utf8"), "rust");
}

#[test]
fn invalid_utf8_is_rejected() {
    assert!(utf8_input(&[0xff]).is_err());
}

#[test]
fn parse_u32_lenient_trims_whitespace() {
    assert_eq!(parse_u32_lenient("  42  "), Some(42));
    assert_eq!(parse_u32_lenient("42"), Some(42));
}

#[test]
fn parse_u32_lenient_rejects_malformed_input() {
    assert_eq!(parse_u32_lenient(""), None);
    assert_eq!(parse_u32_lenient("not a number"), None);
    assert_eq!(parse_u32_lenient("-1"), None);
    assert_eq!(parse_u32_lenient("4294967296"), None); // u32::MAX + 1
}

#[test]
fn valid_strings_round_trip_through_utf8_input() {
    for s in ["", "rust", "fn café() {}", "黑风雷", "👨‍👩‍👧‍👦", "a\u{0}b"] {
        assert_eq!(utf8_input(s.as_bytes()), Ok(s));
    }
}

#[test]
fn malformed_utf8_is_rejected() {
    let cases: [&[u8]; 6] = [
        &[0xc0, 0x80],             // overlong encoding of NUL
        &[0xed, 0xa0, 0x80],       // surrogate
        &[0xf4, 0x90, 0x80, 0x80], // above U+10FFFF
        &[0xe2, 0x82],             // truncated
        &[0x80],                   // stray continuation byte
        &[b'o', b'k', 0xff],
    ];
    for bytes in cases {
        assert!(utf8_input(bytes).is_err());
    }
}

#[test]
fn valid_numbers_round_trip_through_whitespace() {
    let pads = ["", " ", "\t", " \t ", "\n", "\u{3000}"];
    for n in [0u32, 1, 9, 10, 42, 65_535, 4_294_967_295] {
        for lead in pads {
            for trail in pads {
                let padded = format!("{lead}{n}{trail}");
                assert_eq!(parse_u32_lenient(&padded), Some(n));
            }
        }
    }
}

#[test]
fn parse_u32_lenient_follows_the_u32_grammar() {
    assert_eq!(parse_u32_lenient("+7"), Some(7));
    assert_eq!(parse_u32_lenient("007"), Some(7));
    assert_eq!(parse_u32_lenient("+"), None);
    assert_eq!(parse_u32_lenient("-"), None);
    assert_eq!(parse_u32_lenient("-0"), None);
    assert_eq!(parse_u32_lenient("4 2"), None);
    assert_eq!(parse_u32_lenient("   "), None);
    assert_eq!(parse_u32_lenient("１２"), None);
    assert_eq!(parse_u32_lenient("99999999999999999999"), None);
}

#[test]
fn trimming_agrees_with_char_is_whitespace_on_every_char() {
    for code in 0u32..=0x10FFFF {
        if let Some(c) = char::from_u32(code) {
            let s = format!("{c}7{c}");
            let expected = if c.is_whitespace() { Some(7) } else { s.trim().parse::<u32>().ok() };
            assert_eq!(parse_u32_lenient(&s), expected, "U+{code:04X}");
        }
    }
}
