use rustforge::semantics::{
    assert_send, assert_sync, greet_via_generic, greet_via_trait_object, longest,
    parse_timeout_ms, ConfigError, Excerpt, Greeter, NamedGreeter,
};

#[test]
fn generic_bound_dispatches_statically() {
    let greeter = NamedGreeter {
        name: "static".to_string(),
    };
    assert_eq!(greet_via_generic(&greeter), "hello, static");
}

#[test]
fn trait_object_dispatches_dynamically() {
    let greeter = NamedGreeter {
        name: "dynamic".to_string(),
    };
    let boxed: Box<dyn Greeter> = Box::new(greeter);
    assert_eq!(greet_via_trait_object(boxed.as_ref()), "hello, dynamic");
}

#[test]
fn longest_returns_the_longer_slice() {
    assert_eq!(longest("short", "longer string"), "longer string");
    assert_eq!(longest("tied", "each"), "tied");
}

#[test]
fn excerpt_borrows_first_sentence() {
    let document = String::from("Rust is fast. It is also safe.");
    let excerpt = Excerpt::first_sentence(&document);
    assert_eq!(excerpt.part, "Rust is fast");
}

#[test]
fn common_types_are_send_and_sync() {
    assert_send::<NamedGreeter>();
    assert_sync::<NamedGreeter>();
    assert_send::<ConfigError>();
    assert_sync::<ConfigError>();
}

#[test]
fn parse_timeout_ms_succeeds_on_valid_input() {
    assert_eq!(parse_timeout_ms("timeout_ms=500"), Ok(500));
}

#[test]
fn parse_timeout_ms_rejects_wrong_key() {
    assert_eq!(
        parse_timeout_ms("other=500"),
        Err(ConfigError::MissingField("timeout_ms"))
    );
}

#[test]
fn parse_timeout_ms_rejects_non_numeric_value() {
    assert!(matches!(
        parse_timeout_ms("timeout_ms=abc"),
        Err(ConfigError::InvalidValue { .. })
    ));
}

#[test]
fn parse_timeout_ms_reports_each_failure() {
    assert_eq!(
        parse_timeout_ms("timeout_ms 500"),
        Err(ConfigError::MissingField("timeout_ms"))
    );
    assert_eq!(
        parse_timeout_ms("timeout_ms=abc"),
        Err(ConfigError::InvalidValue {
            field: "timeout_ms",
            reason: "invalid digit found in string".to_string(),
        })
    );
    assert_eq!(
        parse_timeout_ms("timeout_ms="),
        Err(ConfigError::InvalidValue {
            field: "timeout_ms",
            reason: "cannot parse integer from empty string".to_string(),
        })
    );
    assert_eq!(
        parse_timeout_ms("timeout_ms=18446744073709551616"),
        Err(ConfigError::InvalidValue {
            field: "timeout_ms",
            reason: "number too large to fit in target type".to_string(),
        })
    );
    assert_eq!(
        parse_timeout_ms("timeout_ms=1=2"),
        Err(ConfigError::InvalidValue {
            field: "timeout_ms",
            reason: "invalid digit found in string".to_string(),
        })
    );
    assert_eq!(parse_timeout_ms("timeout_ms=+0"), Ok(0));
}

#[test]
fn every_timeout_round_trips() {
    for n in [0u64, 1, 500, 4_294_967_296, u64::MAX] {
        assert_eq!(parse_timeout_ms(&format!("timeout_ms={n}")), Ok(n));
    }
}

#[test]
fn config_error_messages() {
    assert_eq!(
        ConfigError::MissingField("timeout_ms").message(),
        "missing field: timeout_ms"
    );
    let err = parse_timeout_ms("timeout_ms=abc").unwrap_err();
    assert_eq!(
        err.message(),
        "invalid value for timeout_ms: invalid digit found in string"
    );
}

#[test]
fn excerpt_without_a_period_is_the_whole_document() {
    assert_eq!(Excerpt::first_sentence("no period here").part, "no period here");
    assert_eq!(Excerpt::first_sentence(".leading").part, "");
    assert_eq!(Excerpt::first_sentence("").part, "");
    assert_eq!(Excerpt::first_sentence("héllo. wörld").part, "héllo");
}

#[test]
fn longest_compares_byte_lengths() {
    assert_eq!(longest("ééé", "abcde"), "ééé");
    assert_eq!(longest("", ""), "");
    assert_eq!(longest("a", "bb"), "bb");
}
