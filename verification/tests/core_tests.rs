use rustforge::ascii::is_ascii_palindrome;
use rustforge::fixtures::{
    assert_contains, contains, default_config_fixture, retry_again, default_user_fixture_with, retry, ConfigFixture,
    UserFixture,
};

#[test]
fn default_fixture_can_be_customized() {
    let fixture = default_user_fixture_with(None)
        .with_username("bob")
        .with_password("secret");

    assert_eq!(fixture.username, "bob");
    assert_eq!(fixture.password, "secret");
}

#[test]
fn assert_contains_reports_mismatch() {
    assert_contains("semantic::ownership", "ownership");
}

#[test]
fn config_fixture_can_be_customized() {
    let config = default_config_fixture()
        .with_base_url("https://example.test")
        .with_timeout_ms(250)
        .with_retries(0);

    assert_eq!(config.base_url, "https://example.test");
    assert_eq!(config.timeout_ms, 250);
    assert_eq!(config.retries, 0);
}

#[test]
fn retry_returns_last_error_when_exhausted() {
    let result: Result<(), &str> = retry(2, || Err("still failing"));
    assert_eq!(result, Err("still failing"));
}

#[test]
fn succeeds_or_fails_depending_on_max_tries_vs_attempts_needed() {
    let cases = [
        // (max_tries, succeeds_on_attempt, expect_success)
        (1, 1, true),
        (3, 2, true),
        (3, 3, true),
        (2, 3, false),
    ];

    for (max_tries, succeeds_on_attempt, expect_success) in cases {
        let mut calls = 0;
        let result: Result<u32, &str> = retry(max_tries, || {
            calls += 1;
            if calls >= succeeds_on_attempt {
                Ok(calls)
            } else {
                Err("not ready yet")
            }
        });

        assert_eq!(
            result.is_ok(),
            expect_success,
            "max_tries={max_tries}, succeeds_on_attempt={succeeds_on_attempt}"
        );
    }
}

#[test]
fn no_std_palindrome_check_ignores_case() {
    assert!(is_ascii_palindrome("Level"));
    assert!(is_ascii_palindrome(""));
    assert!(!is_ascii_palindrome("rust"));
}

#[test]
fn palindrome_logic_compiles_and_works_under_no_std() {
    assert!(is_ascii_palindrome("Level"));
    assert!(is_ascii_palindrome(""));
    assert!(!is_ascii_palindrome("rust"));
}

#[test]
fn default_user_fixture_is_alice_with_given_or_empty_password() {
    let unset = default_user_fixture_with(None);
    assert_eq!(unset.username, "alice");
    assert_eq!(unset.password, "");

    let set = default_user_fixture_with(Some("from-env".to_string()));
    assert_eq!(set.username, "alice");
    assert_eq!(set.password, "from-env");
}

#[test]
fn builders_change_only_their_own_field() {
    let base = default_user_fixture_with(Some("pw".to_string()));
    let renamed = base.clone().with_username("carol");
    assert_eq!(renamed.password, "pw");
    assert_eq!(renamed.username, "carol");
    assert_ne!(renamed, base);
    assert_eq!(renamed.clone().with_username("alice"), base);

    let config = default_config_fixture();
    assert_eq!(config.base_url, "http://localhost:8080");
    assert_eq!(config.timeout_ms, 5_000);
    assert_eq!(config.retries, 3);
    let faster = config.clone().with_timeout_ms(10);
    assert_eq!(faster.base_url, config.base_url);
    assert_eq!(faster.retries, config.retries);
    assert_eq!(faster.with_timeout_ms(5_000), config);

    let explicit = ConfigFixture {
        base_url: "http://localhost:8080".to_string(),
        timeout_ms: 5_000,
        retries: 3,
    };
    assert_eq!(explicit, default_config_fixture());
    let user = UserFixture { username: "alice".to_string(), password: String::new() };
    assert_eq!(user, default_user_fixture_with(None));
}

#[test]
fn retry_returns_first_success_and_stops_calling() {
    let mut calls = 0;
    let result: Result<u32, &str> = retry(3, || {
        calls += 1;
        if calls < 2 {
            Err("not ready yet")
        } else {
            Ok(calls)
        }
    });
    assert_eq!(result, Ok(2));
    assert_eq!(calls, 2);

    let mut tries = 0;
    let result: Result<(), u32> = retry(4, || {
        tries += 1;
        Err(tries)
    });
    assert_eq!(result, Err(4));
    assert_eq!(tries, 4);
}

#[test]
fn palindrome_edge_cases() {
    assert!(is_ascii_palindrome("a"));
    assert!(is_ascii_palindrome("AbBa"));
    assert!(is_ascii_palindrome("racecar"));
    assert!(!is_ascii_palindrome("ab"));
    assert!(is_ascii_palindrome("LEVEL") == is_ascii_palindrome("level"));
    assert!(!is_ascii_palindrome("aÉa"));
    assert!(is_ascii_palindrome("aÉÉa") == false);
    assert!(!is_ascii_palindrome("éa"));
}

#[test]
fn contains_finds_substrings() {
    assert!(contains("semantic::ownership", "ownership"));
    assert!(contains("abc", ""));
    assert!(contains("", ""));
    assert!(!contains("", "a"));
    assert!(!contains("own", "ownership"));
    assert!(contains("café au lait", "é a"));
    assert!(!contains("semantic::ownership", "Ownership"));
}

#[test]
fn retry_again_only_after_a_failure_with_tries_left() {
    let failed: Result<(), &str> = Err("no");
    let succeeded: Result<u8, &str> = Ok(1);
    assert!(retry_again(1, 3, &failed));
    assert!(retry_again(2, 3, &failed));
    assert!(!retry_again(3, 3, &failed));
    assert!(!retry_again(1, 3, &succeeded));
    assert!(!retry_again(3, 3, &succeeded));
}
