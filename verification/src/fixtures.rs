//! Builder-style fixtures, an assertion helper, and a retry combinator.

use vstd::prelude::*;
use crate::text::{has_substring, str_contains};

verus! {

/// A minimal user-shaped fixture, built with the `with_*` builder methods.
#[derive(Debug, Clone)]
pub struct UserFixture {
    /// The fixture's username.
    pub username: String,
    /// The fixture's password.
    pub password: String,
}

impl PartialEq for UserFixture {
    fn eq(&self, other: &Self) -> (r: bool) {
        self.username == other.username && self.password == other.password
    }
}

impl vstd::std_specs::cmp::PartialEqSpecImpl for UserFixture {
    open spec fn obeys_eq_spec() -> bool {
        true
    }

    open spec fn eq_spec(&self, other: &Self) -> bool {
        self.username@ == other.username@ && self.password@ == other.password@
    }
}

impl Eq for UserFixture {
}

impl UserFixture {
    /// Returns this fixture with a different username.
    pub fn with_username(self, username: &str) -> (f: Self)
        ensures
            f.username@ == username@,
            f.password == self.password,
    {
        let mut f = self;
        f.username = String::from_str(username);
        f
    }

    /// Returns this fixture with a different password.
    pub fn with_password(self, password: &str) -> (f: Self)
        ensures
            f.username == self.username,
            f.password@ == password@,
    {
        let mut f = self;
        f.password = String::from_str(password);
        f
    }
}

/// Builds the default [`UserFixture`], user `alice`, from the password
/// setting found in the environment: its value, or empty when it is unset.
pub fn default_user_fixture_with(password: Option<String>) -> (f: UserFixture)
    ensures
        f.username@ == "alice"@,
        f.password@ == (match password {
            Some(p) => p@,
            None => Seq::<char>::empty(),
        }),
{
    let password = match password {
        Some(p) => p,
        None => String::new(),
    };
    UserFixture { username: String::from_str("alice"), password }
}

/// A minimal "environment config" fixture, built with the `with_*` builder
/// methods.
#[derive(Debug, Clone)]
pub struct ConfigFixture {
    /// The base URL a client under test would target.
    pub base_url: String,
    /// Request timeout, in milliseconds.
    pub timeout_ms: u64,
    /// Number of retries before giving up.
    pub retries: u32,
}

impl PartialEq for ConfigFixture {
    fn eq(&self, other: &Self) -> (r: bool) {
        self.base_url == other.base_url && self.timeout_ms == other.timeout_ms && self.retries
            == other.retries
    }
}

impl vstd::std_specs::cmp::PartialEqSpecImpl for ConfigFixture {
    open spec fn obeys_eq_spec() -> bool {
        true
    }

    open spec fn eq_spec(&self, other: &Self) -> bool {
        self.base_url@ == other.base_url@ && self.timeout_ms == other.timeout_ms && self.retries
            == other.retries
    }
}

impl Eq for ConfigFixture {
}

impl ConfigFixture {
    /// Returns this fixture with a different base URL.
    pub fn with_base_url(self, base_url: &str) -> (f: Self)
        ensures
            f.base_url@ == base_url@,
            f.timeout_ms == self.timeout_ms,
            f.retries == self.retries,
    {
        let mut f = self;
        f.base_url = String::from_str(base_url);
        f
    }

    /// Returns this fixture with a different timeout.
    pub fn with_timeout_ms(self, timeout_ms: u64) -> (f: Self)
        ensures
            f.base_url == self.base_url,
            f.timeout_ms == timeout_ms,
            f.retries == self.retries,
    {
        let mut f = self;
        f.timeout_ms = timeout_ms;
        f
    }

    /// Returns this fixture with a different retry count.
    pub fn with_retries(self, retries: u32) -> (f: Self)
        ensures
            f.base_url == self.base_url,
            f.timeout_ms == self.timeout_ms,
            f.retries == retries,
    {
        let mut f = self;
        f.retries = retries;
        f
    }
}

/// Builds the default [`ConfigFixture`]: `localhost`, a 5-second timeout,
/// 3 retries.
pub fn default_config_fixture() -> (f: ConfigFixture)
    ensures
        f.base_url@ == "http://localhost:8080"@,
        f.timeout_ms == 5000,
        f.retries == 3,
{
    ConfigFixture {
        base_url: String::from_str("http://localhost:8080"),
        timeout_ms: 5_000,
        retries: 3,
    }
}

/// Whether `needle` occurs in `haystack` as a substring.
pub fn contains(haystack: &str, needle: &str) -> (b: bool)
    ensures
        b == has_substring(haystack@, needle@),
{
    str_contains(haystack, needle)
}

/// Asserts that `haystack` contains `needle`; callers must guarantee it, as
/// the check fails otherwise.
pub fn assert_contains(haystack: &str, needle: &str)
    requires
        has_substring(haystack@, needle@),
{
    let found = str_contains(haystack, needle);
    assert(found);
}

/// The retry decision after `tries` calls whose latest result is `outcome`:
/// try again only when that call failed and fewer than `max_tries` calls
/// have been made.
pub fn retry_again<T, E>(tries: usize, max_tries: usize, outcome: &Result<T, E>) -> (again: bool)
    ensures
        again == (outcome is Err && tries < max_tries),
{
    tries < max_tries && outcome.is_err()
}

/// `calls` is a run of `retry`: the results of its calls of `attempt`, in
/// order, ending with `r`. Every call but the last failed; there are between
/// one and `max_tries` of them, and a failing run uses all `max_tries`.
pub open spec fn is_retry_run<T, E, F: FnMut() -> Result<T, E>>(
    attempt: F,
    max_tries: usize,
    calls: Seq<Result<T, E>>,
    r: Result<T, E>,
) -> bool {
    &&& 1 <= calls.len() <= max_tries
    &&& calls.last() == r
    &&& forall|i: int| 0 <= i < calls.len() - 1 ==> #[trigger] calls[i] is Err
    &&& (r is Err ==> calls.len() == max_tries)
    &&& forall|i: int| 0 <= i < calls.len() ==> call_ensures(attempt, (), #[trigger] calls[i])
}

/// Runs the retry loop, returning the final result together with the
/// number of calls of `attempt` that were made.
fn retry_with_count<T, E, F: FnMut() -> Result<T, E>>(max_tries: usize, mut attempt: F) -> (r: (
    Result<T, E>,
    usize,
))
    requires
        max_tries > 0,
        call_requires(attempt, ()),
    ensures
        1 <= r.1 <= max_tries,
        r.0 is Err ==> r.1 == max_tries,
        exists|calls: Seq<Result<T, E>>|
            #[trigger] is_retry_run(attempt, max_tries, calls, r.0) && calls.len() == r.1,
{
    let ghost initial = attempt;
    let mut outcome = attempt();
    assert(attempt == initial);
    let ghost mut calls: Seq<Result<T, E>> = seq![outcome];
    let mut tries: usize = 1;
    while retry_again(tries, max_tries, &outcome)
        invariant
            1 <= tries <= max_tries,
            attempt == initial,
            call_requires(attempt, ()),
            calls.len() == tries,
            calls.last() == outcome,
            forall|i: int| 0 <= i < calls.len() - 1 ==> #[trigger] calls[i] is Err,
            forall|i: int| 0 <= i < calls.len() ==> call_ensures(attempt, (), #[trigger] calls[i]),
        decreases max_tries - tries,
    {
        let next = attempt();
        proof {
            calls = calls.push(next);
        }
        outcome = next;
        tries = tries + 1;
    }
    assert(is_retry_run(initial, max_tries, calls, outcome));
    (outcome, tries)
}

/// Calls `attempt` up to `max_tries` times, returning the first `Ok` or the
/// last `Err` once every attempt has failed.
pub fn retry<T, E, F: FnMut() -> Result<T, E>>(max_tries: usize, attempt: F) -> (r: Result<T, E>)
    requires
        max_tries > 0,
        call_requires(attempt, ()),
    ensures
        exists|calls: Seq<Result<T, E>>| #[trigger] is_retry_run(attempt, max_tries, calls, r),
{
    let (outcome, _) = retry_with_count(max_tries, attempt);
    outcome
}

} // verus!
