//! Greeting through a trait, borrowed string slices, and error handling for
//! a `key=value` configuration entry.

use vstd::prelude::*;
use crate::number::{
    IntErrorKind, kind_message, parse_unsigned, parse_unsigned_chars, decimal, lemma_decimal,
    lemma_parse_decimal, is_ascii_digit, law_parse_unsigned_literal, unsigned_digits, all_digits,
    digits_value,
};
use crate::text::{chars_of, find_char, prefix_equals, index_of, lemma_index_of, lemma_index_of_found};

verus! {

broadcast use vstd::string::group_string_axioms;

/// Something that can produce a greeting.
pub trait Greeter {
    /// The greeting this value produces.
    spec fn greeting(&self) -> Seq<char>;

    /// Returns a greeting string for this greeter.
    fn greet(&self) -> (s: String)
        ensures
            s@ == self.greeting(),
    ;
}

/// A [`Greeter`] that greets by a fixed name.
pub struct NamedGreeter {
    /// The name to greet.
    pub name: String,
}

impl Greeter for NamedGreeter {
    open spec fn greeting(&self) -> Seq<char> {
        "hello, "@ + self.name@
    }

    fn greet(&self) -> (s: String) {
        let mut s = String::from_str("hello, ");
        s.append(self.name.as_str());
        s
    }
}

/// Calls `greeter.greet()` through a generic bound (static dispatch).
pub fn greet_via_generic<G: Greeter>(greeter: &G) -> (s: String)
    ensures
        s@ == greeter.greeting(),
{
    greeter.greet()
}

/// Calls `greeter.greet()` through a trait object (dynamic dispatch).
pub fn greet_via_trait_object(greeter: &dyn Greeter) -> (s: String)
    ensures
        s@ == greeter.greeting(),
{
    greeter.greet()
}


/// Returns the longer of two string slices (by byte length), preferring `a`
/// on a tie.
pub fn longest<'a>(a: &'a str, b: &'a str) -> (r: &'a str)
    ensures
        r == (if a.len() >= b.len() {
            a
        } else {
            b
        }),
{
    if a.len() >= b.len() {
        a
    } else {
        b
    }
}

/// Borrows a slice of a larger string rather than owning a copy.
pub struct Excerpt<'a> {
    /// The borrowed slice.
    pub part: &'a str,
}

/// `part` is the text of `document` before its first `.` (all of it when
/// there is none).
pub open spec fn is_first_sentence(document: Seq<char>, part: Seq<char>) -> bool {
    &&& part.len() <= document.len()
    &&& part == document.take(part.len() as int)
    &&& !part.contains('.')
    &&& (part.len() == document.len() || document[part.len() as int] == '.')
}

impl<'a> Excerpt<'a> {
    /// Builds an [`Excerpt`] of `document`'s text up to its first `.`.
    pub fn first_sentence(document: &'a str) -> (e: Self)
        ensures
            is_first_sentence(document@, e.part@),
    {
        let cs = chars_of(document);
        let end = match find_char(&cs, '.') {
            Some(i) => i,
            None => cs.len(),
        };
        proof {
            lemma_index_of_found(cs@, '.');
        }
        let part = document.substring_char(0, end);
        assert(part@ =~= document@.take(end as int));
        Excerpt { part }
    }
}

/// Compile-time check that `T` is `Send`; it has no run-time effect.
pub fn assert_send<T: Send>() {
}

/// Compile-time check that `T` is `Sync`; it has no run-time effect.
pub fn assert_sync<T: Sync>() {
}

/// An error in a configuration entry.
#[derive(Debug, PartialEq, Eq)]
pub enum ConfigError {
    /// The expected `key=value` pair was missing or the key did not match.
    MissingField(&'static str),
    /// The field was present but its value could not be parsed.
    InvalidValue {
        /// Which field failed to parse.
        field: &'static str,
        /// Why it failed.
        reason: String,
    },
}

/// The text that describes a `ConfigError`.
pub open spec fn config_error_message(e: ConfigError) -> Seq<char> {
    match e {
        ConfigError::MissingField(field) => "missing field: "@ + field@,
        ConfigError::InvalidValue { field, reason } => "invalid value for "@ + field@ + ": "@
            + reason@,
    }
}

impl ConfigError {
    /// A human-readable description of the error.
    pub fn message(&self) -> (m: String)
        ensures
            m@ == config_error_message(*self),
    {
        match self {
            ConfigError::MissingField(field) => {
                let mut m = String::from_str("missing field: ");
                m.append(field);
                m
            },
            ConfigError::InvalidValue { field, reason } => {
                let mut m = String::from_str("invalid value for ");
                m.append(field);
                m.append(": ");
                m.append(reason.as_str());
                m
            },
        }
    }
}

/// What `parse_timeout_ms` returns for the characters `s`: the text before
/// the first `=` must be `timeout_ms`, and the text after it a `u64`.
pub open spec fn timeout_outcome(s: Seq<char>, r: Result<u64, ConfigError>) -> bool {
    let missing = r matches Err(ConfigError::MissingField(f)) && f@ == "timeout_ms"@;
    match index_of(s, '=') {
        None => missing,
        Some(i) => if s.take(i as int) != "timeout_ms"@ {
            missing
        } else {
            match parse_unsigned(s.skip(i as int + 1), u64::MAX as nat) {
                Ok(v) => r == Ok::<u64, ConfigError>(v as u64),
                Err(k) => r matches Err(ConfigError::InvalidValue { field, reason }) && field@
                    == "timeout_ms"@ && reason@ == kind_message(k),
            }
        },
    }
}

/// Parses a `"timeout_ms=<number>"` entry.
pub fn parse_timeout_ms(input: &str) -> (r: Result<u64, ConfigError>)
    ensures
        timeout_outcome(input@, r),
{
    let cs = chars_of(input);
    let eq = match find_char(&cs, '=') {
        Some(i) => i,
        None => return Err(ConfigError::MissingField("timeout_ms")),
    };
    proof {
        lemma_index_of_found(cs@, '=');
    }
    let key = chars_of("timeout_ms");
    if !prefix_equals(&cs, eq, &key) {
        return Err(ConfigError::MissingField("timeout_ms"));
    }
    assert(eq < cs.len());
    match parse_unsigned_chars(&cs, eq + 1, 0xffff_ffff_ffff_ffffu64) {
        Ok(v) => Ok(v),
        Err(k) => Err(ConfigError::InvalidValue { field: "timeout_ms", reason: k.message() }),
    }
}


/// Every `u64`, written in decimal after `timeout_ms=`, parses back to itself.
pub proof fn law_timeout_round_trip(n: u64)
    ensures
        timeout_outcome("timeout_ms"@ + seq!['='] + decimal(n as nat), Ok::<u64, ConfigError>(n)),
{
    reveal_strlit("timeout_ms");
    let key = "timeout_ms"@;
    let d = decimal(n as nat);
    let s = key + seq!['='] + d;
    assert(key.len() == 10);
    assert forall|j: int| 0 <= j < 10 implies s[j] != '=' by {
        assert(s[j] == key[j]);
    }
    assert(s[10] == '=');
    lemma_index_of(s, '=', 10);
    assert(s.take(10) =~= key);
    assert(s.skip(11) =~= d);
    lemma_parse_decimal(n as nat, u64::MAX as nat);
}


/// With `i` the position of the first `=`: a key other than exactly
/// `timeout_ms` is a missing field; with that key, the result is `Ok(v)`
/// exactly when the rest is an optional `+` and digits whose value `v` fits a
/// `u64`.
pub proof fn law_timeout_key_must_match(s: Seq<char>, r: Result<u64, ConfigError>, i: int)
    requires
        timeout_outcome(s, r),
        0 <= i < s.len(),
        s[i] == '=',
        forall|j: int| 0 <= j < i ==> s[j] != '=',
    ensures
        s.take(i) != "timeout_ms"@ ==> (r matches Err(ConfigError::MissingField(f)) && f@
            == "timeout_ms"@),
        s.take(i) == "timeout_ms"@ ==> (r matches Ok(v) ==> ({
            let d = unsigned_digits(s.skip(i + 1));
            d.len() > 0 && all_digits(d) && digits_value(d) == v
        })),
        s.take(i) == "timeout_ms"@ ==> ({
            let d = unsigned_digits(s.skip(i + 1));
            d.len() > 0 && all_digits(d) && digits_value(d) <= u64::MAX ==> r == Ok::<
                u64,
                ConfigError,
            >(digits_value(d) as u64)
        }),
{
    lemma_index_of(s, '=', i);
    law_parse_unsigned_literal(s.skip(i + 1), u64::MAX as nat);
}

/// Input without any `=` is a missing field.
pub proof fn law_timeout_needs_equals(s: Seq<char>, r: Result<u64, ConfigError>)
    requires
        timeout_outcome(s, r),
        !s.contains('='),
    ensures
        r matches Err(ConfigError::MissingField(f)) && f@ == "timeout_ms"@,
{
    assert forall|j: int| 0 <= j < s.len() implies s[j] != '=' by {
        if s[j] == '=' {
            assert(s.contains('='));
        }
    }
    lemma_index_of(s, '=', s.len() as int);
}

/// An `Ok` result means the text before the first `=` is exactly `timeout_ms`.
pub proof fn law_timeout_ok_needs_exact_key(s: Seq<char>, r: Result<u64, ConfigError>)
    requires
        timeout_outcome(s, r),
        r is Ok,
    ensures
        exists|i: int|
            0 <= i < s.len() && #[trigger] s[i] == '=' && (forall|j: int| 0 <= j < i ==> s[j] != '=')
                && s.take(i) == "timeout_ms"@,
{
    lemma_index_of_found(s, '=');
    let i = index_of(s, '=')->0 as int;
    assert(s[i] == '=');
}

} // verus!
