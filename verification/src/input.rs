//! Entry points that must accept arbitrary input without panicking:
//! UTF-8 validation of raw bytes and whitespace-tolerant `u32` parsing.

use vstd::prelude::*;
use vstd::string::StringSliceAdditionalSpecFns;
use vstd::utf8::{valid_utf8, decode_utf8, encode_utf8, encode_utf8_decode_utf8, encode_utf8_valid_utf8};
use std::str::Utf8Error;
use crate::number::{
    parse_unsigned, parse_unsigned_chars, decimal, lemma_decimal, lemma_parse_decimal,
    law_parse_unsigned_literal, unsigned_digits, all_digits, digits_value, is_ascii_digit,
};
use crate::text::{trim, trim_white_space, chars_of, all_white_space, lemma_trim_padded};

verus! {

#[verifier::external_type_specification]
#[verifier::external_body]
pub struct ExUtf8Error(Utf8Error);

/// Calls `std::str::from_utf8`. Trusted claim: it succeeds exactly on the
/// well-formed UTF-8 byte sequences, and the string it then returns is a
/// view of the same bytes.
#[verifier::external_body]
fn str_from_utf8(bytes: &[u8]) -> (r: Result<&str, Utf8Error>)
    ensures
        r is Ok <==> valid_utf8(bytes@),
        r matches Ok(s) ==> s.spec_bytes() == bytes@,
{
    std::str::from_utf8(bytes)
}

/// Validates that `bytes` is well-formed UTF-8, returning the borrowed
/// `&str` view on success. Never panics, on any input.
pub fn utf8_input(bytes: &[u8]) -> (r: Result<&str, Utf8Error>)
    ensures
        r is Ok <==> valid_utf8(bytes@),
        r matches Ok(s) ==> s.spec_bytes() == bytes@ && s@ == decode_utf8(bytes@),
{
    let r = str_from_utf8(bytes);
    proof {
        if let Ok(s) = r {
            encode_utf8_decode_utf8(s@);
        }
    }
    r
}

/// What `parse_u32_lenient` returns for the characters `s`.
pub open spec fn lenient_u32(s: Seq<char>) -> Option<u32> {
    match parse_unsigned(trim(s), u32::MAX as nat) {
        Ok(v) => Some(v as u32),
        Err(_) => None,
    }
}

/// Parses `input` as a `u32`, ignoring leading and trailing white space.
/// Anything else that does not parse (empty, non-numeric, out of range)
/// gives `None`; no input makes it panic.
pub fn parse_u32_lenient(input: &str) -> (r: Option<u32>)
    ensures
        r == lenient_u32(input@),
{
    let t = trim_white_space(input);
    let cs = chars_of(t);
    assert(cs@.skip(0) =~= cs@);
    match parse_unsigned_chars(&cs, 0, 0xffff_ffffu64) {
        Ok(v) => Some(v as u32),
        Err(_) => None,
    }
}


/// The bytes of any string are accepted by `utf8_input`, which gives back
/// exactly that string's characters.
pub proof fn law_utf8_round_trip(chars: Seq<char>)
    ensures
        valid_utf8(encode_utf8(chars)),
        decode_utf8(encode_utf8(chars)) == chars,
{
    encode_utf8_valid_utf8(chars);
    encode_utf8_decode_utf8(chars);
}

/// Every `u32`, written in decimal and padded on either side with any white
/// space, parses back to itself.
pub proof fn law_lenient_round_trip(n: u32, lead: Seq<char>, trail: Seq<char>)
    requires
        all_white_space(lead),
        all_white_space(trail),
    ensures
        lenient_u32(lead + decimal(n as nat) + trail) == Some(n),
{
    let d = decimal(n as nat);
    lemma_decimal(n as nat);
    assert(crate::number::is_ascii_digit(d[0]));
    assert(crate::number::is_ascii_digit(d[d.len() - 1]));
    lemma_trim_padded(lead, d, trail);
    lemma_parse_decimal(n as nat, u32::MAX as nat);
}


/// `parse_u32_lenient` gives `Some(v)` exactly when the trimmed input is an
/// optional `+` followed by one or more ASCII digits whose value `v` fits a
/// `u32`; any other character in the trimmed input gives `None`.
pub proof fn law_lenient_accepts_exactly_numbers(s: Seq<char>)
    ensures
        lenient_u32(s) matches Some(v) ==> unsigned_digits(trim(s)).len() > 0 && all_digits(
            unsigned_digits(trim(s)),
        ) && digits_value(unsigned_digits(trim(s))) == v,
        unsigned_digits(trim(s)).len() > 0 && all_digits(unsigned_digits(trim(s))) && digits_value(
            unsigned_digits(trim(s)),
        ) <= u32::MAX ==> lenient_u32(s) == Some(digits_value(unsigned_digits(trim(s))) as u32),
        (exists|i: int|
            0 <= i < trim(s).len() && !is_ascii_digit(#[trigger] trim(s)[i]) && !(i == 0 && trim(
                s,
            )[i] == '+')) ==> lenient_u32(s) is None,
{
    law_parse_unsigned_literal(trim(s), u32::MAX as nat);
}

} // verus!
