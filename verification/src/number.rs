//! Decimal parsing of unsigned integers, following the grammar of
//! `u32::from_str` / `u64::from_str`: an optional `+` sign followed by one or
//! more ASCII digits whose value fits the target type.

use vstd::prelude::*;

verus! {

/// Why a decimal string was not accepted.
#[derive(Debug, Clone, Copy, PartialEq, Eq, Structural)]
pub enum IntErrorKind {
    /// The string was empty.
    Empty,
    /// A character that is not an ASCII digit was found (or a lone sign).
    InvalidDigit,
    /// The value does not fit the target type.
    PosOverflow,
}

/// The description of each error kind, as the standard library words it.
pub open spec fn kind_message(kind: IntErrorKind) -> Seq<char> {
    match kind {
        IntErrorKind::Empty => "cannot parse integer from empty string"@,
        IntErrorKind::InvalidDigit => "invalid digit found in string"@,
        IntErrorKind::PosOverflow => "number too large to fit in target type"@,
    }
}

impl IntErrorKind {
    /// A human-readable description of the error.
    pub fn message(&self) -> (m: String)
        ensures
            m@ == kind_message(*self),
    {
        match self {
            IntErrorKind::Empty => String::from_str("cannot parse integer from empty string"),
            IntErrorKind::InvalidDigit => String::from_str("invalid digit found in string"),
            IntErrorKind::PosOverflow => String::from_str("number too large to fit in target type"),
        }
    }
}

/// `c` is one of `0`..=`9`.
pub open spec fn is_ascii_digit(c: char) -> bool {
    '0' <= c && c <= '9'
}

/// The value of the ASCII digit `c`.
pub open spec fn digit_value(c: char) -> nat {
    (c as int - '0' as int) as nat
}

/// Every character of `s` is an ASCII digit.
pub open spec fn all_digits(s: Seq<char>) -> bool {
    forall|i: int| 0 <= i < s.len() ==> is_ascii_digit(#[trigger] s[i])
}

/// The value of the digits `d` read left to right, starting from `acc`.
pub open spec fn digits_value_from(d: Seq<char>, acc: nat) -> nat
    decreases d.len(),
{
    if d.len() == 0 {
        acc
    } else {
        digits_value_from(d.drop_first(), acc * 10 + digit_value(d[0]))
    }
}

/// The value of a run of decimal digits.
pub open spec fn digits_value(d: Seq<char>) -> nat {
    digits_value_from(d, 0)
}

/// Reads `d` left to right, continuing from the value `acc`: the first
/// non-digit is an invalid digit, and the first digit that takes the value
/// above `max` is an overflow.
pub open spec fn scan_digits(d: Seq<char>, acc: nat, max: nat) -> Result<nat, IntErrorKind>
    decreases d.len(),
{
    if d.len() == 0 {
        Ok(acc)
    } else if !is_ascii_digit(d[0]) {
        Err(IntErrorKind::InvalidDigit)
    } else if acc * 10 + digit_value(d[0]) > max {
        Err(IntErrorKind::PosOverflow)
    } else {
        scan_digits(d.drop_first(), acc * 10 + digit_value(d[0]), max)
    }
}

/// The outcome of parsing `s` as an unsigned integer no larger than `max`.
pub open spec fn parse_unsigned(s: Seq<char>, max: nat) -> Result<nat, IntErrorKind> {
    if s.len() == 0 {
        Err(IntErrorKind::Empty)
    } else if s[0] == '+' {
        if s.len() == 1 {
            Err(IntErrorKind::InvalidDigit)
        } else {
            scan_digits(s.drop_first(), 0, max)
        }
    } else {
        scan_digits(s, 0, max)
    }
}

/// Parses `s[start..]` as an unsigned decimal integer no larger than `max`.
pub(crate) fn parse_unsigned_chars(s: &Vec<char>, start: usize, max: u64) -> (r: Result<
    u64,
    IntErrorKind,
>)
    requires
        start <= s@.len(),
    ensures
        r is Ok <==> parse_unsigned(s@.skip(start as int), max as nat) is Ok,
        r matches Ok(v) ==> parse_unsigned(s@.skip(start as int), max as nat) == Ok::<
            nat,
            IntErrorKind,
        >(v as nat),
        r matches Err(k) ==> parse_unsigned(s@.skip(start as int), max as nat) == Err::<
            nat,
            IntErrorKind,
        >(k),
{
    let ghost full = s@.skip(start as int);
    if start == s.len() {
        return Err(IntErrorKind::Empty);
    }
    let mut i = start;
    if s[start] == '+' {
        if start + 1 == s.len() {
            return Err(IntErrorKind::InvalidDigit);
        }
        i = start + 1;
        assert(full.drop_first() =~= s@.skip(i as int));
    } else {
        assert(full =~= s@.skip(i as int));
    }
    let ghost digits = s@.skip(i as int);
    assert(parse_unsigned(full, max as nat) == scan_digits(digits, 0, max as nat));
    let mut acc: u64 = 0;
    while i < s.len()
        invariant
            start <= i <= s@.len(),
            acc <= max,
            full == s@.skip(start as int),
            parse_unsigned(full, max as nat) == scan_digits(digits, 0, max as nat),
            scan_digits(digits, 0, max as nat) == scan_digits(s@.skip(i as int), acc as nat, max as nat),
        decreases s.len() - i,
    {
        let c = s[i];
        let ghost rest = s@.skip(i as int);
        assert(rest[0] == c);
        if !('0' <= c && c <= '9') {
            return Err(IntErrorKind::InvalidDigit);
        }
        let d: u64 = (c as u32 - '0' as u32) as u64;
        assert(d == digit_value(c));
        let next = match acc.checked_mul(10) {
            Some(t) => t.checked_add(d),
            None => None,
        };
        match next {
            Some(v) if v <= max => {
                assert(rest.drop_first() =~= s@.skip(i + 1));
                acc = v;
                i = i + 1;
            },
            _ => {
                return Err(IntErrorKind::PosOverflow);
            },
        }
    }
    assert(s@.skip(i as int).len() == 0);
    Ok(acc)
}


/// The ASCII character of the decimal digit `d`.
pub open spec fn digit_char(d: nat) -> char {
    if d == 0 {
        '0'
    } else if d == 1 {
        '1'
    } else if d == 2 {
        '2'
    } else if d == 3 {
        '3'
    } else if d == 4 {
        '4'
    } else if d == 5 {
        '5'
    } else if d == 6 {
        '6'
    } else if d == 7 {
        '7'
    } else if d == 8 {
        '8'
    } else {
        '9'
    }
}

/// The canonical decimal rendering of `n`: no sign, no leading zeros.
pub open spec fn decimal(n: nat) -> Seq<char>
    decreases n,
{
    if n < 10 {
        seq![digit_char(n)]
    } else {
        decimal(n / 10).push(digit_char(n % 10))
    }
}

proof fn lemma_digit_char(d: nat)
    requires
        d < 10,
    ensures
        is_ascii_digit(digit_char(d)),
        digit_value(digit_char(d)) == d,
{
}

proof fn lemma_value_from_ge(d: Seq<char>, acc: nat)
    ensures
        digits_value_from(d, acc) >= acc,
    decreases d.len(),
{
    if d.len() > 0 {
        lemma_value_from_ge(d.drop_first(), acc * 10 + digit_value(d[0]));
    }
}

/// Digits whose value stays within `max` are read without error.
proof fn lemma_scan_in_range(d: Seq<char>, acc: nat, max: nat)
    requires
        all_digits(d),
        digits_value_from(d, acc) <= max,
    ensures
        scan_digits(d, acc, max) == Ok::<nat, IntErrorKind>(digits_value_from(d, acc)),
    decreases d.len(),
{
    if d.len() > 0 {
        let next = acc * 10 + digit_value(d[0]);
        lemma_value_from_ge(d.drop_first(), next);
        assert(is_ascii_digit(d[0]));
        assert(all_digits(d.drop_first())) by {
            assert forall|i: int| 0 <= i < d.drop_first().len() implies is_ascii_digit(
                #[trigger] d.drop_first()[i],
            ) by {
                assert(d.drop_first()[i] == d[i + 1]);
            }
        }
        lemma_scan_in_range(d.drop_first(), next, max);
    }
}

proof fn lemma_value_push(d: Seq<char>, c: char, acc: nat)
    ensures
        digits_value_from(d.push(c), acc) == digits_value_from(d, acc) * 10 + digit_value(c),
    decreases d.len(),
{
    if d.len() == 0 {
        assert(d.push(c).drop_first() =~= d);
        assert(d.push(c)[0] == c);
        assert(digits_value_from(d, acc * 10 + digit_value(c)) == acc * 10 + digit_value(c));
    } else {
        assert(d.push(c).drop_first() =~= d.drop_first().push(c));
        assert(d.push(c)[0] == d[0]);
        lemma_value_push(d.drop_first(), c, acc * 10 + digit_value(d[0]));
    }
}

/// The decimal rendering of `n` is a non-empty run of digits whose value is `n`.
pub proof fn lemma_decimal(n: nat)
    ensures
        decimal(n).len() > 0,
        all_digits(decimal(n)),
        digits_value(decimal(n)) == n,
    decreases n,
{
    if n < 10 {
        lemma_digit_char(n);
        let d = decimal(n);
        assert(d.drop_first() =~= Seq::<char>::empty());
        assert(d[0] == digit_char(n));
        assert(digits_value_from(d.drop_first(), digit_value(d[0])) == digit_value(d[0]));
    } else {
        let q = n / 10;
        let r = n % 10;
        lemma_decimal(q);
        lemma_digit_char(r);
        lemma_value_push(decimal(q), digit_char(r), 0);
        let d = decimal(n);
        assert(d == decimal(q).push(digit_char(r)));
        assert(all_digits(d)) by {
            assert forall|i: int| 0 <= i < d.len() implies is_ascii_digit(#[trigger] d[i]) by {
                if i < d.len() - 1 {
                    assert(d[i] == decimal(q)[i]);
                }
            }
        }
        assert(q * 10 + r == n);
    }
}

/// Parsing the decimal rendering of any `n` within range gives back `n`.
pub proof fn lemma_parse_decimal(n: nat, max: nat)
    requires
        n <= max,
    ensures
        parse_unsigned(decimal(n), max) == Ok::<nat, IntErrorKind>(n),
{
    lemma_decimal(n);
    let d = decimal(n);
    assert(is_ascii_digit(d[0]));
    lemma_scan_in_range(d, 0, max);
}


/// A successful scan read only digits, and its value is the digits' value.
proof fn lemma_scan_ok(d: Seq<char>, acc: nat, max: nat)
    ensures
        scan_digits(d, acc, max) matches Ok(v) ==> all_digits(d) && v == digits_value_from(d, acc)
            && (acc <= max ==> v <= max),
    decreases d.len(),
{
    if d.len() > 0 && is_ascii_digit(d[0]) && acc * 10 + digit_value(d[0]) <= max {
        let next = acc * 10 + digit_value(d[0]);
        lemma_scan_ok(d.drop_first(), next, max);
        if scan_digits(d, acc, max) is Ok {
            assert forall|i: int| 0 <= i < d.len() implies is_ascii_digit(#[trigger] d[i]) by {
                if i > 0 {
                    assert(d[i] == d.drop_first()[i - 1]);
                }
            }
        }
    }
}

/// The digits of an unsigned literal: `t` without one leading `+`.
pub open spec fn unsigned_digits(t: Seq<char>) -> Seq<char> {
    if t.len() > 0 && t[0] == '+' {
        t.drop_first()
    } else {
        t
    }
}

/// `parse_unsigned` accepts exactly an optional `+` followed by one or more
/// ASCII digits whose value is at most `max`, and then gives that value.
pub proof fn law_parse_unsigned_literal(t: Seq<char>, max: nat)
    ensures
        parse_unsigned(t, max) matches Ok(v) ==> unsigned_digits(t).len() > 0 && all_digits(
            unsigned_digits(t),
        ) && digits_value(unsigned_digits(t)) == v && v <= max,
        unsigned_digits(t).len() > 0 && all_digits(unsigned_digits(t)) && digits_value(
            unsigned_digits(t),
        ) <= max ==> parse_unsigned(t, max) == Ok::<nat, IntErrorKind>(
            digits_value(unsigned_digits(t)),
        ),
        (exists|i: int|
            0 <= i < t.len() && !is_ascii_digit(#[trigger] t[i]) && !(i == 0 && t[i] == '+'))
            ==> parse_unsigned(t, max) is Err,
{
    let d = unsigned_digits(t);
    lemma_scan_ok(d, 0, max);
    if d.len() > 0 && all_digits(d) && digits_value(d) <= max {
        lemma_scan_in_range(d, 0, max);
    }
    if exists|i: int|
        0 <= i < t.len() && !is_ascii_digit(#[trigger] t[i]) && !(i == 0 && t[i] == '+') {
        let i = choose|i: int|
            0 <= i < t.len() && !is_ascii_digit(#[trigger] t[i]) && !(i == 0 && t[i] == '+');
        if parse_unsigned(t, max) is Ok {
            if t[0] == '+' {
                assert(d[i - 1] == t[i]);
            } else {
                assert(d[i] == t[i]);
            }
        }
    }
}

} // verus!
