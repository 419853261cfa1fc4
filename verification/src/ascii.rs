//! ASCII helpers that touch only `core` items.

use vstd::prelude::*;
use vstd::string::StringSliceAdditionalSpecFns;

verus! {

/// The ASCII lowercase of a byte; bytes other than `A`..=`Z` are unchanged.
pub open spec fn ascii_lower(b: u8) -> u8 {
    if 65 <= b && b <= 90 {
        (b + 32) as u8
    } else {
        b
    }
}

/// Computes `ascii_lower`.
fn to_ascii_lower(b: u8) -> (r: u8)
    ensures
        r == ascii_lower(b),
{
    if 65 <= b && b <= 90 {
        b + 32
    } else {
        b
    }
}

/// The bytes read the same forwards and backwards, ignoring ASCII case.
pub open spec fn is_ascii_palindrome_bytes(b: Seq<u8>) -> bool {
    forall|i: int| 0 <= i < b.len() ==> #[trigger] ascii_lower(b[i]) == ascii_lower(b[b.len() - 1 - i])
}

/// Checks whether a string reads the same forwards and backwards, comparing
/// its bytes without regard to ASCII case, and without allocating.
pub fn is_ascii_palindrome(input: &str) -> (r: bool)
    ensures
        r == is_ascii_palindrome_bytes(input.spec_bytes()),
{
    let bytes = input.as_bytes();
    let ghost b = bytes@;
    let mut left: usize = 0;
    let mut right: usize = bytes.len();
    while left < right
        invariant
            b == bytes@,
            b == input.spec_bytes(),
            left + right == b.len(),
            left <= b.len(),
            forall|i: int| 0 <= i < left ==> #[trigger] ascii_lower(b[i]) == ascii_lower(b[b.len() - 1 - i]),
        decreases right,
    {
        right = right - 1;
        if to_ascii_lower(bytes[left]) != to_ascii_lower(bytes[right]) {
            assert(!(ascii_lower(b[left as int]) == ascii_lower(b[b.len() - 1 - left])));
            return false;
        }
        left = left + 1;
    }
    assert forall|i: int| 0 <= i < b.len() implies #[trigger] ascii_lower(b[i]) == ascii_lower(
        b[b.len() - 1 - i],
    ) by {
        if i >= left {
            let j = b.len() - 1 - i;
            assert(0 <= j < left);
            assert(b.len() - 1 - j == i);
        }
    }
    true
}

/// Whether a byte string is an ASCII palindrome does not depend on the
/// ASCII case of its letters.
pub proof fn law_palindrome_ignores_case(x: Seq<u8>, y: Seq<u8>)
    requires
        x.len() == y.len(),
        forall|i: int| 0 <= i < x.len() ==> ascii_lower(#[trigger] x[i]) == ascii_lower(y[i]),
    ensures
        is_ascii_palindrome_bytes(x) == is_ascii_palindrome_bytes(y),
{
    assert forall|i: int| 0 <= i < x.len() implies (#[trigger] ascii_lower(x[i]) == ascii_lower(
        x[x.len() - 1 - i],
    )) == (ascii_lower(y[i]) == ascii_lower(y[y.len() - 1 - i])) by {
        assert(ascii_lower(x[x.len() - 1 - i]) == ascii_lower(y[x.len() - 1 - i]));
    }
    if is_ascii_palindrome_bytes(y) {
        assert forall|i: int| 0 <= i < x.len() implies #[trigger] ascii_lower(x[i]) == ascii_lower(
            x[x.len() - 1 - i],
        ) by {
            assert(ascii_lower(y[i]) == ascii_lower(y[y.len() - 1 - i]));
        }
    }
    if is_ascii_palindrome_bytes(x) {
        assert forall|i: int| 0 <= i < y.len() implies #[trigger] ascii_lower(y[i]) == ascii_lower(
            y[y.len() - 1 - i],
        ) by {
            assert(ascii_lower(x[i]) == ascii_lower(x[x.len() - 1 - i]));
        }
    }
}

/// The reverse of an ASCII palindrome is one too.
pub proof fn law_palindrome_reverse(x: Seq<u8>)
    ensures
        is_ascii_palindrome_bytes(x) == is_ascii_palindrome_bytes(x.reverse()),
{
    let y = x.reverse();
    assert forall|i: int| 0 <= i < x.len() implies #[trigger] y[i] == x[x.len() - 1 - i] by {}
    if is_ascii_palindrome_bytes(x) {
        assert forall|i: int| 0 <= i < y.len() implies #[trigger] ascii_lower(y[i]) == ascii_lower(
            y[y.len() - 1 - i],
        ) by {
            assert(ascii_lower(x[x.len() - 1 - i]) == ascii_lower(x[x.len() - 1 - (x.len() - 1 - i)]));
        }
    }
    if is_ascii_palindrome_bytes(y) {
        assert forall|i: int| 0 <= i < x.len() implies #[trigger] ascii_lower(x[i]) == ascii_lower(
            x[x.len() - 1 - i],
        ) by {
            assert(ascii_lower(y[y.len() - 1 - i]) == ascii_lower(y[y.len() - 1 - (y.len() - 1 - i)]));
        }
    }
}

} // verus!
