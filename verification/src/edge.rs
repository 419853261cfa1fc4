//! Boundary-value helpers.

use vstd::prelude::*;
use vstd::string::StringSliceAdditionalSpecFns;
use vstd::utf8::{is_char_boundary, encode_utf8_valid_utf8};

verus! {

/// Caps the byte length of `input` at `max`. The cap counts bytes, so it
/// can fall inside a multi-byte character.
pub fn clamp_len(input: &str, max: usize) -> (n: usize)
    ensures
        n == (if input.len() <= max {
            input.len()
        } else {
            max
        }),
{
    let len = input.len();
    if len <= max {
        len
    } else {
        max
    }
}


/// Truncates `input` to at most `max` bytes without splitting a character:
/// the cut walks back from `max` to the nearest character boundary.
pub fn safe_truncate(input: &str, max: usize) -> (t: &str)
    ensures
        t.spec_bytes().len() <= max,
        t.spec_bytes() == input.spec_bytes().take(t.spec_bytes().len() as int),
        is_char_boundary(input.spec_bytes(), t.spec_bytes().len() as int),
        forall|k: int|
            t.spec_bytes().len() < k <= max && k <= input.spec_bytes().len()
                ==> !#[trigger] is_char_boundary(input.spec_bytes(), k),
{
    let ghost b = input.spec_bytes();
    proof {
        encode_utf8_valid_utf8(input@);
    }
    let bytes = input.as_bytes();
    let len = bytes.len();
    if len <= max {
        assert(b.take(b.len() as int) =~= b);
        assert(is_char_boundary(b, b.len() as int)) by {
            vstd::utf8::is_char_boundary_start_end_of_seq(b);
        }
        return input;
    }
    let mut end: usize = max;
    assert(is_char_boundary(b, 0));
    while !input.is_char_boundary(end)
        invariant
            end <= max < len == b.len(),
            b == input.spec_bytes(),
            is_char_boundary(b, 0),
            forall|k: int| end < k <= max ==> !#[trigger] is_char_boundary(b, k),
        decreases end,
    {
        end = end - 1;
    }
    let (head, _) = input.split_at(end);
    assert(head.spec_bytes() =~= b.take(end as int));
    head
}

} // verus!
