//! Front-door validation of source text, and a structural summary of it.

use vstd::prelude::*;
use crate::text::{
    chars_of, has_substring, lemma_trim_idempotent, occurs_at, str_contains, trim,
    trim_white_space,
};

verus! {

broadcast use vstd::string::group_string_axioms;

/// What `parse_source` decides for the characters `s`: the trimmed text, or
/// the message of the first check that failed.
pub open spec fn source_check(s: Seq<char>) -> Result<Seq<char>, Seq<char>> {
    if trim(s).len() == 0 {
        Err("source must not be empty"@)
    } else if !has_substring(trim(s), "fn"@) {
        Err("source must contain a function declaration"@)
    } else {
        Ok(trim(s))
    }
}

/// Validates that `source` is non-empty once trimmed and contains a
/// function declaration; returns the trimmed source, or a static message
/// naming the check that failed.
pub fn parse_source(source: &str) -> (r: Result<&str, &'static str>)
    ensures
        r matches Ok(t) ==> source_check(source@) == Ok::<Seq<char>, Seq<char>>(t@),
        r matches Err(e) ==> source_check(source@) == Err::<Seq<char>, Seq<char>>(e@),
{
    let trimmed = trim_white_space(source);
    if trimmed.is_empty() {
        return Err("source must not be empty");
    }
    if !str_contains(trimmed, "fn") {
        return Err("source must contain a function declaration");
    }
    Ok(trimmed)
}

/// Source that `parse_source` accepts is accepted again, unchanged.
pub proof fn law_parse_source_idempotent(s: Seq<char>)
    requires
        source_check(s) is Ok,
    ensures
        source_check(trim(s)) == source_check(s),
{
    lemma_trim_idempotent(s);
}

/// `parse_source` accepts exactly the sources whose trimmed text is non-empty
/// and has `f` immediately followed by `n` somewhere in it, and then gives
/// that trimmed text; empty text is reported before a missing `fn`.
pub proof fn law_parse_source_accepts(s: Seq<char>)
    ensures
        source_check(s) is Ok <==> trim(s).len() > 0 && exists|i: int|
            0 <= i && i + 1 < trim(s).len() && #[trigger] trim(s)[i] == 'f' && trim(s)[i + 1]
                == 'n',
        source_check(s) matches Ok(t) ==> t == trim(s),
        trim(s).len() == 0 ==> source_check(s) == Err::<Seq<char>, Seq<char>>(
            "source must not be empty"@,
        ),
        trim(s).len() > 0 && source_check(s) is Err ==> source_check(s) == Err::<
            Seq<char>,
            Seq<char>,
        >("source must contain a function declaration"@),
{
    reveal_strlit("fn");
    let t = trim(s);
    let kw = "fn"@;
    assert(kw.len() == 2 && kw[0] == 'f' && kw[1] == 'n');
    if has_substring(t, kw) {
        let i = choose|i: int| occurs_at(t, kw, i);
        assert(t.subrange(i, i + 2)[0] == t[i]);
        assert(t.subrange(i, i + 2)[1] == t[i + 1]);
        assert(t[i] == 'f' && t[i + 1] == 'n');
    }
    if exists|i: int| 0 <= i && i + 1 < t.len() && #[trigger] t[i] == 'f' && t[i + 1] == 'n' {
        let i = choose|i: int| 0 <= i && i + 1 < t.len() && #[trigger] t[i] == 'f' && t[i + 1] == 'n';
        assert(t.subrange(i, i + 2) =~= kw);
        assert(occurs_at(t, kw, i));
    }
}

/// A structural summary of source text.
#[derive(Debug)]
pub struct SourceSummary<'a> {
    /// The source text this summary describes.
    pub trimmed: &'a str,
    /// `trimmed`'s length in bytes.
    pub byte_len: usize,
    /// Whether `trimmed` contains the `fn` keyword.
    pub contains_fn: bool,
    /// Number of lines in `trimmed`.
    pub line_count: usize,
}

/// How many times `c` occurs in `s`.
pub open spec fn count_char(s: Seq<char>, c: char) -> nat
    decreases s.len(),
{
    if s.len() == 0 {
        0
    } else {
        count_char(s.drop_last(), c) + if s.last() == c {
            1nat
        } else {
            0nat
        }
    }
}

/// The number of lines `str::lines` yields: lines end at `\n`, and a final
/// line without a terminator still counts.
pub open spec fn line_count(s: Seq<char>) -> nat {
    if s.len() == 0 {
        0
    } else if s.last() == '\n' {
        count_char(s, '\n')
    } else {
        count_char(s, '\n') + 1
    }
}

proof fn lemma_count_char_le(s: Seq<char>, c: char)
    ensures
        count_char(s, c) <= s.len(),
    decreases s.len(),
{
    if s.len() > 0 {
        lemma_count_char_le(s.drop_last(), c);
    }
}

/// Text without a line feed is one line, or none when empty.
pub proof fn law_lines_single(s: Seq<char>)
    requires
        !s.contains('\n'),
    ensures
        line_count(s) == (if s.len() == 0 {
            0nat
        } else {
            1nat
        }),
{
    lemma_count_char_absent(s, '\n');
}

/// A line feed ends a line: what follows it adds its own lines.
pub proof fn law_lines_concat(a: Seq<char>, b: Seq<char>)
    ensures
        line_count(a.push('\n') + b) == line_count(a.push('\n')) + line_count(b),
{
    lemma_count_char_concat(a.push('\n'), b, '\n');
    if b.len() > 0 {
        assert((a.push('\n') + b).last() == b.last());
    } else {
        assert(a.push('\n') + b =~= a.push('\n'));
    }
}

/// The final line ending is optional: adding one after a last line that
/// lacks it does not change the number of lines.
pub proof fn law_lines_final_terminator_optional(a: Seq<char>)
    requires
        a.len() > 0,
        a.last() != '\n',
    ensures
        line_count(a.push('\n')) == line_count(a),
{
    assert(a.push('\n').drop_last() =~= a);
}

proof fn lemma_count_char_absent(s: Seq<char>, c: char)
    requires
        !s.contains(c),
    ensures
        count_char(s, c) == 0,
    decreases s.len(),
{
    if s.len() > 0 {
        assert(s.last() == s[s.len() - 1]);
        assert(!s.drop_last().contains(c)) by {
            if s.drop_last().contains(c) {
                let k = choose|k: int| 0 <= k < s.drop_last().len() && s.drop_last()[k] == c;
                assert(s[k] == c);
            }
        }
        lemma_count_char_absent(s.drop_last(), c);
    }
}

proof fn lemma_count_char_concat(a: Seq<char>, b: Seq<char>, c: char)
    ensures
        count_char(a + b, c) == count_char(a, c) + count_char(b, c),
    decreases b.len(),
{
    if b.len() == 0 {
        assert(a + b =~= a);
    } else {
        assert((a + b).drop_last() =~= a + b.drop_last());
        lemma_count_char_concat(a, b.drop_last(), c);
    }
}

/// Counts the lines of `s` as `str::lines` splits them.
fn count_lines(s: &str) -> (n: usize)
    ensures
        n == line_count(s@),
{
    let cs = chars_of(s);
    let mut newlines: usize = 0;
    let mut i: usize = 0;
    while i < cs.len()
        invariant
            i <= cs@.len(),
            cs@ == s@,
            newlines == count_char(cs@.take(i as int), '\n'),
            newlines <= i,
        decreases cs.len() - i,
    {
        assert(cs@.take(i + 1).drop_last() =~= cs@.take(i as int));
        if cs[i] == '\n' {
            newlines = newlines + 1;
        }
        i = i + 1;
    }
    assert(cs@.take(i as int) =~= cs@);
    if cs.len() == 0 || cs[cs.len() - 1] == '\n' {
        newlines
    } else {
        proof {
            lemma_count_char_le(cs@.drop_last(), '\n');
        }
        newlines + 1
    }
}

/// Builds a [`SourceSummary`] for `source`.
pub fn summarize_source(source: &str) -> (s: SourceSummary<'_>)
    ensures
        s.trimmed == source,
        s.byte_len == source.len(),
        s.contains_fn == has_substring(source@, "fn"@),
        s.line_count == line_count(source@),
{
    SourceSummary {
        trimmed: source,
        byte_len: source.len(),
        contains_fn: str_contains(source, "fn"),
        line_count: count_lines(source),
    }
}

} // verus!
