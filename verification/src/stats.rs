//! Aggregates over slices of `u64`: sum, maximum and run de-duplication.

use vstd::prelude::*;

verus! {

/// The mathematical sum of a sequence of `u64` values.
pub open spec fn seq_sum(s: Seq<u64>) -> nat
    decreases s.len(),
{
    if s.len() == 0 {
        0
    } else {
        seq_sum(s.drop_last()) + s.last() as nat
    }
}

/// Sums a slice of `u64`s.
///
/// Summing panics on overflow in checked builds, so the total must fit.
pub fn sum(values: &[u64]) -> (total: u64)
    requires
        seq_sum(values@) <= u64::MAX,
    ensures
        total == seq_sum(values@),
{
    let mut total: u64 = 0;
    let mut i: usize = 0;
    while i < values.len()
        invariant
            i <= values.len(),
            total == seq_sum(values@.take(i as int)),
            seq_sum(values@) <= u64::MAX,
        decreases values.len() - i,
    {
        proof {
            assert(values@.take(i + 1).drop_last() =~= values@.take(i as int));
            lemma_seq_sum_prefix_le(values@, i + 1);
        }
        total = total + values[i];
        i = i + 1;
    }
    assert(values@.take(i as int) =~= values@);
    total
}

/// The sum of a prefix never exceeds the sum of the whole sequence.
proof fn lemma_seq_sum_prefix_le(s: Seq<u64>, k: int)
    requires
        0 <= k <= s.len(),
    ensures
        seq_sum(s.take(k)) <= seq_sum(s),
    decreases s.len(),
{
    if k < s.len() {
        assert(s.drop_last().take(k) =~= s.take(k));
        lemma_seq_sum_prefix_le(s.drop_last(), k);
    } else {
        assert(s.take(k) =~= s);
    }
}


/// The sum of a concatenation is the sum of its parts.
pub proof fn law_sum_concat(a: Seq<u64>, b: Seq<u64>)
    ensures
        seq_sum(a + b) == seq_sum(a) + seq_sum(b),
    decreases b.len(),
{
    if b.len() == 0 {
        assert(a + b =~= a);
    } else {
        assert((a + b).drop_last() =~= a + b.drop_last());
        law_sum_concat(a, b.drop_last());
    }
}

/// Returns the largest value in `values`, or `None` if it is empty.
pub fn max_value(values: &[u64]) -> (r: Option<u64>)
    ensures
        r is None <==> values@.len() == 0,
        r matches Some(m) ==> values@.contains(m) && forall|i: int|
            0 <= i < values@.len() ==> values@[i] <= m,
{
    if values.len() == 0 {
        return None;
    }
    let mut best: u64 = values[0];
    let mut at: usize = 0;
    let mut i: usize = 1;
    while i < values.len()
        invariant
            1 <= i <= values@.len(),
            at < i,
            values@[at as int] == best,
            forall|j: int| 0 <= j < i ==> values@[j] <= best,
        decreases values.len() - i,
    {
        if values[i] > best {
            best = values[i];
            at = i;
        }
        i = i + 1;
    }
    Some(best)
}

/// `s` with every run of equal adjacent values collapsed to one value.
pub open spec fn dedup_runs(s: Seq<u64>) -> Seq<u64>
    decreases s.len(),
{
    if s.len() == 0 {
        Seq::empty()
    } else if s.len() >= 2 && s[s.len() - 2] == s.last() {
        dedup_runs(s.drop_last())
    } else {
        dedup_runs(s.drop_last()).push(s.last())
    }
}

/// No two adjacent values of `s` are equal.
pub open spec fn no_adjacent_repeats(s: Seq<u64>) -> bool {
    forall|i: int| 0 <= i < s.len() - 1 ==> #[trigger] s[i] != s[i + 1]
}

/// `s` is in non-decreasing order.
pub open spec fn is_sorted(s: Seq<u64>) -> bool {
    forall|i: int, j: int| 0 <= i <= j < s.len() ==> s[i] <= s[j]
}

/// `s` is in strictly increasing order.
pub open spec fn is_strictly_increasing(s: Seq<u64>) -> bool {
    forall|i: int, j: int| 0 <= i < j < s.len() ==> s[i] < s[j]
}

proof fn lemma_dedup_last(s: Seq<u64>)
    ensures
        dedup_runs(s).len() <= s.len(),
        dedup_runs(s).len() == 0 <==> s.len() == 0,
        s.len() > 0 ==> dedup_runs(s).last() == s.last(),
    decreases s.len(),
{
    if s.len() > 0 {
        lemma_dedup_last(s.drop_last());
    }
}

/// Removes consecutive duplicate values. On sorted input this leaves each
/// distinct value once; on unsorted input it collapses adjacent runs.
pub fn dedup_sorted(values: &[u64]) -> (r: Vec<u64>)
    ensures
        r@ == dedup_runs(values@),
{
    let mut result: Vec<u64> = Vec::new();
    let mut i: usize = 0;
    while i < values.len()
        invariant
            i <= values@.len(),
            result@ == dedup_runs(values@.take(i as int)),
        decreases values.len() - i,
    {
        let value = values[i];
        proof {
            lemma_dedup_last(values@.take(i as int));
            assert(values@.take(i + 1).drop_last() =~= values@.take(i as int));
            if i > 0 {
                assert(values@.take(i as int).last() == values@[i - 1]);
            }
        }
        if result.len() == 0 || result[result.len() - 1] != value {
            result.push(value);
        }
        i = i + 1;
    }
    assert(values@.take(i as int) =~= values@);
    result
}

/// The output of `dedup_sorted` never holds two equal adjacent values.
pub proof fn law_dedup_no_adjacent_repeats(s: Seq<u64>)
    ensures
        no_adjacent_repeats(dedup_runs(s)),
    decreases s.len(),
{
    if s.len() > 0 {
        let p = s.drop_last();
        law_dedup_no_adjacent_repeats(p);
        lemma_dedup_last(p);
        let d = dedup_runs(s);
        if !(s.len() >= 2 && s[s.len() - 2] == s.last()) {
            assert forall|i: int| 0 <= i < d.len() - 1 implies #[trigger] d[i] != d[i + 1] by {
                if i == d.len() - 2 {
                    assert(dedup_runs(p).last() == p.last());
                } else {
                    assert(d[i] == dedup_runs(p)[i]);
                    assert(d[i + 1] == dedup_runs(p)[i + 1]);
                }
            }
        }
    }
}

/// `dedup_sorted` keeps exactly the values of its input: nothing is lost
/// and nothing is added.
pub proof fn law_dedup_same_values(s: Seq<u64>, x: u64)
    ensures
        dedup_runs(s).contains(x) <==> s.contains(x),
    decreases s.len(),
{
    if s.len() > 0 {
        let p = s.drop_last();
        let dp = dedup_runs(p);
        let d = dedup_runs(s);
        let merged = s.len() >= 2 && s[s.len() - 2] == s.last();
        law_dedup_same_values(p, x);
        lemma_dedup_last(p);
        lemma_dedup_last(s);
        assert forall|m: int| 0 <= m < dp.len() implies d[m] == dp[m] by {}
        if s.contains(x) {
            let k = choose|k: int| 0 <= k < s.len() && s[k] == x;
            if k < s.len() - 1 || merged {
                let kk = if k < s.len() - 1 { k } else { s.len() - 2 };
                assert(p[kk] == x);
                assert(p.contains(x));
                let m = choose|m: int| 0 <= m < dp.len() && dp[m] == x;
                assert(d[m] == x);
            } else {
                assert(d[d.len() - 1] == x);
            }
            assert(d.contains(x));
        }
        if d.contains(x) {
            let k = choose|k: int| 0 <= k < d.len() && d[k] == x;
            if !merged && k == d.len() - 1 {
                assert(s[s.len() - 1] == x);
            } else {
                assert(dp[k] == x);
                assert(dp.contains(x));
                let m = choose|m: int| 0 <= m < p.len() && p[m] == x;
                assert(s[m] == x);
            }
            assert(s.contains(x));
        }
    }
}

/// On sorted input, `dedup_sorted` gives a strictly increasing sequence:
/// every distinct value exactly once.
pub proof fn law_dedup_sorted_strictly_increasing(s: Seq<u64>)
    requires
        is_sorted(s),
    ensures
        is_strictly_increasing(dedup_runs(s)),
    decreases s.len(),
{
    if s.len() > 0 {
        let p = s.drop_last();
        assert(is_sorted(p));
        law_dedup_sorted_strictly_increasing(p);
        lemma_dedup_last(p);
        let dp = dedup_runs(p);
        let d = dedup_runs(s);
        if !(s.len() >= 2 && s[s.len() - 2] == s.last()) {
            assert forall|i: int, j: int| 0 <= i < j < d.len() implies d[i] < d[j] by {
                if j == d.len() - 1 {
                    assert(dp.contains(dp[i]));
                    law_dedup_same_values(p, dp[i]);
                    let m = choose|m: int| 0 <= m < p.len() && p[m] == dp[i];
                    assert(s[m] <= s[s.len() - 2]);
                    assert(s[s.len() - 2] <= s.last());
                    assert(dp.last() == p.last());
                    if i < dp.len() - 1 {
                        assert(dp[i] < dp[dp.len() - 1]);
                    }
                } else {
                    assert(d[i] == dp[i]);
                    assert(d[j] == dp[j]);
                }
            }
        }
    }
}

/// Collapsing runs leaves a sequence without repeats unchanged, so
/// `dedup_sorted` is idempotent.
pub proof fn law_dedup_idempotent(s: Seq<u64>)
    ensures
        dedup_runs(dedup_runs(s)) == dedup_runs(s),
{
    law_dedup_no_adjacent_repeats(s);
    lemma_dedup_identity(dedup_runs(s));
}

proof fn lemma_dedup_identity(s: Seq<u64>)
    requires
        no_adjacent_repeats(s),
    ensures
        dedup_runs(s) == s,
    decreases s.len(),
{
    if s.len() > 0 {
        let p = s.drop_last();
        assert(no_adjacent_repeats(p)) by {
            assert forall|i: int| 0 <= i < p.len() - 1 implies #[trigger] p[i] != p[i + 1] by {
                assert(s[i] != s[i + 1]);
            }
        }
        lemma_dedup_identity(p);
        if s.len() >= 2 {
            assert(s[s.len() - 2] != s[s.len() - 1]);
        }
        assert(p.push(s.last()) =~= s);
    }
}

} // verus!
