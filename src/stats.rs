use crate::sparse::get_mut_at_with_extend;
use vstd::multiset::Multiset;
use vstd::prelude::*;
use vstd::relations::{sorted_by, total_ordering};
use vstd::seq_lib::lemma_sorted_unique;

verus! {

broadcast use vstd::seq_lib::group_to_multiset_ensures;

/// Closed-form summary of a sample of 16-bit values.
///
/// The mean and the standard deviation are real numbers; they are carried
/// exactly by `sum` and `sum_of_squares`: the mean is `sum / num`, and the
/// deviation is the square root of `sum_of_squares - sum * sum / num`
/// divided by `deviation_divisor`.
#[derive(Clone, Copy, Debug, PartialEq, Eq)]
pub struct Statistics {
    pub num: u64,
    pub min: u16,
    pub max: u16,
    pub sum: u128,
    pub sum_of_squares: u128,
    pub median: u16,
    pub mode: u16,
}

/// `s` is in ascending order.
pub open spec fn ascending(s: Seq<u16>) -> bool {
    forall|i: int, j: int| 0 <= i <= j < s.len() ==> s[i] <= s[j]
}

/// Sum of the values of `s`.
pub open spec fn sum_of(s: Seq<u16>) -> int
    decreases s.len(),
{
    if s.len() == 0 {
        0
    } else {
        sum_of(s.drop_last()) + s.last()
    }
}

/// Sum of the squares of the values of `s`.
pub open spec fn squares_of(s: Seq<u16>) -> int
    decreases s.len(),
{
    if s.len() == 0 {
        0
    } else {
        squares_of(s.drop_last()) + s.last() * s.last()
    }
}

/// Number of times `v` occurs in `s`.
pub open spec fn occurrences(s: Seq<u16>, v: u16) -> nat {
    s.to_multiset().count(v)
}

/// `m` occurs at least as often as any value, and strictly more often than
/// every smaller value: the most frequent value, the smallest among ties.
pub open spec fn is_mode(s: Seq<u16>, m: u16) -> bool {
    &&& forall|v: u16| occurrences(s, v) <= occurrences(s, m)
    &&& forall|v: u16| v < m ==> occurrences(s, v) < occurrences(s, m)
}

/// The mode of `s` (0 for an empty sample).
pub open spec fn mode_of(s: Seq<u16>) -> u16 {
    choose|m: u16| is_mode(s, m)
}

/// Index of the upper neighbour used for the median of an even-length
/// sorted sample: the element after the one at `len / 2`, or the last
/// element when there is none.
pub open spec fn upper_neighbour(len: int) -> int {
    if len / 2 + 1 < len {
        len / 2 + 1
    } else {
        len - 1
    }
}

/// Median of an ascending sample: the middle element for an odd length; for
/// an even length the rounded-up average of the element at `len / 2` and its
/// upper neighbour; 0 for an empty sample.
pub open spec fn median_of(s: Seq<u16>) -> u16 {
    if s.len() == 0 {
        0
    } else if s.len() % 2 == 1 {
        s[(s.len() / 2) as int]
    } else {
        ((s[(s.len() / 2) as int] + s[upper_neighbour(s.len() as int)] + 1) / 2) as u16
    }
}

/// The statistics of an ascending sample. An empty sample gives the
/// degenerate record: no values, `min` at `u16::MAX` and every other field 0.
pub open spec fn statistics_of(s: Seq<u16>) -> Statistics {
    Statistics {
        num: s.len() as u64,
        min: if s.len() == 0 { u16::MAX } else { s[0] },
        max: if s.len() == 0 { 0 } else { s.last() },
        sum: sum_of(s) as u128,
        sum_of_squares: squares_of(s) as u128,
        median: median_of(s),
        mode: mode_of(s),
    }
}

/// Relies on `slice::sort`: orders the slice ascending, keeping its elements.
#[verifier::external_body]
fn sort_ascending(v: &mut Vec<u16>)
    ensures
        ascending(final(v)@),
        final(v)@.to_multiset() == old(v)@.to_multiset(),
{
    v.sort()
}

/// Number of occurrences that a table of counts indexed by value holds for
/// `v`; values past the end of the table have none.
pub open spec fn count_at(counts: Seq<usize>, v: int) -> int {
    if 0 <= v < counts.len() {
        counts[v] as int
    } else {
        0
    }
}

proof fn lemma_sum_bounds(s: Seq<u16>)
    ensures
        0 <= sum_of(s) <= s.len() * 65535,
        0 <= squares_of(s) <= s.len() * (65535 * 65535),
    decreases s.len(),
{
    if s.len() > 0 {
        lemma_sum_bounds(s.drop_last());
        let x = s.last();
        assert(0 <= x * x <= 65535 * 65535) by (nonlinear_arith)
            requires
                0 <= x <= 65535,
        ;
        let n = s.drop_last().len();
        assert(s.len() * (65535 * 65535) == n * (65535 * 65535) + 65535 * 65535) by (
        nonlinear_arith)
            requires
                s.len() == n + 1,
        ;
        assert(s.len() * 65535 == n * 65535 + 65535);
    }
}

impl Statistics {
    /// What the root of the squared deviations is divided by: one less than
    /// the number of values. `None` where the deviation is undefined: for a
    /// single value (reported as -1) and for no value.
    pub fn deviation_divisor(&self) -> (r: Option<u64>)
        ensures
            self.num >= 2 ==> r == Some((self.num - 1) as u64),
            self.num < 2 ==> r is None,
    {
        if self.num >= 2 {
            Some(self.num - 1)
        } else {
            None
        }
    }

    /// Sorts `vals` ascending and summarises it: count, extrema, sum, sum of
    /// squares, median and mode.
    pub fn of(vals: &mut Vec<u16>) -> (r: Statistics)
        ensures
            ascending(final(vals)@),
            final(vals)@.to_multiset() == old(vals)@.to_multiset(),
            r == statistics_of(final(vals)@),
    {
        sort_ascending(vals);
        let ghost s = vals@;
        let len = vals.len();
        let median: u16 = if len == 0 {
            0
        } else if len % 2 == 1 {
            vals[len / 2]
        } else {
            let a = vals[len / 2];
            let b = if len / 2 + 1 < len {
                vals[len / 2 + 1]
            } else {
                vals[len - 1]
            };
            ((a as u32 + b as u32 + 1) / 2) as u16
        };

        let mut min_val: u16 = u16::MAX;
        let mut max_val: u16 = 0;
        let mut sum: u128 = 0;
        let mut sum_of_squares: u128 = 0;
        let mut counts: Vec<usize> = Vec::new();
        let mut i: usize = 0;
        while i < len
            invariant
                len == vals.len(),
                s == vals@,
                ascending(s),
                i <= len,
                i == 0 ==> min_val == u16::MAX && max_val == 0,
                i > 0 ==> min_val == s[0] && max_val == s[i - 1],
                sum == sum_of(s.take(i as int)),
                sum_of_squares == squares_of(s.take(i as int)),
                counts@.len() <= 65536,
                forall|v: u16| count_at(counts@, v as int) == #[trigger] occurrences(s.take(i as int), v),
            decreases len - i,
        {
            let val = vals[i];
            proof {
                let t = s.take(i as int);
                lemma_sum_bounds(t);
                assert(s.take(i + 1) == t.push(val));
                assert(s.take(i + 1).drop_last() == t);
                assert(val as int * val as int <= 65535 * 65535) by (nonlinear_arith)
                    requires
                        val <= 65535,
                ;
                assert(t.len() * 65535 + 65535 < u128::MAX) by (nonlinear_arith)
                    requires
                        t.len() <= usize::MAX,
                ;
                assert(t.len() * (65535 * 65535) + 65535 * 65535 < u128::MAX) by (nonlinear_arith)
                    requires
                        t.len() <= usize::MAX,
                ;
            }
            if val < min_val {
                min_val = val;
            }
            if val > max_val {
                max_val = val;
            }
            sum = sum + val as u128;
            sum_of_squares = sum_of_squares + val as u128 * val as u128;
            let ghost before = counts@;
            proof {
                let t = s.take(i as int);
                lemma_occurrences_le_len(t, val);
                assert(count_at(counts@, val as int) == occurrences(t, val));
            }
            let c = get_mut_at_with_extend(&mut counts, val as usize);
            *c = *c + 1;
            proof {
                let t = s.take(i as int);
                assert(s.take(i + 1).to_multiset() == t.to_multiset().insert(val));
                assert forall|v: u16| count_at(counts@, v as int) == #[trigger] occurrences(
                    s.take(i + 1),
                    v,
                ) by {
                    assert(occurrences(t, v) == count_at(before, v as int));
                }
            }
            i = i + 1;
        }
        assert(s.take(len as int) == s);

        let mut mode: u16 = 0;
        let mut mode_count: usize = 0;
        let mut j: usize = 0;
        while j < counts.len()
            invariant
                counts@.len() <= 65536,
                j <= counts@.len(),
                mode_count == 0 ==> mode == 0,
                mode_count > 0 ==> mode < j && counts@[mode as int] == mode_count,
                forall|k: int| 0 <= k < j ==> counts@[k] <= mode_count,
                forall|k: int| 0 <= k < mode ==> counts@[k] < mode_count,
            decreases counts.len() - j,
        {
            if counts[j] > mode_count {
                mode = j as u16;
                mode_count = counts[j];
            }
            j = j + 1;
        }
        proof {
            assert forall|v: u16| occurrences(s, v) <= occurrences(s, mode) by {
                assert(count_at(counts@, v as int) == occurrences(s, v));
                assert(count_at(counts@, mode as int) == occurrences(s, mode));
            }
            assert forall|v: u16| v < mode implies occurrences(s, v) < occurrences(s, mode) by {
                assert(count_at(counts@, v as int) == occurrences(s, v));
                assert(count_at(counts@, mode as int) == occurrences(s, mode));
            }
            lemma_mode_unique(s, mode, mode_of(s));
        }
        Statistics {
            num: len as u64,
            min: min_val,
            max: max_val,
            sum,
            sum_of_squares,
            median,
            mode,
        }
    }
}

proof fn lemma_sum_between(s: Seq<u16>, lo: int, hi: int)
    requires
        forall|i: int| 0 <= i < s.len() ==> lo <= #[trigger] s[i] <= hi,
    ensures
        lo * s.len() <= sum_of(s) <= hi * s.len(),
    decreases s.len(),
{
    if s.len() > 0 {
        let t = s.drop_last();
        assert forall|i: int| 0 <= i < t.len() implies lo <= #[trigger] t[i] <= hi by {
            assert(t[i] == s[i]);
        }
        lemma_sum_between(t, lo, hi);
        assert(lo * s.len() == lo * t.len() + lo) by (nonlinear_arith)
            requires
                s.len() == t.len() + 1,
        ;
        assert(hi * s.len() == hi * t.len() + hi) by (nonlinear_arith)
            requires
                s.len() == t.len() + 1,
        ;
    }
}

/// For every non-empty sample, the median and the mean lie between the
/// minimum and the maximum. `sorted` is the sample in ascending order, as
/// `Statistics::of` leaves it; the mean is `sum / num`, so the second bound
/// reads `min * num <= sum <= max * num`.
pub proof fn lemma_center_within_extremes(vals: Seq<u16>, sorted: Seq<u16>)
    requires
        0 < vals.len() <= usize::MAX,
        ascending(sorted),
        sorted.to_multiset() == vals.to_multiset(),
    ensures
        statistics_of(sorted).min <= statistics_of(sorted).median <= statistics_of(sorted).max,
        statistics_of(sorted).min * statistics_of(sorted).num <= statistics_of(sorted).sum,
        statistics_of(sorted).sum <= statistics_of(sorted).max * statistics_of(sorted).num,
{
    assert(sorted.len() == vals.len()) by {
        sorted.to_multiset_ensures();
        vals.to_multiset_ensures();
    }
    let st = statistics_of(sorted);
    let n = sorted.len() as int;
    lemma_sum_bounds(sorted);
    lemma_sum_between(sorted, sorted[0] as int, sorted.last() as int);
    assert(st.sum == sum_of(sorted)) by (nonlinear_arith)
        requires
            0 <= sum_of(sorted) <= n * 65535,
            n <= usize::MAX,
            st.sum == sum_of(sorted) as u128,
    ;
    assert(st.num == n);
    assert(n % 2 == 0 ==> 0 <= upper_neighbour(n) < n);
}

/// Summarising two copies of one sample gives identical statistics: the
/// result depends on the values alone, whatever order they came in.
pub proof fn lemma_of_deterministic(vals: Seq<u16>, first: Seq<u16>, second: Seq<u16>)
    requires
        ascending(first),
        ascending(second),
        first.to_multiset() == vals.to_multiset(),
        second.to_multiset() == vals.to_multiset(),
    ensures
        statistics_of(first) == statistics_of(second),
{
    let leq = |x: u16, y: u16| x <= y;
    assert(total_ordering(leq));
    assert(sorted_by(first, leq));
    assert(sorted_by(second, leq));
    lemma_sorted_unique(first, second, leq);
    assert(first == second);
}

proof fn lemma_occurrences_le_len(s: Seq<u16>, v: u16)
    ensures
        occurrences(s, v) <= s.len(),
    decreases s.len(),
{
    if s.len() > 0 {
        lemma_occurrences_le_len(s.drop_last(), v);
        assert(s == s.drop_last().push(s.last()));
    } else {
        assert(s.to_multiset() == Multiset::<u16>::empty());
    }
}

proof fn lemma_mode_unique(s: Seq<u16>, m: u16, n: u16)
    requires
        is_mode(s, m),
    ensures
        mode_of(s) == m,
{
    let c = mode_of(s);
    assert(is_mode(s, c));
    if c < m {
        assert(occurrences(s, c) < occurrences(s, m));
    } else if m < c {
        assert(occurrences(s, m) < occurrences(s, c));
    }
}

} // verus!
