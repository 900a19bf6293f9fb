//! How often each value occurs in each replica.

use vstd::prelude::*;

verus! {

/// How often `v` occurs in `row`.
pub open spec fn occurrences(row: Seq<i32>, v: int) -> nat
    decreases row.len(),
{
    if row.len() == 0 {
        0
    } else {
        occurrences(row.drop_last(), v) + (if row.last() == v {
            1nat
        } else {
            0nat
        })
    }
}

/// A value occurs as often as it is among the elements.
pub proof fn law_occurrences_are_those_of_the_elements(row: Seq<i32>, v: i32)
    ensures
        occurrences(row, v as int) == row.to_multiset().count(v),
    decreases row.len(),
{
    broadcast use vstd::seq_lib::group_to_multiset_ensures;

    if row.len() > 0 {
        let front = row.drop_last();
        law_occurrences_are_those_of_the_elements(front, v);
        assert(front.push(row.last()) =~= row);
        assert(row.to_multiset() =~= front.to_multiset().insert(row.last()));
    }
}

/// The values of replica `r` when each replica has `row` values.
pub open spec fn row_of(values: Seq<i32>, row: int, r: int) -> Seq<i32> {
    values.subrange(r * row, (r + 1) * row)
}

/// The rows of the replicas lie one after the other.
pub proof fn law_rows_lie_in_order(values: Seq<i32>, n: int, row: int, r: int, j: int)
    requires
        values.len() == n * row,
        0 <= r < n,
        0 <= j < row,
    ensures
        row_of(values, row, r).len() == row,
        row_of(values, row, r)[j] == values[r * row + j],
{
    lemma_row_within(values, n, row, r);
}

/// Counts of rows that can be numbered with 32 bits fit.
pub proof fn law_counts_of_small_rows_fit(values: Seq<i32>, n: int, row: int)
    requires
        values.len() == n * row,
        0 <= row <= u32::MAX,
    ensures
        counts_fit(values, n, row),
{
    assert forall|r: int, v: int| 0 <= r < n implies #[trigger] occurrences(
        row_of(values, row, r),
        v,
    ) <= u32::MAX by {
        lemma_row_within(values, n, row, r);
        lemma_occurrences_bound(row_of(values, row, r), v);
    }
}

/// The sum of the first `k` of the `bins` counts of replica `r`.
pub open spec fn bins_sum(counts: Seq<u32>, bins: int, r: int, k: int) -> int
    decreases k,
{
    if k <= 0 {
        0
    } else {
        bins_sum(counts, bins, r, k - 1) + counts[r * bins + k - 1]
    }
}

/// How many elements of `row` fall in the first `k` bins, bin `b` holding the value `b - center`.
spec fn total(row: Seq<i32>, center: int, k: int) -> int
    decreases k,
{
    if k <= 0 {
        0
    } else {
        total(row, center, k - 1) + occurrences(row, k - 1 - center)
    }
}

/// One more element adds to the bin that it falls in.
proof fn lemma_total_step(row: Seq<i32>, center: int, k: int)
    requires
        row.len() > 0,
        row.last() + center >= 0,
    ensures
        total(row, center, k) == total(row.drop_last(), center, k) + (if row.last() + center < k {
            1int
        } else {
            0int
        }),
    decreases k,
{
    if k > 0 {
        lemma_total_step(row, center, k - 1);
    }
}

/// No element adds nothing.
proof fn lemma_total_empty(row: Seq<i32>, center: int, k: int)
    requires
        row.len() == 0,
    ensures
        total(row, center, k) == 0,
    decreases k,
{
    if k > 0 {
        lemma_total_empty(row, center, k - 1);
    }
}

/// Every element falls in some bin.
proof fn lemma_total(row: Seq<i32>, center: int, bins: int)
    requires
        forall|i: int| 0 <= i < row.len() ==> 0 <= #[trigger] row[i] + center < bins,
    ensures
        total(row, center, bins) == row.len(),
    decreases row.len(),
{
    if row.len() == 0 {
        lemma_total_empty(row, center, bins);
    } else {
        assert(0 <= row[row.len() - 1] + center < bins);
        lemma_total_step(row, center, bins);
        assert forall|i: int| 0 <= i < row.drop_last().len() implies 0
            <= #[trigger] row.drop_last()[i] + center < bins by {
            assert(row.drop_last()[i] == row[i]);
        }
        lemma_total(row.drop_last(), center, bins);
    }
}

/// The counts of a replica add up to what fell in its bins.
proof fn lemma_bins_sum(
    counts: Seq<u32>,
    bins: int,
    r: int,
    row: Seq<i32>,
    center: int,
    k: int,
)
    requires
        0 <= k <= bins,
        forall|b: int|
            0 <= b < bins ==> #[trigger] counts[r * bins + b] == occurrences(row, b - center),
    ensures
        bins_sum(counts, bins, r, k) == total(row, center, k),
    decreases k,
{
    if k > 0 {
        lemma_bins_sum(counts, bins, r, row, center, k - 1);
        assert(r * bins + k - 1 == r * bins + (k - 1));
        assert(counts[r * bins + (k - 1)] == occurrences(row, k - 1 - center));
    }
}

/// No value occurs more often than there are values.
proof fn lemma_occurrences_bound(row: Seq<i32>, v: int)
    ensures
        occurrences(row, v) <= row.len(),
    decreases row.len(),
{
    if row.len() > 0 {
        lemma_occurrences_bound(row.drop_last(), v);
    }
}

/// Two counts of one table have the same place only if they are the same.
proof fn lemma_bins_differ(r: int, b: int, s: int, c: int, bins: int)
    requires
        0 <= b < bins,
        0 <= c < bins,
        r * bins + b == s * bins + c,
    ensures
        r == s && b == c,
{
    assert(r == s) by (nonlinear_arith)
        requires
            0 <= b < bins,
            0 <= c < bins,
            r * bins + b == s * bins + c,
    ;
}

/// Every count of `n` replicas has a place.
proof fn lemma_bin_within(r: int, b: int, n: int, bins: int)
    requires
        0 <= r < n,
        0 <= b < bins,
    ensures
        0 <= r * bins,
        r * bins + b < n * bins,
        (r + 1) * bins == r * bins + bins,
        (r + 1) * bins <= n * bins,
{
    assert(0 <= r * bins && r * bins + b < n * bins && (r + 1) * bins == r * bins + bins && (r + 1)
        * bins <= n * bins) by (nonlinear_arith)
        requires
            0 <= r < n,
            0 <= b < bins,
    ;
}

/// More values do not make a value occur less often.
proof fn lemma_occurrences_grow(row: Seq<i32>, k: int, v: int)
    requires
        0 <= k <= row.len(),
    ensures
        occurrences(row.take(k), v) <= occurrences(row, v),
    decreases row.len(),
{
    if k == row.len() {
        assert(row.take(k) =~= row);
    } else {
        assert(row.drop_last().take(k) =~= row.take(k));
        lemma_occurrences_grow(row.drop_last(), k, v);
    }
}

/// A value that no element has does not occur.
proof fn lemma_does_not_occur(row: Seq<i32>, v: int)
    requires
        forall|i: int| 0 <= i < row.len() ==> #[trigger] row[i] != v,
    ensures
        occurrences(row, v) == 0,
    decreases row.len(),
{
    if row.len() > 0 {
        assert(row[row.len() - 1] != v);
        assert forall|i: int| 0 <= i < row.drop_last().len() implies #[trigger] row.drop_last()[i]
            != v by {
            assert(row.drop_last()[i] == row[i]);
        }
        lemma_does_not_occur(row.drop_last(), v);
    }
}

/// Every value has a bin, bin `b` holding the value `b - center`.
pub open spec fn values_binned(values: Seq<i32>, center: int, bins: int) -> bool {
    forall|i: int| 0 <= i < values.len() ==> 0 <= #[trigger] values[i] + center < bins
}

/// No value occurs so often in a replica that its count does not fit in 32 bits.
pub open spec fn counts_fit(values: Seq<i32>, n: int, row: int) -> bool {
    forall|r: int, v: int|
        0 <= r < n ==> #[trigger] occurrences(row_of(values, row, r), v) <= u32::MAX
}

/// The values of a replica lie within those of all replicas.
proof fn lemma_row_within(values: Seq<i32>, n: int, row: int, r: int)
    requires
        values.len() == n * row,
        0 <= r < n,
        0 <= row,
    ensures
        0 <= r * row,
        (r + 1) * row == r * row + row,
        (r + 1) * row <= values.len(),
        row_of(values, row, r).len() == row,
        forall|i: int|
            0 <= i < row ==> #[trigger] row_of(values, row, r)[i] == values[r * row + i],
{
    assert(0 <= r * row && (r + 1) * row == r * row + row && (r + 1) * row <= n * row)
        by (nonlinear_arith)
        requires
            0 <= r < n,
            0 <= row,
    ;
}

/// How often `v` occurs among `row` values from `start` on.
fn count_value(values: &[i32], start: usize, row: usize, v: i128) -> (c: usize)
    requires
        start + row <= values@.len(),
    ensures
        c == occurrences(values@.subrange(start as int, start + row), v as int),
{
    let ghost mine = values@.subrange(start as int, start + row);
    let mut c: usize = 0;
    let mut i: usize = 0;
    while i < row
        invariant
            i <= row,
            start + row <= values.len(),
            mine == values@.subrange(start as int, start + row),
            c <= i,
            c == occurrences(mine.take(i as int), v as int),
        decreases row - i,
    {
        proof {
            let longer = mine.take(i + 1);
            assert(longer.drop_last() =~= mine.take(i as int));
            assert(longer.last() == values@[start + i]);
        }
        if values[start + i] as i128 == v {
            c += 1;
        }
        i += 1;
    }
    assert(mine.take(row as int) =~= mine);
    c
}

/// Whether no value occurs so often that its count does not fit in 32 bits.
pub fn can_count_rows(values: &[i32], n: usize, row: usize, center: i64, bins: usize) -> (r: bool)
    requires
        values@.len() == n * row,
        values_binned(values@, center as int, bins as int),
    ensures
        r == counts_fit(values@, n as int, row as int),
{
    if row <= u32::MAX as usize {
        proof {
            assert forall|r: int, v: int| 0 <= r < n implies #[trigger] occurrences(
                row_of(values@, row as int, r),
                v,
            ) <= u32::MAX by {
                lemma_row_within(values@, n as int, row as int, r);
                lemma_occurrences_bound(row_of(values@, row as int, r), v);
            }
        }
        return true;
    }
    let mut r: usize = 0;
    while r < n
        invariant
            r <= n,
            values.len() == n * row,
            values_binned(values@, center as int, bins as int),
            forall|s: int, v: int|
                0 <= s < r ==> #[trigger] occurrences(row_of(values@, row as int, s), v)
                    <= u32::MAX,
        decreases n - r,
    {
        let ghost mine = row_of(values@, row as int, r as int);
        proof {
            lemma_row_within(values@, n as int, row as int, r as int);
        }
        let mut b: usize = 0;
        while b < bins
            invariant
                r < n,
                b <= bins,
                values.len() == n * row,
                0 <= r * row,
                r * row + row <= values.len(),
                mine == values@.subrange(r * row, r * row + row),
                mine == row_of(values@, row as int, r as int),
                forall|c: int|
                    0 <= c < b ==> #[trigger] occurrences(mine, c - center) <= u32::MAX,
            decreases bins - b,
        {
            let v: i128 = b as i128 - center as i128;
            if count_value(values, r * row, row, v) > u32::MAX as usize {
                assert(occurrences(mine, v as int) > u32::MAX);
                return false;
            }
            b += 1;
        }
        proof {
            assert forall|v: int| #[trigger] occurrences(mine, v) <= u32::MAX by {
                if 0 <= v + center < bins {
                    assert(occurrences(mine, (v + center) - center) <= u32::MAX);
                } else {
                    assert forall|i: int| 0 <= i < mine.len() implies #[trigger] mine[i] != v by {
                        assert(mine[i] == values@[r * row + i]);
                    }
                    lemma_does_not_occur(mine, v);
                }
            }
        }
        r += 1;
    }
    true
}

/// Counts for each of `n` replicas how often each value occurs, bin `b` counting the
/// value `b - center`.
pub fn count_rows(values: &[i32], n: usize, row: usize, center: i64, bins: usize) -> (counts: Vec<
    u32,
>)
    requires
        values@.len() == n * row,
        n * bins <= usize::MAX,
        values_binned(values@, center as int, bins as int),
        counts_fit(values@, n as int, row as int),
    ensures
        counts@.len() == n * bins,
        forall|r: int, b: int|
            #![trigger counts@[r * bins + b]]
            0 <= r < n && 0 <= b < bins ==> counts@[r * bins + b] == occurrences(
                row_of(values@, row as int, r),
                b - center,
            ),
        forall|r: int|
            0 <= r < n ==> #[trigger] bins_sum(counts@, bins as int, r, bins as int) == row,
{
    let mut counts: Vec<u32> = vec![0u32; n * bins];
    proof {
        assert forall|s: int, b: int|
            #![trigger counts@[s * bins + b]]
            0 <= s < n && 0 <= b < bins implies counts@[s * bins + b] == 0 by {
            lemma_bin_within(s, b, n as int, bins as int);
        }
    }
    let mut r: usize = 0;
    while r < n
        invariant
            r <= n,
            values.len() == n * row,
            n * bins <= usize::MAX,
            counts@.len() == n * bins,
            values_binned(values@, center as int, bins as int),
            counts_fit(values@, n as int, row as int),
            forall|s: int, b: int|
                #![trigger counts@[s * bins + b]]
                0 <= s < n && 0 <= b < bins ==> counts@[s * bins + b] == (if s < r {
                    occurrences(row_of(values@, row as int, s), b - center)
                } else {
                    0
                }),
        decreases n - r,
    {
        let ghost mine = row_of(values@, row as int, r as int);
        proof {
            lemma_row_within(values@, n as int, row as int, r as int);
        }
        let mut i: usize = 0;
        while i < row
            invariant
                r < n,
                i <= row,
                values.len() == n * row,
                n * bins <= usize::MAX,
                counts@.len() == n * bins,
                mine == row_of(values@, row as int, r as int),
                mine.len() == row,
                values_binned(values@, center as int, bins as int),
                counts_fit(values@, n as int, row as int),
                forall|s: int, b: int|
                    #![trigger counts@[s * bins + b]]
                    0 <= s < n && 0 <= b < bins ==> counts@[s * bins + b] == (if s < r {
                        occurrences(row_of(values@, row as int, s), b - center)
                    } else if s == r {
                        occurrences(mine.take(i as int), b - center)
                    } else {
                        0
                    }),
            decreases row - i,
        {
            proof {
                lemma_bin_within(r as int, i as int, n as int, row as int);
            }
            let val = values[r * row + i];
            let bin = (val as i128 + center as i128) as usize;
            assert(bin == val + center);
            proof {
                lemma_bin_within(r as int, bin as int, n as int, bins as int);
                lemma_occurrences_grow(mine, i + 1, bin - center);
                assert(mine.take(i + 1).drop_last() =~= mine.take(i as int));
                assert(occurrences(mine, bin - center) <= u32::MAX);
                assert(counts@[r * bins + bin] == occurrences(mine.take(i as int), bin - center));
            }
            let ghost before = counts@;
            let place = r * bins + bin;
            let c = counts[place];
            counts.set(place, c + 1);
            proof {
                let longer = mine.take(i + 1);
                assert(longer.drop_last() =~= mine.take(i as int));
                assert(longer.last() == val);
                assert forall|s: int, b: int|
                    #![trigger counts@[s * bins + b]]
                    0 <= s < n && 0 <= b < bins implies counts@[s * bins + b] == (if s < r {
                    occurrences(row_of(values@, row as int, s), b - center)
                } else if s == r {
                    occurrences(longer, b - center)
                } else {
                    0
                }) by {
                    lemma_bin_within(s, b, n as int, bins as int);
                    if s * bins + b == r * bins + bin {
                        lemma_bins_differ(s, b, r as int, bin as int, bins as int);
                    } else {
                        assert(counts@[s * bins + b] == before[s * bins + b]);
                    }
                }
            }
            i += 1;
        }
        assert(mine.take(row as int) =~= mine);
        r += 1;
    }
    proof {
        assert forall|s: int| 0 <= s < n implies #[trigger] bins_sum(
            counts@,
            bins as int,
            s,
            bins as int,
        ) == row by {
            let mine = row_of(values@, row as int, s);
            lemma_row_within(values@, n as int, row as int, s);
            assert forall|i: int| 0 <= i < mine.len() implies 0 <= #[trigger] mine[i] + center
                < bins by {
                assert(mine[i] == values@[s * row + i]);
            }
            lemma_total(mine, center as int, bins as int);
            assert forall|b: int| 0 <= b < bins implies #[trigger] counts@[s * bins + b]
                == occurrences(mine, b - center) by {}
            lemma_bins_sum(counts@, bins as int, s, mine, center as int, bins as int);
        }
    }
    counts
}

} // verus!
