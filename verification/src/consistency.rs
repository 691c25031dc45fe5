//! The row-type-consistency score.
//!
//! Every sampled row with at least one occupied cell contributes its
//! numeric fraction (in parts per million). The score shrinks with the
//! spread of those fractions: from their population variance `v` (in
//! squared parts per million) the standard deviation `s = sqrt(v)` is
//! taken, and the score is `1 / (1 + 3 s)` of one whole. Fewer than two
//! qualifying rows score zero.

use vstd::prelude::*;

use crate::fixed::isqrt;
use crate::fixed::isqrt_spec;
use crate::fixed::lemma_round_div_le;
use crate::fixed::lemma_round_div_nonneg;
use crate::fixed::round_div;
use crate::fixed::round_div_spec;
use crate::grid::SheetGrid;
use crate::grid::grid_cell_empty;
use crate::grid::grid_cell_numeric;
use crate::grid::sample_end_row;

verus! {

/// How many of the first `n` cells of sampled row `r` are occupied and
/// numeric.
pub open spec fn row_numeric_count(g: SheetGrid, r: int, n: int) -> int
    decreases n,
{
    if n <= 0 {
        0
    } else {
        row_numeric_count(g, r, n - 1) + if !g.empty_at(r, n - 1) && g.numeric_at(r, n - 1) {
            1int
        } else {
            0int
        }
    }
}

/// How many of the first `n` cells of sampled row `r` are occupied.
pub open spec fn row_total_count(g: SheetGrid, r: int, n: int) -> int
    decreases n,
{
    if n <= 0 {
        0
    } else {
        row_total_count(g, r, n - 1) + if !g.empty_at(r, n - 1) {
            1int
        } else {
            0int
        }
    }
}

pub proof fn lemma_row_counts_bounds(g: SheetGrid, r: int, n: int)
    requires
        n >= 0,
    ensures
        0 <= row_numeric_count(g, r, n) <= row_total_count(g, r, n) <= n,
    decreases n,
{
    if n > 0 {
        lemma_row_counts_bounds(g, r, n - 1);
    }
}

/// The numeric fraction of sampled row `r`, in parts per million.
pub open spec fn row_ratio_spec(g: SheetGrid, r: int) -> int {
    round_div_spec(
        1000000 * row_numeric_count(g, r, g.col_count()),
        row_total_count(g, r, g.col_count()),
    )
}

/// The numeric fractions of the qualifying rows among the first `n`
/// sampled rows, in row order.
pub open spec fn row_ratios(g: SheetGrid, n: int) -> Seq<int>
    decreases n,
{
    if n <= 0 {
        Seq::empty()
    } else {
        let pre = row_ratios(g, n - 1);
        if row_total_count(g, n - 1, g.col_count()) > 0 {
            pre.push(row_ratio_spec(g, n - 1))
        } else {
            pre
        }
    }
}

pub open spec fn seq_sum(s: Seq<int>) -> int
    decreases s.len(),
{
    if s.len() == 0 {
        0
    } else {
        seq_sum(s.drop_last()) + s.last()
    }
}

pub open spec fn seq_sum_sq(s: Seq<int>) -> int
    decreases s.len(),
{
    if s.len() == 0 {
        0
    } else {
        seq_sum_sq(s.drop_last()) + s.last() * s.last()
    }
}

/// The sum of squares bounds the squared sum: `(sum s)^2 <= |s| * sum
/// of squares of s`. This is what makes the variance numerator
/// nonnegative.
pub proof fn lemma_sum_squares(s: Seq<int>)
    ensures
        seq_sum(s) * seq_sum(s) <= s.len() * seq_sum_sq(s),
    decreases s.len(),
{
    if s.len() == 0 {
        assert(seq_sum(s) == 0);
    } else {
        let t = s.drop_last();
        let r = s.last();
        lemma_sum_squares(t);
        let sm = seq_sum(t);
        let sq = seq_sum_sq(t);
        let k = t.len() as int;
        if k == 0 {
            assert(seq_sum(t) == 0);
            assert(seq_sum_sq(t) == 0);
            assert((0 + r) * (0 + r) <= 1 * (0 + r * r)) by (nonlinear_arith);
        } else {
            assert(2 * k * sm * r <= sm * sm + k * k * (r * r)) by (nonlinear_arith);
            assert(k * ((sm + r) * (sm + r)) <= k * ((k + 1) * (sq + r * r))) by (nonlinear_arith)
                requires
                    sm * sm <= k * sq,
                    2 * k * sm * r <= sm * sm + k * k * (r * r),
                    k >= 1,
            ;
            assert((sm + r) * (sm + r) <= (k + 1) * (sq + r * r)) by (nonlinear_arith)
                requires
                    k >= 1,
                    k * ((sm + r) * (sm + r)) <= k * ((k + 1) * (sq + r * r)),
            ;
        }
    }
}

/// The consistency score of the sample window.
pub open spec fn consistency_spec(g: SheetGrid) -> int {
    let rs = row_ratios(g, g.sample_rows());
    let k = rs.len() as int;
    if k < 2 {
        0
    } else {
        let varnum = k * seq_sum_sq(rs) - seq_sum(rs) * seq_sum(rs);
        let sigma = isqrt_spec(varnum as nat) as int;
        round_div_spec(1000000 * 1000000 * k, 1000000 * k + 3 * sigma)
    }
}

/// Computes the row-type-consistency score over the sample window.
pub fn calculate_row_type_consistency(g: &SheetGrid) -> (r: u64)
    requires
        g.valid_box(),
    ensures
        r == consistency_spec(*g),
        r <= 1000000,
{
    let srows: u64 = (sample_end_row(g.first_row, g.end_row) - g.first_row) as u64 + 1;
    let ccount: u64 = (g.end_col - g.first_col) as u64 + 1;
    let mut sum: u64 = 0;
    let mut sumsq: u64 = 0;
    let mut k: u64 = 0;
    let mut row: u64 = 0;
    while row < srows
        invariant
            g.valid_box(),
            srows == g.sample_rows(),
            1 <= srows <= 100,
            ccount == g.col_count(),
            ccount <= 0x1_0000_0000,
            row <= srows,
            k == row_ratios(*g, row as int).len(),
            k <= row,
            sum == seq_sum(row_ratios(*g, row as int)),
            sumsq == seq_sum_sq(row_ratios(*g, row as int)),
            sum <= k * 1000000,
            sumsq <= k * 1000000000000,
        decreases srows - row,
    {
        let mut num: u64 = 0;
        let mut tot: u64 = 0;
        let mut c: u64 = 0;
        while c < ccount
            invariant
                c <= ccount,
                num == row_numeric_count(*g, row as int, c as int),
                tot == row_total_count(*g, row as int, c as int),
                0 <= num <= tot <= c,
            decreases ccount - c,
        {
            if !grid_cell_empty(g, row, c) {
                tot = tot + 1;
                if grid_cell_numeric(g, row, c) {
                    num = num + 1;
                }
            }
            c = c + 1;
        }
        let ghost pre = row_ratios(*g, row as int);
        if tot > 0 {
            proof {
                assert(1000000 * (num as int) <= (tot as int) * 1000000) by (nonlinear_arith)
                    requires
                        0 <= num <= tot,
                ;
                lemma_round_div_le(1000000 * (num as int), tot as int, 1000000);
                lemma_round_div_nonneg(1000000 * (num as int), tot as int);
            }
            let ratio = round_div(1000000 * num, tot);
            proof {
                assert(row_ratios(*g, row as int + 1) == pre.push(ratio as int));
                assert(pre.push(ratio as int).drop_last() =~= pre);
                assert((k + 1) * 1000000 == k * 1000000 + 1000000) by (nonlinear_arith);
                assert((ratio as int) * (ratio as int) <= 1000000000000) by (nonlinear_arith)
                    requires
                        0 <= (ratio as int) <= 1000000,
                ;
                assert((k + 1) * 1000000000000 == k * 1000000000000 + 1000000000000)
                    by (nonlinear_arith);
                assert(k * 1000000 <= 100 * 1000000) by (nonlinear_arith)
                    requires
                        0 <= k <= 100,
                ;
                assert(k * 1000000000000 <= 100 * 1000000000000) by (nonlinear_arith)
                    requires
                        0 <= k <= 100,
                ;
            }
            sum = sum + ratio;
            sumsq = sumsq + ratio * ratio;
            k = k + 1;
        } else {
            proof {
                assert(row_ratios(*g, row as int + 1) == pre);
            }
        }
        row = row + 1;
    }
    let ghost rs = row_ratios(*g, srows as int);
    if k < 2 {
        return 0;
    }
    proof {
        lemma_sum_squares(rs);
        assert(k * sumsq <= 100 * 100000000000000) by (nonlinear_arith)
            requires
                0 <= k <= 100,
                0 <= sumsq <= 100 * 1000000000000,
        ;
        assert((sum as int) * (sum as int) <= (k * 1000000) * (k * 1000000)) by (nonlinear_arith)
            requires
                0 <= (sum as int) <= k * 1000000,
        ;
        assert((k * 1000000) * (k * 1000000) <= (100 * 1000000) * (100 * 1000000))
            by (nonlinear_arith)
            requires
                0 <= k <= 100,
        ;
    }
    let varnum = k * sumsq - sum * sum;
    let sigma = isqrt(varnum);
    proof {
        assert((sigma as int) * (sigma as int) <= varnum);
        assert((sigma as int) <= 100000000 * 100) by (nonlinear_arith)
            requires
                0 <= (sigma as int),
                (sigma as int) * (sigma as int) <= 10000000000000000,
        ;
        assert(1000000 * 1000000 * (k as int) <= (1000000 * (k as int) + 3 * (sigma as int))
            * 1000000) by (nonlinear_arith)
            requires
                0 <= (sigma as int),
                0 <= (k as int),
        ;
        lemma_round_div_le(
            1000000 * 1000000 * (k as int),
            1000000 * (k as int) + 3 * (sigma as int),
            1000000,
        );
        lemma_round_div_nonneg(
            1000000 * 1000000 * (k as int),
            1000000 * (k as int) + 3 * (sigma as int),
        );
    }
    round_div(1000000 * 1000000 * k, 1000000 * k + 3 * sigma)
}

} // verus!
