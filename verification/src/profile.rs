//! Per-column type profiles and the data-type-mix score.
//!
//! For every column of the bounding box, the profiler counts how many of
//! the sampled occupied cells are numeric and how many are text (every
//! occupied, non-numeric cell counts as text). The mix estimator turns
//! each column's split into its binary entropy and averages the scores
//! over the columns that hold any occupied cell at all.

use vstd::arithmetic::div_mod::lemma_basic_div;
use vstd::arithmetic::div_mod::lemma_fundamental_div_mod_converse_div;
use vstd::prelude::*;

use crate::fixed::entropy_ppm;
use crate::fixed::entropy_ppm_spec;
use crate::fixed::lemma_entropy_half;
use crate::fixed::lemma_round_div_le;
use crate::fixed::round_div;
use crate::fixed::round_div_spec;
use crate::grid::SheetGrid;
use crate::grid::grid_cell_empty;
use crate::grid::grid_cell_numeric;
use crate::grid::sample_end_row;

verus! {

/// How one column's occupied cells split into numeric and text.
#[derive(Clone, Copy, Debug)]
pub struct ColumnDataTypeInfo {
    /// The column's absolute index in the sheet.
    pub column_index: u32,
    /// Occupied sampled cells with numeric-shaped contents.
    pub numeric_count: u32,
    /// Occupied sampled cells counted as text.
    pub text_count: u32,
    /// All occupied sampled cells: numeric plus text.
    pub total_count: u32,
    /// `numeric_count / total_count` in parts per million, rounded;
    /// zero for a column with no occupied cell.
    pub numeric_type_ratio_ppm: u32,
}

impl ColumnDataTypeInfo {
    /// The counts add up: every occupied cell is numeric or text.
    pub open spec fn wf(self) -> bool {
        self.total_count == self.numeric_count + self.text_count
    }
}

/// How many of the first `n` sampled cells of column `c` are occupied
/// and numeric.
pub open spec fn col_numeric_count(g: SheetGrid, c: int, n: int) -> int
    decreases n,
{
    if n <= 0 {
        0
    } else {
        col_numeric_count(g, c, n - 1) + if !g.empty_at(n - 1, c) && g.numeric_at(n - 1, c) {
            1int
        } else {
            0int
        }
    }
}

/// How many of the first `n` sampled cells of column `c` are occupied.
pub open spec fn col_total_count(g: SheetGrid, c: int, n: int) -> int
    decreases n,
{
    if n <= 0 {
        0
    } else {
        col_total_count(g, c, n - 1) + if !g.empty_at(n - 1, c) {
            1int
        } else {
            0int
        }
    }
}

/// The profile of column `c` (relative to the box) over the sample
/// window.
pub open spec fn col_profile_spec(g: SheetGrid, c: int) -> ColumnDataTypeInfo {
    let n = col_numeric_count(g, c, g.sample_rows());
    let t = col_total_count(g, c, g.sample_rows());
    ColumnDataTypeInfo {
        column_index: (g.first_col + c) as u32,
        numeric_count: n as u32,
        text_count: (t - n) as u32,
        total_count: t as u32,
        numeric_type_ratio_ppm: (if t > 0 {
            round_div_spec(1000000 * n, t)
        } else {
            0
        }) as u32,
    }
}

/// Profiles every column of the bounding box over the sample window, in
/// ascending column order.
pub fn calculate_column_data_types(g: &SheetGrid) -> (res: Vec<ColumnDataTypeInfo>)
    requires
        g.valid_box(),
    ensures
        res@.len() == g.col_count(),
        forall|j: int| 0 <= j < res@.len() ==> res@[j] == col_profile_spec(*g, j),
        forall|j: int|
            0 <= j < res@.len() ==> (#[trigger] res@[j]).wf() && res@[j].total_count <= 100
                && res@[j].numeric_type_ratio_ppm <= 1000000,
{
    let srows: u64 = (sample_end_row(g.first_row, g.end_row) - g.first_row) as u64 + 1;
    let ccount: u64 = (g.end_col - g.first_col) as u64 + 1;
    let mut res: Vec<ColumnDataTypeInfo> = Vec::new();
    let mut c: u64 = 0;
    while c < ccount
        invariant
            g.valid_box(),
            srows == g.sample_rows(),
            1 <= srows <= 100,
            ccount == g.col_count(),
            c <= ccount,
            res@.len() == c,
            forall|j: int| 0 <= j < c ==> res@[j] == col_profile_spec(*g, j),
            forall|j: int|
                0 <= j < c ==> (#[trigger] res@[j]).wf() && res@[j].total_count <= 100
                    && res@[j].numeric_type_ratio_ppm <= 1000000,
        decreases ccount - c,
    {
        let mut num: u32 = 0;
        let mut tot: u32 = 0;
        let mut r: u64 = 0;
        while r < srows
            invariant
                srows <= 100,
                r <= srows,
                num == col_numeric_count(*g, c as int, r as int),
                tot == col_total_count(*g, c as int, r as int),
                0 <= num <= tot <= r,
            decreases srows - r,
        {
            if !grid_cell_empty(g, r, c) {
                tot = tot + 1;
                if grid_cell_numeric(g, r, c) {
                    num = num + 1;
                }
            }
            r = r + 1;
        }
        let ratio: u64 = if tot > 0 {
            proof {
                assert(1000000 * (num as int) <= (tot as int) * 1000000) by (nonlinear_arith)
                    requires
                        0 <= num <= tot,
                ;
                lemma_round_div_le(1000000 * (num as int), tot as int, 1000000);
                crate::fixed::lemma_round_div_nonneg(1000000 * (num as int), tot as int);
            }
            round_div(1000000 * (num as u64), tot as u64)
        } else {
            0
        };
        let info = ColumnDataTypeInfo {
            column_index: g.first_col + (c as u32),
            numeric_count: num,
            text_count: tot - num,
            total_count: tot,
            numeric_type_ratio_ppm: ratio as u32,
        };
        proof {
            assert(info == col_profile_spec(*g, c as int));
        }
        res.push(info);
        c = c + 1;
    }
    res
}

/// The sum of the entropy scores of the qualifying columns (those with
/// at least one occupied cell).
pub open spec fn entropy_sum(profs: Seq<ColumnDataTypeInfo>) -> int
    decreases profs.len(),
{
    if profs.len() == 0 {
        0
    } else {
        entropy_sum(profs.drop_last()) + if profs.last().total_count > 0 {
            entropy_ppm_spec(profs.last().numeric_count as nat, profs.last().total_count as nat) as int
        } else {
            0int
        }
    }
}

/// How many columns qualify for the average.
pub open spec fn qualifying_cols(profs: Seq<ColumnDataTypeInfo>) -> int
    decreases profs.len(),
{
    if profs.len() == 0 {
        0
    } else {
        qualifying_cols(profs.drop_last()) + if profs.last().total_count > 0 {
            1int
        } else {
            0int
        }
    }
}

/// The data-type-mix score: the mean entropy over qualifying columns,
/// in parts per million; zero when no column qualifies.
pub open spec fn mix_spec(profs: Seq<ColumnDataTypeInfo>) -> int {
    if qualifying_cols(profs) == 0 {
        0
    } else {
        round_div_spec(entropy_sum(profs), qualifying_cols(profs))
    }
}

pub proof fn lemma_mix_sums_bounds(profs: Seq<ColumnDataTypeInfo>)
    ensures
        0 <= qualifying_cols(profs) <= profs.len(),
        0 <= entropy_sum(profs) <= qualifying_cols(profs) * 1000000,
    decreases profs.len(),
{
    if profs.len() > 0 {
        lemma_mix_sums_bounds(profs.drop_last());
        let k0 = qualifying_cols(profs.drop_last());
        let k = qualifying_cols(profs);
        assert(k0 * 1000000 + 1000000 == (k0 + 1) * 1000000) by (nonlinear_arith);
    }
}

/// The mix score lies between zero and one whole.
pub proof fn lemma_mix_range(profs: Seq<ColumnDataTypeInfo>)
    ensures
        0 <= mix_spec(profs) <= 1000000,
{
    lemma_mix_sums_bounds(profs);
    let k = qualifying_cols(profs);
    if k != 0 {
        lemma_round_div_le(entropy_sum(profs), k, 1000000);
        crate::fixed::lemma_round_div_nonneg(entropy_sum(profs), k);
    }
}

/// Averages the entropy scores of the qualifying columns.
pub fn calculate_data_type_mix(profs: &Vec<ColumnDataTypeInfo>) -> (r: u64)
    requires
        forall|j: int| 0 <= j < profs@.len() ==> (#[trigger] profs@[j]).wf(),
        profs@.len() <= 0x1_0000_0000,
    ensures
        r == mix_spec(profs@),
        r <= 1000000,
{
    let mut sum: u64 = 0;
    let mut k: u64 = 0;
    let mut i: usize = 0;
    while i < profs.len()
        invariant
            i <= profs@.len() <= 0x1_0000_0000,
            forall|j: int| 0 <= j < profs@.len() ==> (#[trigger] profs@[j]).wf(),
            sum == entropy_sum(profs@.take(i as int)),
            k == qualifying_cols(profs@.take(i as int)),
            0 <= k <= i,
            sum <= k * 1000000,
        decreases profs@.len() - i,
    {
        proof {
            assert(profs@.take(i + 1).drop_last() =~= profs@.take(i as int));
            assert(profs@.take(i + 1).last() == profs@[i as int]);
            lemma_mix_sums_bounds(profs@.take(i as int));
            assert(k * 1000000 + 1000000 == (k + 1) * 1000000) by (nonlinear_arith);
            assert((k + 1) * 1000000 <= 0x1_0000_0001 * 1000000) by (nonlinear_arith)
                requires
                    k + 1 <= 0x1_0000_0001,
            ;
        }
        let p = &profs[i];
        if p.total_count > 0 {
            let e = entropy_ppm(p.numeric_count as u64, p.total_count as u64);
            sum = sum + e;
            k = k + 1;
        }
        i = i + 1;
    }
    proof {
        assert(profs@.take(profs@.len() as int) =~= profs@);
    }
    if k == 0 {
        0
    } else {
        proof {
            lemma_round_div_le(sum as int, k as int, 1000000);
            crate::fixed::lemma_round_div_nonneg(sum as int, k as int);
        }
        round_div(sum, k)
    }
}

/// Columns that split their occupied cells exactly in half between
/// numeric and text each score one whole, so a profile made only of such
/// columns mixes to exactly one whole (one million parts per million).
pub proof fn lemma_even_split_mix(profs: Seq<ColumnDataTypeInfo>)
    requires
        profs.len() >= 1,
        forall|j: int|
            0 <= j < profs.len() ==> (#[trigger] profs[j]).total_count > 0 && 2 * profs[j].numeric_count
                == profs[j].total_count,
    ensures
        mix_spec(profs) == 1000000,
{
    lemma_even_split_sums(profs);
    let k = qualifying_cols(profs);
    assert(k == profs.len());
    let s = entropy_sum(profs);
    assert(s == k * 1000000);
    assert(2 * (k * 1000000) + k == 1000000 * (2 * k) + k) by (nonlinear_arith);
    lemma_fundamental_div_mod_converse_div(2 * (k * 1000000) + k, 2 * k, 1000000, k);
}

proof fn lemma_even_split_sums(profs: Seq<ColumnDataTypeInfo>)
    requires
        forall|j: int|
            0 <= j < profs.len() ==> (#[trigger] profs[j]).total_count > 0 && 2 * profs[j].numeric_count
                == profs[j].total_count,
    ensures
        qualifying_cols(profs) == profs.len(),
        entropy_sum(profs) == profs.len() * 1000000,
    decreases profs.len(),
{
    if profs.len() == 0 {
    } else {
        lemma_even_split_sums(profs.drop_last());
        let p = profs.last();
        assert(p.numeric_count >= 1);
        lemma_entropy_half(p.numeric_count as nat);
        assert(2 * (p.numeric_count as nat) == p.total_count as nat);
        assert((profs.len() - 1) * 1000000 + 1000000 == profs.len() * 1000000) by (nonlinear_arith);
    }
}

/// Columns whose occupied cells are all numeric or all text each score
/// zero, so a profile made only of such columns mixes to exactly zero.
pub proof fn lemma_pure_columns_mix(profs: Seq<ColumnDataTypeInfo>)
    requires
        forall|j: int|
            0 <= j < profs.len() ==> (#[trigger] profs[j]).numeric_count == 0 || profs[j].numeric_count
                == profs[j].total_count,
    ensures
        mix_spec(profs) == 0,
{
    lemma_pure_columns_sum(profs);
    let k = qualifying_cols(profs);
    if k != 0 {
        lemma_mix_sums_bounds(profs);
        assert(round_div_spec(0, k) == 0) by {
            lemma_basic_div(k, 2 * k);
        }
    }
}

proof fn lemma_pure_columns_sum(profs: Seq<ColumnDataTypeInfo>)
    requires
        forall|j: int|
            0 <= j < profs.len() ==> (#[trigger] profs[j]).numeric_count == 0 || profs[j].numeric_count
                == profs[j].total_count,
    ensures
        entropy_sum(profs) == 0,
    decreases profs.len(),
{
    if profs.len() > 0 {
        lemma_pure_columns_sum(profs.drop_last());
    }
}

} // verus!
