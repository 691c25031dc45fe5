//! Per-sheet statistics and the workbook-level statistics pass.
//!
//! `analyze_sheet` turns one decoded sheet into its `SheetDataDensity`
//! record: bounding box, occupancy counts and density, corner samples,
//! per-column type profiles, the mix score, the consistency score and
//! the aspect ratio. `calculate_sheet_density` runs that analysis over a
//! whole workbook, keeping only visible sheets, in workbook order.

use vstd::prelude::*;

use crate::cells::Cell;
use crate::cells::SheetVisibility;
use crate::cells::is_empty_cell;
use crate::consistency::calculate_row_type_consistency;
use crate::consistency::consistency_spec;
use crate::consistency::lemma_row_counts_bounds;
use crate::consistency::row_total_count;
use crate::fixed::lemma_round_div_le;
use crate::fixed::lemma_round_div_nonneg;
use crate::fixed::round_div;
use crate::fixed::round_div_spec;
use crate::grid::SheetGrid;
use crate::grid::effective_range_spec;
use crate::grid::get_effective_range;
use crate::grid::grid_cell_empty;
use crate::grid::sample_end_row;
use crate::profile::ColumnDataTypeInfo;
use crate::profile::calculate_column_data_types;
use crate::profile::col_profile_spec;
use crate::profile::calculate_data_type_mix;
use crate::profile::lemma_mix_range;
use crate::profile::mix_spec;

verus! {

/// One decoded sheet, as the workbook decoder reports it: name,
/// visibility flag, the two corners of the occupied bounding box (absent
/// when the decoder reports no extent), and the cells relative to the
/// first corner.
pub struct SheetInput {
    pub name: String,
    pub visible: SheetVisibility,
    pub start: Option<(u32, u32)>,
    pub end: Option<(u32, u32)>,
    pub rows: Vec<Vec<Cell>>,
}

/// The statistics of one analyzed sheet. Scores are integers in parts
/// per million.
pub struct SheetDataDensity {
    pub sheet_name: String,
    pub first_row: u32,
    pub first_col: u32,
    pub end_row: u32,
    pub end_col: u32,
    /// Cells in the sample window.
    pub total_cells: u64,
    /// Occupied cells in the sample window.
    pub data_cells: u64,
    /// `data_cells / total_cells`, rounded, in parts per million.
    pub density_ppm: u32,
    pub visible: SheetVisibility,
    /// Rendering of the cell at the window's first row, first column,
    /// when that cell is occupied.
    pub first_row_first_col_content: Option<String>,
    /// Rendering of the cell at the window's last sampled row, first
    /// column, when that cell is occupied.
    pub last_row_first_col_content: Option<String>,
    /// The mean per-column entropy score, in parts per million.
    pub data_type_mix_ppm: u32,
    /// One profile per bounding-box column, in ascending column order.
    pub column_data_types: Vec<ColumnDataTypeInfo>,
    /// The row-consistency score, in parts per million.
    pub row_type_consistency_ppm: u32,
    /// Sampled rows per column, in parts per million.
    pub aspect_ratio_ppm: u32,
}

/// How many cells of the first `n` sampled rows are occupied.
pub open spec fn data_count(g: SheetGrid, n: int) -> int
    decreases n,
{
    if n <= 0 {
        0
    } else {
        data_count(g, n - 1) + row_total_count(g, n - 1, g.col_count())
    }
}

pub proof fn lemma_data_count_bounds(g: SheetGrid, n: int)
    requires
        n >= 0,
        g.col_count() >= 0,
    ensures
        0 <= data_count(g, n) <= n * g.col_count(),
    decreases n,
{
    if n > 0 {
        lemma_data_count_bounds(g, n - 1);
        lemma_row_counts_bounds(g, n - 1, g.col_count());
        assert((n - 1) * g.col_count() + g.col_count() == n * g.col_count()) by (nonlinear_arith);
    }
}

/// The corner sample of sampled row `r`: the rendering of the cell in
/// the box's first column, when that cell is occupied.
pub open spec fn corner_spec(g: SheetGrid, r: int) -> Option<String> {
    if !g.empty_at(r, 0) {
        Some(g.rows[r]@[0].text)
    } else {
        None
    }
}

/// The profiles of all bounding-box columns, in ascending order.
pub open spec fn col_profiles_seq(g: SheetGrid) -> Seq<ColumnDataTypeInfo> {
    Seq::new(g.col_count() as nat, |j: int| col_profile_spec(g, j))
}

/// The grid a decoded sheet spans.
pub open spec fn input_grid(input: SheetInput) -> SheetGrid {
    let (fr, fc, er, ec) = effective_range_spec(input.start, input.end);
    SheetGrid { first_row: fr, first_col: fc, end_row: er, end_col: ec, rows: input.rows }
}

/// Whether the decoded sheet has a well-formed bounding box.
pub open spec fn input_box_valid(input: SheetInput) -> bool {
    let (fr, fc, er, ec) = effective_range_spec(input.start, input.end);
    fr <= er && fc <= ec
}

/// The record of a sheet without a well-formed box: everything zero, no
/// corner samples, no profiles.
pub open spec fn empty_stats_match(input: SheetInput, s: SheetDataDensity) -> bool {
    &&& s.sheet_name == input.name
    &&& s.first_row == 0
    &&& s.first_col == 0
    &&& s.end_row == 0
    &&& s.end_col == 0
    &&& s.total_cells == 0
    &&& s.data_cells == 0
    &&& s.density_ppm == 0
    &&& s.visible == input.visible
    &&& s.first_row_first_col_content is None
    &&& s.last_row_first_col_content is None
    &&& s.data_type_mix_ppm == 0
    &&& s.column_data_types@.len() == 0
    &&& s.row_type_consistency_ppm == 0
    &&& s.aspect_ratio_ppm == 0
}

/// The record of a sheet with a well-formed box: every field is pinned
/// to its specification over the sheet's grid.
pub open spec fn full_stats_match(input: SheetInput, s: SheetDataDensity) -> bool {
    let g = input_grid(input);
    &&& s.sheet_name == input.name
    &&& s.first_row == g.first_row
    &&& s.first_col == g.first_col
    &&& s.end_row == g.end_row
    &&& s.end_col == g.end_col
    &&& s.total_cells == g.sample_rows() * g.col_count()
    &&& s.data_cells == data_count(g, g.sample_rows())
    &&& s.density_ppm == round_div_spec(
        1000000 * data_count(g, g.sample_rows()),
        g.sample_rows() * g.col_count(),
    )
    &&& s.visible == input.visible
    &&& s.first_row_first_col_content == corner_spec(g, 0)
    &&& s.last_row_first_col_content == corner_spec(g, g.sample_rows() - 1)
    &&& s.data_type_mix_ppm == mix_spec(col_profiles_seq(g))
    &&& s.column_data_types@ == col_profiles_seq(g)
    &&& s.row_type_consistency_ppm == consistency_spec(g)
    &&& s.aspect_ratio_ppm == round_div_spec(1000000 * g.sample_rows(), g.col_count())
}

/// What `analyze_sheet` computes for one decoded sheet.
pub open spec fn stats_match(input: SheetInput, s: SheetDataDensity) -> bool {
    if input_box_valid(input) {
        full_stats_match(input, s)
    } else {
        empty_stats_match(input, s)
    }
}

/// Every ratio of an analyzed sheet lies between zero and one whole,
/// and the occupied cells never outnumber the window's cells.
pub proof fn lemma_stats_ranges(input: SheetInput, s: SheetDataDensity)
    requires
        stats_match(input, s),
    ensures
        s.data_cells <= s.total_cells,
        s.density_ppm <= 1000000,
        s.data_type_mix_ppm <= 1000000,
        s.row_type_consistency_ppm <= 1000000,
{
    if input_box_valid(input) {
        let g = input_grid(input);
        lemma_data_count_bounds(g, g.sample_rows());
        let d = data_count(g, g.sample_rows());
        let tc = g.sample_rows() * g.col_count();
        assert(g.sample_rows() * g.col_count() >= 1) by (nonlinear_arith)
            requires
                g.sample_rows() >= 1 && g.col_count() >= 1,
        ;
        assert(1000000 * d <= tc * 1000000) by (nonlinear_arith)
            requires
                0 <= d <= tc,
        ;
        lemma_round_div_le(1000000 * d, tc, 1000000);
        lemma_round_div_nonneg(1000000 * d, tc);
        lemma_mix_range(col_profiles_seq(g));
        lemma_consistency_range(g);
    }
}

/// The consistency score lies between zero and one whole.
pub proof fn lemma_consistency_range(g: SheetGrid)
    ensures
        0 <= consistency_spec(g) <= 1000000,
{
    let rs = crate::consistency::row_ratios(g, g.sample_rows());
    let k = rs.len() as int;
    if k >= 2 {
        let varnum = k * crate::consistency::seq_sum_sq(rs) - crate::consistency::seq_sum(rs)
            * crate::consistency::seq_sum(rs);
        let sigma = crate::fixed::isqrt_spec(varnum as nat) as int;
        assert(1000000 * 1000000 * k <= (1000000 * k + 3 * sigma) * 1000000) by (nonlinear_arith)
            requires
                k >= 2,
                sigma >= 0,
        ;
        lemma_round_div_le(1000000 * 1000000 * k, 1000000 * k + 3 * sigma, 1000000);
        lemma_round_div_nonneg(1000000 * 1000000 * k, 1000000 * k + 3 * sigma);
    }
}

/// Reads the corner sample of sampled row `r`.
fn corner_get(g: &SheetGrid, r: u64) -> (res: Option<String>)
    ensures
        res == corner_spec(*g, r as int),
{
    if r < g.rows.len() as u64 {
        let row = &g.rows[r as usize];
        if row.len() > 0 {
            let cell = &row[0];
            if !is_empty_cell(cell) {
                Some(cell.text.clone())
            } else {
                None
            }
        } else {
            None
        }
    } else {
        None
    }
}

/// Analyzes one decoded sheet: samples its box, counts occupancy,
/// profiles its columns and scores mix, consistency and shape.
pub fn analyze_sheet(input: SheetInput) -> (s: SheetDataDensity)
    ensures
        stats_match(input, s),
{
    let (fr, fc, er, ec) = get_effective_range(input.start, input.end);
    let SheetInput { name, visible, start: _, end: _, rows } = input;
    if fr > er || fc > ec {
        return SheetDataDensity {
            sheet_name: name,
            first_row: 0,
            first_col: 0,
            end_row: 0,
            end_col: 0,
            total_cells: 0,
            data_cells: 0,
            density_ppm: 0,
            visible,
            first_row_first_col_content: None,
            last_row_first_col_content: None,
            data_type_mix_ppm: 0,
            column_data_types: Vec::new(),
            row_type_consistency_ppm: 0,
            aspect_ratio_ppm: 0,
        };
    }
    let g = SheetGrid { first_row: fr, first_col: fc, end_row: er, end_col: ec, rows };
    proof {
        assert(g == input_grid(input));
    }
    let srows: u64 = (sample_end_row(g.first_row, g.end_row) - g.first_row) as u64 + 1;
    let ccount: u64 = (g.end_col - g.first_col) as u64 + 1;
    proof {
        assert(srows * ccount <= 100 * 0x1_0000_0000) by (nonlinear_arith)
            requires
                1 <= srows <= 100,
                1 <= ccount <= 0x1_0000_0000,
        ;
    }
    let total: u64 = srows * ccount;
    let mut data: u64 = 0;
    let mut row: u64 = 0;
    while row < srows
        invariant
            g.valid_box(),
            srows == g.sample_rows(),
            1 <= srows <= 100,
            ccount == g.col_count(),
            1 <= ccount <= 0x1_0000_0000,
            row <= srows,
            data == data_count(g, row as int),
            data <= row * ccount,
        decreases srows - row,
    {
        let mut tot: u64 = 0;
        let mut c: u64 = 0;
        while c < ccount
            invariant
                c <= ccount,
                tot == row_total_count(g, row as int, c as int),
                0 <= tot <= c,
            decreases ccount - c,
        {
            if !grid_cell_empty(&g, row, c) {
                tot = tot + 1;
            }
            c = c + 1;
        }
        proof {
            assert(row * ccount + ccount == (row + 1) * ccount) by (nonlinear_arith);
            assert((row + 1) * ccount <= 100 * 0x1_0000_0000) by (nonlinear_arith)
                requires
                    0 <= row + 1 <= 100,
                    0 <= ccount <= 0x1_0000_0000,
            ;
        }
        data = data + tot;
        row = row + 1;
    }
    proof {
        lemma_data_count_bounds(g, g.sample_rows());
        assert(srows * ccount >= 1) by (nonlinear_arith)
            requires
                srows >= 1 && ccount >= 1,
        ;
        assert(1000000 * (data as int) <= (total as int) * 1000000) by (nonlinear_arith)
            requires
                0 <= data <= total,
        ;
        assert(1000000 * (data as int) <= 1000000 * (100 * 0x1_0000_0000 as int))
            by (nonlinear_arith)
            requires
                0 <= (data as int) <= 100 * 0x1_0000_0000 as int,
        ;
        lemma_round_div_le(1000000 * (data as int), total as int, 1000000);
        lemma_round_div_nonneg(1000000 * (data as int), total as int);
    }
    let density = round_div(1000000 * data, total);
    let first_content = corner_get(&g, 0);
    let last_content = corner_get(&g, srows - 1);
    let profiles = calculate_column_data_types(&g);
    proof {
        assert(profiles@ =~= col_profiles_seq(g));
    }
    let mix = calculate_data_type_mix(&profiles);
    let cons = calculate_row_type_consistency(&g);
    proof {
        lemma_round_div_le(1000000 * (srows as int), ccount as int, 100000000);
        assert(1000000 * (srows as int) <= (ccount as int) * 100000000) by (nonlinear_arith)
            requires
                1 <= srows <= 100,
                1 <= ccount,
        ;
        lemma_round_div_nonneg(1000000 * (srows as int), ccount as int);
    }
    let aspect = round_div(1000000 * srows, ccount);
    SheetDataDensity {
        sheet_name: name,
        first_row: g.first_row,
        first_col: g.first_col,
        end_row: g.end_row,
        end_col: g.end_col,
        total_cells: total,
        data_cells: data,
        density_ppm: density as u32,
        visible,
        first_row_first_col_content: first_content,
        last_row_first_col_content: last_content,
        data_type_mix_ppm: mix as u32,
        column_data_types: profiles,
        row_type_consistency_ppm: cons as u32,
        aspect_ratio_ppm: aspect as u32,
    }
}

/// How the statistics sequence of a workbook relates to its decoded
/// sheets: visible sheets contribute their record, in order; hidden and
/// very-hidden sheets contribute nothing.
pub open spec fn density_results_match(inputs: Seq<SheetInput>, out: Seq<SheetDataDensity>) -> bool
    decreases inputs.len(),
{
    if inputs.len() == 0 {
        out.len() == 0
    } else if inputs.last().visible is Visible {
        &&& out.len() >= 1
        &&& stats_match(inputs.last(), out.last())
        &&& density_results_match(inputs.drop_last(), out.drop_last())
    } else {
        density_results_match(inputs.drop_last(), out)
    }
}

/// Analyzes a whole decoded workbook: every visible sheet yields its
/// statistics record, in the decoder's sheet order; hidden and
/// very-hidden sheets are skipped entirely.
pub fn calculate_sheet_density(workbook: Vec<SheetInput>) -> (res: Vec<SheetDataDensity>)
    ensures
        density_results_match(workbook@, res@),
        res@.len() == visible_count(workbook@),
{
    let ghost orig = workbook@;
    let mut inputs = workbook;
    let mut res: Vec<SheetDataDensity> = Vec::new();
    let ghost mut done: int = 0;
    while inputs.len() > 0
        invariant
            0 <= done <= orig.len(),
            inputs@ =~= orig.skip(done),
            density_results_match(orig.take(done), res@),
        decreases inputs@.len(),
    {
        let input = inputs.remove(0);
        proof {
            assert(input == orig[done]);
            assert(inputs@ =~= orig.skip(done + 1));
        }
        let ghost pre = orig.take(done);
        let ghost out_pre = res@;
        let visible = match input.visible {
            SheetVisibility::Visible => true,
            _ => false,
        };
        if visible {
            let s = analyze_sheet(input);
            res.push(s);
        }
        proof {
            assert(orig.take(done + 1).drop_last() =~= pre);
            assert(orig.take(done + 1).last() == orig[done]);
            if visible {
                assert(res@.drop_last() =~= out_pre);
            }
            done = done + 1;
        }
    }
    proof {
        assert(orig.take(orig.len() as int) =~= orig);
        lemma_hidden_sheets_absent(orig, res@);
    }
    res
}

/// How many sheets of a workbook are visible.
pub open spec fn visible_count(inputs: Seq<SheetInput>) -> int
    decreases inputs.len(),
{
    if inputs.len() == 0 {
        0
    } else {
        visible_count(inputs.drop_last()) + if inputs.last().visible is Visible {
            1int
        } else {
            0int
        }
    }
}

/// Hidden and very-hidden sheets never appear in the statistics: the
/// output holds exactly one record per visible sheet, and every record
/// is the record of a visible sheet.
pub proof fn lemma_hidden_sheets_absent(inputs: Seq<SheetInput>, out: Seq<SheetDataDensity>)
    requires
        density_results_match(inputs, out),
    ensures
        out.len() == visible_count(inputs),
        forall|j: int|
            0 <= j < out.len() ==> exists|i: int|
                0 <= i < inputs.len() && (#[trigger] inputs[i]).visible is Visible && stats_match(
                    inputs[i],
                    #[trigger] out[j],
                ),
    decreases inputs.len(),
{
    if inputs.len() == 0 {
    } else if inputs.last().visible is Visible {
        lemma_hidden_sheets_absent(inputs.drop_last(), out.drop_last());
        assert forall|j: int| 0 <= j < out.len() implies exists|i: int|
            0 <= i < inputs.len() && (#[trigger] inputs[i]).visible is Visible && stats_match(
                inputs[i],
                #[trigger] out[j],
            ) by {
            if j < out.len() - 1 {
                assert(out.drop_last()[j] == out[j]);
                let i = choose|i: int|
                    0 <= i < inputs.drop_last().len() && (#[trigger] inputs.drop_last()[i]).visible
                        is Visible && stats_match(inputs.drop_last()[i], out.drop_last()[j]);
                assert(inputs[i] == inputs.drop_last()[i]);
            } else {
                let i = inputs.len() - 1;
                assert(inputs[i].visible is Visible && stats_match(inputs[i], out[j]));
            }
        }
    } else {
        lemma_hidden_sheets_absent(inputs.drop_last(), out);
        assert forall|j: int| 0 <= j < out.len() implies exists|i: int|
            0 <= i < inputs.len() && (#[trigger] inputs[i]).visible is Visible && stats_match(
                inputs[i],
                #[trigger] out[j],
            ) by {
            let i = choose|i: int|
                0 <= i < inputs.drop_last().len() && (#[trigger] inputs.drop_last()[i]).visible
                    is Visible && stats_match(inputs.drop_last()[i], out[j]);
            assert(inputs[i] == inputs.drop_last()[i]);
        }
    }
}

} // verus!
