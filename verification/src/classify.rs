//! The rule-based sheet classifier.
//!
//! A sheet with zero density is unknown. Otherwise a fixed cascade of
//! rules over density, aspect ratio, column count, row consistency and
//! type mix decides between a tabular data sheet and a form-like
//! key/value sheet; the first matching rule wins. Density and aspect
//! thresholds are decided exactly on the underlying counts; the mix and
//! consistency thresholds are decided on the parts-per-million scores.

use vstd::prelude::*;
use vstd::string::StringExecFns;

use crate::cells::SheetVisibility;
use crate::fixed::round_div;
use crate::fixed::round_div_spec;
use crate::format::fixed1_chars;
use crate::format::fixed3_chars;
use crate::format::push_fixed1;
use crate::format::push_fixed3;
use crate::grid::sample_end_spec;
use crate::grid::sample_end_row;
use crate::profile::ColumnDataTypeInfo;
use crate::stats::SheetDataDensity;
use crate::stats::SheetInput;
use crate::stats::calculate_sheet_density;
use crate::stats::density_results_match;
use crate::stats::input_box_valid;
use crate::stats::input_grid;
use crate::stats::lemma_data_count_bounds;
use crate::stats::stats_match;

verus! {

/// What a sheet's layout is judged to be.
#[derive(Clone, Copy, Debug, PartialEq, Eq, Structural)]
pub enum SheetType {
    /// Rows of records.
    Data,
    /// A key/value form.
    Form,
    /// Nothing to judge: the sample window holds no data.
    Unknown,
}

/// A sheet's statistics together with the verdict and its stated
/// grounds.
pub struct ClassifiedSheet {
    pub sheet_name: String,
    pub first_row: u32,
    pub first_col: u32,
    pub end_row: u32,
    pub end_col: u32,
    pub total_cells: u64,
    pub data_cells: u64,
    pub density_ppm: u32,
    pub visible: SheetVisibility,
    pub first_row_first_col_content: Option<String>,
    pub last_row_first_col_content: Option<String>,
    pub data_type_mix_ppm: u32,
    pub column_data_types: Vec<ColumnDataTypeInfo>,
    pub row_type_consistency_ppm: u32,
    pub aspect_ratio_ppm: u32,
    pub sheet_type: SheetType,
    pub classification_reason: String,
}

/// A sheet whose sample window holds no occupied cell at all.
pub open spec fn is_zero_density(s: SheetDataDensity) -> bool {
    s.total_cells == 0 || s.data_cells == 0
}

/// What `classify_sheet` needs of its record: either there is nothing
/// to judge, or the bounding box is ordered and the counts are those of
/// a sample window (at most one hundred rows of at most 2^32 columns).
pub open spec fn classifiable(s: SheetDataDensity) -> bool {
    is_zero_density(s) || (s.first_row <= s.end_row && s.first_col <= s.end_col
        && s.data_cells <= s.total_cells && s.total_cells <= 0x64_0000_0000)
}

/// How many columns the record's bounding box spans.
pub open spec fn box_cols(s: SheetDataDensity) -> int {
    s.end_col - s.first_col + 1
}

/// How many rows the record's sample window spans.
pub open spec fn box_sample_rows(s: SheetDataDensity) -> int {
    sample_end_spec(s.first_row as int, s.end_row as int) - s.first_row + 1
}

/// The decision cascade for a sheet with data. Density thresholds are
/// exact comparisons on the counts (`density > 0.70` is `10 *
/// data_cells > 7 * total_cells`), aspect thresholds are exact
/// comparisons on the window shape, and the mix and consistency
/// thresholds compare the parts-per-million scores.
pub open spec fn classify_type_spec(s: SheetDataDensity) -> SheetType {
    let data = s.data_cells as int;
    let tot = s.total_cells as int;
    let cols = box_cols(s);
    let srows = box_sample_rows(s);
    let mix = s.data_type_mix_ppm as int;
    let cons = s.row_type_consistency_ppm as int;
    if 10 * data > 7 * tot {
        SheetType::Data
    } else if srows > 4 * cols && cols <= 4 && 20 * data > 7 * tot {
        SheetType::Form
    } else if 50 * data > 23 * tot && cols > 4 && cons > 500000 {
        SheetType::Data
    } else if 5 * data > 2 * tot && cons > 800000 {
        SheetType::Data
    } else if cols > 10 && 2 * srows < cols && 20 * data > 7 * tot {
        SheetType::Data
    } else if 50 * data > 23 * tot && mix > 350000 {
        SheetType::Data
    } else if 20 * data > 7 * tot && mix > 350000 && cols > 5 {
        SheetType::Data
    } else {
        SheetType::Form
    }
}

/// The verdict for any record: unknown exactly when the density is
/// zero, otherwise the cascade's answer.
pub open spec fn verdict_spec(s: SheetDataDensity) -> SheetType {
    if is_zero_density(s) {
        SheetType::Unknown
    } else {
        classify_type_spec(s)
    }
}

/// The reason text for a sheet with data: density, mix and consistency
/// to three decimal places, the aspect ratio to one.
pub open spec fn reason_chars(s: SheetDataDensity) -> Seq<char> {
    let d3 = round_div_spec(1000 * s.data_cells, s.total_cells as int) as nat;
    let m3 = round_div_spec(s.data_type_mix_ppm as int, 1000) as nat;
    let c3 = round_div_spec(s.row_type_consistency_ppm as int, 1000) as nat;
    let a1 = round_div_spec(10 * box_sample_rows(s), box_cols(s)) as nat;
    "density: "@ + fixed3_chars(d3) + ", data_type_mix: "@ + fixed3_chars(m3)
        + ", row_consistency: "@ + fixed3_chars(c3) + ", aspect_ratio: "@ + fixed1_chars(a1)
}

/// The reason text for any record.
pub open spec fn reason_spec(s: SheetDataDensity) -> Seq<char> {
    if is_zero_density(s) {
        "Density is zero"@
    } else {
        reason_chars(s)
    }
}

/// What `classify_sheet` returns: the record's fields carried over
/// unchanged, the verdict, and the reason text.
pub open spec fn classified_match(s: SheetDataDensity, r: ClassifiedSheet) -> bool {
    &&& r.sheet_name == s.sheet_name
    &&& r.first_row == s.first_row
    &&& r.first_col == s.first_col
    &&& r.end_row == s.end_row
    &&& r.end_col == s.end_col
    &&& r.total_cells == s.total_cells
    &&& r.data_cells == s.data_cells
    &&& r.density_ppm == s.density_ppm
    &&& r.visible == s.visible
    &&& r.first_row_first_col_content == s.first_row_first_col_content
    &&& r.last_row_first_col_content == s.last_row_first_col_content
    &&& r.data_type_mix_ppm == s.data_type_mix_ppm
    &&& r.column_data_types@ == s.column_data_types@
    &&& r.row_type_consistency_ppm == s.row_type_consistency_ppm
    &&& r.aspect_ratio_ppm == s.aspect_ratio_ppm
    &&& r.sheet_type == verdict_spec(s)
    &&& r.classification_reason@ == reason_spec(s)
}

fn clone_opt_string(o: &Option<String>) -> (r: Option<String>)
    ensures
        r == *o,
{
    match o {
        Some(s) => Some(s.clone()),
        None => None,
    }
}

fn copy_profiles(src: &Vec<ColumnDataTypeInfo>) -> (r: Vec<ColumnDataTypeInfo>)
    ensures
        r@ == src@,
{
    let mut r: Vec<ColumnDataTypeInfo> = Vec::new();
    let mut i: usize = 0;
    while i < src.len()
        invariant
            i <= src@.len(),
            r@ =~= src@.take(i as int),
        decreases src@.len() - i,
    {
        r.push(src[i]);
        proof {
            assert(r@ =~= src@.take(i + 1));
        }
        i = i + 1;
    }
    proof {
        assert(src@.take(src@.len() as int) =~= src@);
    }
    r
}

/// Classifies one sheet record: a zero-density sheet is unknown with
/// reason "Density is zero"; any other sheet is judged by the rule
/// cascade, with the metrics recorded in the reason.
pub fn classify_sheet(sheet_data: &SheetDataDensity) -> (r: ClassifiedSheet)
    requires
        classifiable(*sheet_data),
    ensures
        classified_match(*sheet_data, r),
{
    let zero = sheet_data.total_cells == 0 || sheet_data.data_cells == 0;
    let sheet_type: SheetType;
    let reason: String;
    if zero {
        sheet_type = SheetType::Unknown;
        reason = String::from_str("Density is zero");
    } else {
        let data = sheet_data.data_cells;
        let tot = sheet_data.total_cells;
        let cols: u64 = (sheet_data.end_col - sheet_data.first_col) as u64 + 1;
        let srows: u64 = (sample_end_row(sheet_data.first_row, sheet_data.end_row)
            - sheet_data.first_row) as u64 + 1;
        let mix: u64 = sheet_data.data_type_mix_ppm as u64;
        let cons: u64 = sheet_data.row_type_consistency_ppm as u64;
        sheet_type = if 10 * data > 7 * tot {
            SheetType::Data
        } else if srows > 4 * cols && cols <= 4 && 20 * data > 7 * tot {
            SheetType::Form
        } else if 50 * data > 23 * tot && cols > 4 && cons > 500000 {
            SheetType::Data
        } else if 5 * data > 2 * tot && cons > 800000 {
            SheetType::Data
        } else if cols > 10 && 2 * srows < cols && 20 * data > 7 * tot {
            SheetType::Data
        } else if 50 * data > 23 * tot && mix > 350000 {
            SheetType::Data
        } else if 20 * data > 7 * tot && mix > 350000 && cols > 5 {
            SheetType::Data
        } else {
            SheetType::Form
        };
        let d3 = round_div(1000 * data, tot);
        let m3 = round_div(mix, 1000);
        let c3 = round_div(cons, 1000);
        let a1 = round_div(10 * srows, cols);
        let mut text = String::new();
        text.append("density: ");
        push_fixed3(&mut text, d3);
        text.append(", data_type_mix: ");
        push_fixed3(&mut text, m3);
        text.append(", row_consistency: ");
        push_fixed3(&mut text, c3);
        text.append(", aspect_ratio: ");
        push_fixed1(&mut text, a1);
        proof {
            assert(text@ =~= reason_chars(*sheet_data));
        }
        reason = text;
    }
    ClassifiedSheet {
        sheet_name: sheet_data.sheet_name.clone(),
        first_row: sheet_data.first_row,
        first_col: sheet_data.first_col,
        end_row: sheet_data.end_row,
        end_col: sheet_data.end_col,
        total_cells: sheet_data.total_cells,
        data_cells: sheet_data.data_cells,
        density_ppm: sheet_data.density_ppm,
        visible: sheet_data.visible,
        first_row_first_col_content: clone_opt_string(&sheet_data.first_row_first_col_content),
        last_row_first_col_content: clone_opt_string(&sheet_data.last_row_first_col_content),
        data_type_mix_ppm: sheet_data.data_type_mix_ppm,
        column_data_types: copy_profiles(&sheet_data.column_data_types),
        row_type_consistency_ppm: sheet_data.row_type_consistency_ppm,
        aspect_ratio_ppm: sheet_data.aspect_ratio_ppm,
        sheet_type,
        classification_reason: reason,
    }
}

/// How the classified sequence relates to the statistics sequence:
/// sheets with data contribute their classified record, in order;
/// zero-density sheets are excluded from the output entirely.
pub open spec fn classified_of_stats_match(
    stats: Seq<SheetDataDensity>,
    out: Seq<ClassifiedSheet>,
) -> bool
    decreases stats.len(),
{
    if stats.len() == 0 {
        out.len() == 0
    } else if !is_zero_density(stats.last()) {
        &&& out.len() >= 1
        &&& classified_match(stats.last(), out.last())
        &&& classified_of_stats_match(stats.drop_last(), out.drop_last())
    } else {
        classified_of_stats_match(stats.drop_last(), out)
    }
}

/// How the classified sequence relates to the decoded workbook: some
/// statistics sequence links the two.
pub open spec fn workbook_classified_match(
    inputs: Seq<SheetInput>,
    out: Seq<ClassifiedSheet>,
) -> bool {
    exists|stats: Seq<SheetDataDensity>|
        #[trigger] density_results_match(inputs, stats) && classified_of_stats_match(stats, out)
}

/// Every record that the statistics pass produces can be classified.
pub proof fn lemma_stats_classifiable(input: SheetInput, s: SheetDataDensity)
    requires
        stats_match(input, s),
    ensures
        classifiable(s),
{
    if input_box_valid(input) {
        let g = input_grid(input);
        lemma_data_count_bounds(g, g.sample_rows());
        assert(1 <= g.sample_rows() <= 100);
        assert(1 <= g.col_count() <= 0x1_0000_0000);
        assert(g.sample_rows() * g.col_count() <= 100 * 0x1_0000_0000) by (nonlinear_arith)
            requires
                0 <= g.sample_rows() <= 100,
                0 <= g.col_count() <= 0x1_0000_0000,
        ;
    }
}

/// Classifies a whole decoded workbook: the statistics of every visible
/// sheet are computed in order, each sheet with data is classified, and
/// zero-density sheets are dropped from the output.
pub fn classify_excel_sheets(workbook: Vec<SheetInput>) -> (res: Vec<ClassifiedSheet>)
    ensures
        workbook_classified_match(workbook@, res@),
        forall|j: int|
            0 <= j < res@.len() ==> (#[trigger] res@[j]).visible == SheetVisibility::Visible
                && res@[j].data_cells > 0 && res@[j].sheet_type != SheetType::Unknown,
{
    let ghost inputs = workbook@;
    let sheets = calculate_sheet_density(workbook);
    let ghost stats = sheets@;
    proof {
        crate::stats::lemma_hidden_sheets_absent(inputs, stats);
        assert forall|j: int| 0 <= j < stats.len() implies classifiable(#[trigger] stats[j]) by {
            let i = choose|i: int|
                0 <= i < inputs.len() && (#[trigger] inputs[i]).visible is Visible && stats_match(
                    inputs[i],
                    stats[j],
                );
            lemma_stats_classifiable(inputs[i], stats[j]);
        }
    }
    let mut res: Vec<ClassifiedSheet> = Vec::new();
    let mut i: usize = 0;
    while i < sheets.len()
        invariant
            i <= stats.len(),
            sheets@ == stats,
            forall|j: int| 0 <= j < stats.len() ==> classifiable(#[trigger] stats[j]),
            classified_of_stats_match(stats.take(i as int), res@),
        decreases stats.len() - i,
    {
        let s = &sheets[i];
        let ghost pre = stats.take(i as int);
        let ghost out_pre = res@;
        if !(s.total_cells == 0 || s.data_cells == 0) {
            let c = classify_sheet(s);
            res.push(c);
        }
        proof {
            assert(stats.take(i + 1).drop_last() =~= pre);
            assert(stats.take(i + 1).last() == stats[i as int]);
            if !is_zero_density(stats[i as int]) {
                assert(res@.drop_last() =~= out_pre);
            }
        }
        i = i + 1;
    }
    proof {
        assert(stats.take(stats.len() as int) =~= stats);
        assert(density_results_match(inputs, stats) && classified_of_stats_match(stats, res@));
        lemma_output_sheets_visible(inputs, res@);
    }
    res
}

/// Zero-density sheets are absent from the classified output: every
/// classified record stems from a sheet with data, so no record is
/// unknown.
pub proof fn lemma_zero_density_excluded(stats: Seq<SheetDataDensity>, out: Seq<ClassifiedSheet>)
    requires
        classified_of_stats_match(stats, out),
    ensures
        forall|j: int|
            0 <= j < out.len() ==> exists|i: int|
                0 <= i < stats.len() && !is_zero_density(#[trigger] stats[i]) && classified_match(
                    stats[i],
                    #[trigger] out[j],
                ),
        forall|j: int| 0 <= j < out.len() ==> (#[trigger] out[j]).sheet_type != SheetType::Unknown,
    decreases stats.len(),
{
    if stats.len() == 0 {
    } else if !is_zero_density(stats.last()) {
        lemma_zero_density_excluded(stats.drop_last(), out.drop_last());
        assert forall|j: int| 0 <= j < out.len() implies exists|i: int|
            0 <= i < stats.len() && !is_zero_density(#[trigger] stats[i]) && classified_match(
                stats[i],
                #[trigger] out[j],
            ) by {
            if j < out.len() - 1 {
                assert(out.drop_last()[j] == out[j]);
                let i = choose|i: int|
                    0 <= i < stats.drop_last().len() && !is_zero_density(
                        #[trigger] stats.drop_last()[i],
                    ) && classified_match(stats.drop_last()[i], out.drop_last()[j]);
                assert(stats[i] == stats.drop_last()[i]);
            } else {
                let i = stats.len() - 1;
                assert(!is_zero_density(stats[i]) && classified_match(stats[i], out[j]));
            }
        }
        assert forall|j: int| 0 <= j < out.len() implies (#[trigger] out[j]).sheet_type
            != SheetType::Unknown by {
            let i = choose|i: int|
                0 <= i < stats.len() && !is_zero_density(#[trigger] stats[i]) && classified_match(
                    stats[i],
                    out[j],
                );
            assert(out[j].sheet_type == classify_type_spec(stats[i]));
        }
    } else {
        lemma_zero_density_excluded(stats.drop_last(), out);
        assert forall|j: int| 0 <= j < out.len() implies exists|i: int|
            0 <= i < stats.len() && !is_zero_density(#[trigger] stats[i]) && classified_match(
                stats[i],
                #[trigger] out[j],
            ) by {
            let i = choose|i: int|
                0 <= i < stats.drop_last().len() && !is_zero_density(
                    #[trigger] stats.drop_last()[i],
                ) && classified_match(stats.drop_last()[i], out[j]);
            assert(stats[i] == stats.drop_last()[i]);
        }
    }
}

/// Every record of the classified output belongs to a visible sheet
/// that holds data: hidden and very-hidden sheets and zero-density
/// sheets never reach it, and no record is unknown.
pub proof fn lemma_output_sheets_visible(inputs: Seq<SheetInput>, out: Seq<ClassifiedSheet>)
    requires
        workbook_classified_match(inputs, out),
    ensures
        forall|j: int|
            0 <= j < out.len() ==> (#[trigger] out[j]).visible == SheetVisibility::Visible
                && out[j].data_cells > 0 && out[j].sheet_type != SheetType::Unknown,
{
    let stats = choose|stats: Seq<SheetDataDensity>|
        #[trigger] density_results_match(inputs, stats) && classified_of_stats_match(stats, out);
    crate::stats::lemma_hidden_sheets_absent(inputs, stats);
    lemma_zero_density_excluded(stats, out);
    assert forall|j: int| 0 <= j < out.len() implies (#[trigger] out[j]).visible
        == SheetVisibility::Visible && out[j].data_cells > 0 && out[j].sheet_type
        != SheetType::Unknown by {
        let i = choose|i: int|
            0 <= i < stats.len() && !is_zero_density(#[trigger] stats[i]) && classified_match(
                stats[i],
                out[j],
            );
        let i2 = choose|i2: int|
            0 <= i2 < inputs.len() && (#[trigger] inputs[i2]).visible is Visible && stats_match(
                inputs[i2],
                stats[i],
            );
        assert(stats[i].visible == inputs[i2].visible);
    }
}

/// Two statistics records that agree on every observable field.
pub open spec fn stats_obs_eq(a: SheetDataDensity, b: SheetDataDensity) -> bool {
    &&& a.sheet_name == b.sheet_name
    &&& a.first_row == b.first_row
    &&& a.first_col == b.first_col
    &&& a.end_row == b.end_row
    &&& a.end_col == b.end_col
    &&& a.total_cells == b.total_cells
    &&& a.data_cells == b.data_cells
    &&& a.density_ppm == b.density_ppm
    &&& a.visible == b.visible
    &&& a.first_row_first_col_content == b.first_row_first_col_content
    &&& a.last_row_first_col_content == b.last_row_first_col_content
    &&& a.data_type_mix_ppm == b.data_type_mix_ppm
    &&& a.column_data_types@ == b.column_data_types@
    &&& a.row_type_consistency_ppm == b.row_type_consistency_ppm
    &&& a.aspect_ratio_ppm == b.aspect_ratio_ppm
}

/// Two classified records that agree on every observable field.
pub open spec fn classified_obs_eq(a: ClassifiedSheet, b: ClassifiedSheet) -> bool {
    &&& a.sheet_name == b.sheet_name
    &&& a.first_row == b.first_row
    &&& a.first_col == b.first_col
    &&& a.end_row == b.end_row
    &&& a.end_col == b.end_col
    &&& a.total_cells == b.total_cells
    &&& a.data_cells == b.data_cells
    &&& a.density_ppm == b.density_ppm
    &&& a.visible == b.visible
    &&& a.first_row_first_col_content == b.first_row_first_col_content
    &&& a.last_row_first_col_content == b.last_row_first_col_content
    &&& a.data_type_mix_ppm == b.data_type_mix_ppm
    &&& a.column_data_types@ == b.column_data_types@
    &&& a.row_type_consistency_ppm == b.row_type_consistency_ppm
    &&& a.aspect_ratio_ppm == b.aspect_ratio_ppm
    &&& a.sheet_type == b.sheet_type
    &&& a.classification_reason@ == b.classification_reason@
}

/// One decoded sheet determines its statistics record up to observable
/// equality.
pub proof fn lemma_stats_deterministic(input: SheetInput, s1: SheetDataDensity, s2: SheetDataDensity)
    requires
        stats_match(input, s1),
        stats_match(input, s2),
    ensures
        stats_obs_eq(s1, s2),
{
    if !input_box_valid(input) {
        assert(s1.column_data_types@ =~= s2.column_data_types@);
    }
}

/// One decoded workbook determines its statistics sequence pointwise.
pub proof fn lemma_density_deterministic(
    inputs: Seq<SheetInput>,
    o1: Seq<SheetDataDensity>,
    o2: Seq<SheetDataDensity>,
)
    requires
        density_results_match(inputs, o1),
        density_results_match(inputs, o2),
    ensures
        o1.len() == o2.len(),
        forall|j: int| 0 <= j < o1.len() ==> stats_obs_eq(#[trigger] o1[j], o2[j]),
    decreases inputs.len(),
{
    if inputs.len() == 0 {
    } else if inputs.last().visible is Visible {
        lemma_density_deterministic(inputs.drop_last(), o1.drop_last(), o2.drop_last());
        assert forall|j: int| 0 <= j < o1.len() implies stats_obs_eq(#[trigger] o1[j], o2[j]) by {
            if j < o1.len() - 1 {
                assert(o1.drop_last()[j] == o1[j]);
                assert(o2.drop_last()[j] == o2[j]);
            } else {
                lemma_stats_deterministic(inputs.last(), o1.last(), o2.last());
            }
        }
    } else {
        lemma_density_deterministic(inputs.drop_last(), o1, o2);
    }
}

/// Classification respects observable equality of the statistics.
pub proof fn lemma_classified_respects_obs(
    s1: SheetDataDensity,
    s2: SheetDataDensity,
    r: ClassifiedSheet,
)
    requires
        stats_obs_eq(s1, s2),
        classified_match(s1, r),
    ensures
        classified_match(s2, r),
{
}

/// One statistics sequence determines the classified sequence pointwise.
pub proof fn lemma_classified_deterministic(
    st1: Seq<SheetDataDensity>,
    st2: Seq<SheetDataDensity>,
    o1: Seq<ClassifiedSheet>,
    o2: Seq<ClassifiedSheet>,
)
    requires
        st1.len() == st2.len(),
        forall|j: int| 0 <= j < st1.len() ==> stats_obs_eq(#[trigger] st1[j], st2[j]),
        classified_of_stats_match(st1, o1),
        classified_of_stats_match(st2, o2),
    ensures
        o1.len() == o2.len(),
        forall|j: int| 0 <= j < o1.len() ==> classified_obs_eq(#[trigger] o1[j], o2[j]),
    decreases st1.len(),
{
    if st1.len() == 0 {
    } else {
        assert(stats_obs_eq(st1.last(), st2.last()));
        assert forall|j: int| 0 <= j < st1.drop_last().len() implies stats_obs_eq(
            #[trigger] st1.drop_last()[j],
            st2.drop_last()[j],
        ) by {
            assert(st1.drop_last()[j] == st1[j]);
            assert(st2.drop_last()[j] == st2[j]);
        }
        if !is_zero_density(st1.last()) {
            assert(!is_zero_density(st2.last()));
            lemma_classified_deterministic(
                st1.drop_last(),
                st2.drop_last(),
                o1.drop_last(),
                o2.drop_last(),
            );
            assert forall|j: int| 0 <= j < o1.len() implies classified_obs_eq(
                #[trigger] o1[j],
                o2[j],
            ) by {
                if j < o1.len() - 1 {
                    assert(o1.drop_last()[j] == o1[j]);
                    assert(o2.drop_last()[j] == o2[j]);
                } else {
                    lemma_classified_respects_obs(st1.last(), st2.last(), o1.last());
                    assert(classified_match(st2.last(), o1.last()));
                    assert(classified_match(st2.last(), o2.last()));
                }
            }
        } else {
            assert(is_zero_density(st2.last()));
            lemma_classified_deterministic(st1.drop_last(), st2.drop_last(), o1, o2);
        }
    }
}

/// Classifying the same decoded workbook twice yields the same output:
/// any two classified sequences for one workbook agree pointwise on
/// every observable field, so their serializations are identical.
pub proof fn lemma_classification_idempotent(
    inputs: Seq<SheetInput>,
    out1: Seq<ClassifiedSheet>,
    out2: Seq<ClassifiedSheet>,
)
    requires
        workbook_classified_match(inputs, out1),
        workbook_classified_match(inputs, out2),
    ensures
        out1.len() == out2.len(),
        forall|j: int| 0 <= j < out1.len() ==> classified_obs_eq(#[trigger] out1[j], out2[j]),
{
    let st1 = choose|stats: Seq<SheetDataDensity>|
        #[trigger] density_results_match(inputs, stats) && classified_of_stats_match(stats, out1);
    let st2 = choose|stats: Seq<SheetDataDensity>|
        #[trigger] density_results_match(inputs, stats) && classified_of_stats_match(stats, out2);
    lemma_density_deterministic(inputs, st1, st2);
    lemma_classified_deterministic(st1, st2, out1, out2);
}

} // verus!
