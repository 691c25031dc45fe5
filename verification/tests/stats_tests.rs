use layout_view::cells::Cell;
use layout_view::cells::CellKind;
use layout_view::cells::SheetVisibility;
use layout_view::grid::get_effective_range;
use layout_view::profile::ColumnDataTypeInfo;
use layout_view::stats::SheetDataDensity;
use layout_view::stats::SheetInput;
use layout_view::stats::analyze_sheet;
use layout_view::stats::calculate_sheet_density;

fn number(n: i64) -> Cell {
    Cell::new(CellKind::Integer, n.to_string())
}

fn label(s: &str) -> Cell {
    Cell::new(CellKind::Text, s.to_string())
}

fn blank() -> Cell {
    Cell::new(CellKind::Empty, String::new())
}

fn sheet(name: &str, visible: SheetVisibility, end: (u32, u32), rows: Vec<Vec<Cell>>) -> SheetInput {
    SheetInput {
        name: name.to_string(),
        visible,
        start: Some((0, 0)),
        end: Some(end),
        rows,
    }
}

#[test]
fn test_sheet_data_density_struct() {
    let sheet_data = SheetDataDensity {
        sheet_name: "Test Sheet".to_string(),
        first_row: 0,
        first_col: 0,
        end_row: 10,
        end_col: 10,
        total_cells: 121,
        data_cells: 50,
        density_ppm: 413223,
        visible: SheetVisibility::Visible,
        first_row_first_col_content: Some("Test".to_string()),
        last_row_first_col_content: Some("End".to_string()),
        data_type_mix_ppm: 500000,
        column_data_types: vec![ColumnDataTypeInfo {
            column_index: 0,
            numeric_count: 5,
            text_count: 5,
            total_count: 10,
            numeric_type_ratio_ppm: 500000,
        }],
        row_type_consistency_ppm: 700000,
        aspect_ratio_ppm: 1000000,
    };

    assert_eq!(sheet_data.sheet_name, "Test Sheet");
    assert_eq!(sheet_data.visible, SheetVisibility::Visible);
    assert_eq!(
        sheet_data.first_row_first_col_content,
        Some("Test".to_string())
    );
    assert_eq!(
        sheet_data.last_row_first_col_content,
        Some("End".to_string())
    );
    assert_eq!(sheet_data.data_type_mix_ppm, 500000);
    assert_eq!(sheet_data.column_data_types.len(), 1);
    assert_eq!(sheet_data.column_data_types[0].column_index, 0);
}

#[test]
fn test_fully_populated_numeric_sheet() {
    // an 11 x 11 box full of numbers: density is exactly one
    let rows: Vec<Vec<Cell>> = (0..11)
        .map(|r| (0..11).map(|c| number((r * 11 + c) as i64)).collect())
        .collect();
    let s = analyze_sheet(sheet("grid", SheetVisibility::Visible, (10, 10), rows));
    assert_eq!(s.total_cells, 121);
    assert_eq!(s.data_cells, 121);
    assert_eq!(s.density_ppm, 1000000);
    assert_eq!(s.aspect_ratio_ppm, 1000000);
    assert_eq!(s.column_data_types.len(), 11);
    assert_eq!(s.column_data_types[3].numeric_count, 11);
    assert_eq!(s.column_data_types[3].total_count, 11);
    assert_eq!(s.column_data_types[3].numeric_type_ratio_ppm, 1000000);
    assert_eq!(s.column_data_types[3].column_index, 3);
    assert_eq!(s.data_type_mix_ppm, 0);
    assert_eq!(s.row_type_consistency_ppm, 1000000);
    assert_eq!(s.first_row_first_col_content, Some("0".to_string()));
    assert_eq!(s.last_row_first_col_content, Some("110".to_string()));
}

#[test]
fn test_row_sampling_caps_at_one_hundred_rows() {
    // 150 occupied rows in one column: only the first hundred are sampled
    let rows: Vec<Vec<Cell>> = (0..150).map(|r| vec![number(r)]).collect();
    let s = analyze_sheet(sheet("tall", SheetVisibility::Visible, (149, 0), rows));
    assert_eq!(s.end_row, 149); // the original extent is kept
    assert_eq!(s.total_cells, 100);
    assert_eq!(s.data_cells, 100);
    assert_eq!(s.aspect_ratio_ppm, 100000000);
    assert_eq!(s.last_row_first_col_content, Some("99".to_string()));
}

#[test]
fn test_corner_samples_skip_empty_cells() {
    let rows = vec![
        vec![blank(), label("header")],
        vec![label("total"), number(3)],
    ];
    let s = analyze_sheet(sheet("corners", SheetVisibility::Visible, (1, 1), rows));
    assert_eq!(s.first_row_first_col_content, None);
    assert_eq!(s.last_row_first_col_content, Some("total".to_string()));
    assert_eq!(s.total_cells, 4);
    assert_eq!(s.data_cells, 3);
}

#[test]
fn test_missing_extent_yields_degenerate_box() {
    assert_eq!(get_effective_range(None, None), (0, 0, 0, 0));
    assert_eq!(get_effective_range(Some((2, 3)), None), (0, 0, 0, 0));
    assert_eq!(get_effective_range(Some((1, 2)), Some((8, 9))), (1, 2, 8, 9));
}

#[test]
fn test_inverted_box_is_treated_as_empty() {
    let input = SheetInput {
        name: "inverted".to_string(),
        visible: SheetVisibility::Visible,
        start: Some((5, 5)),
        end: Some((2, 2)),
        rows: vec![vec![number(1)]],
    };
    let s = analyze_sheet(input);
    assert_eq!(s.first_row, 0);
    assert_eq!(s.end_row, 0);
    assert_eq!(s.total_cells, 0);
    assert_eq!(s.data_cells, 0);
    assert_eq!(s.density_ppm, 0);
    assert_eq!(s.column_data_types.len(), 0);
    assert_eq!(s.first_row_first_col_content, None);
}

#[test]
fn test_hidden_sheets_are_skipped() {
    let workbook = vec![
        sheet("one", SheetVisibility::Visible, (0, 0), vec![vec![number(1)]]),
        sheet("two", SheetVisibility::Hidden, (0, 0), vec![vec![number(2)]]),
        sheet("three", SheetVisibility::VeryHidden, (0, 0), vec![vec![number(3)]]),
        sheet("four", SheetVisibility::Visible, (0, 0), vec![vec![number(4)]]),
    ];
    let stats = calculate_sheet_density(workbook);
    assert_eq!(stats.len(), 2);
    assert_eq!(stats[0].sheet_name, "one");
    assert_eq!(stats[1].sheet_name, "four");
}

#[test]
fn test_statistics_ranges() {
    let rows = vec![
        vec![label("name"), number(1), blank()],
        vec![label("age"), blank(), label("x")],
        vec![blank(), number(3), number(4)],
    ];
    let s = analyze_sheet(sheet("ranges", SheetVisibility::Visible, (2, 2), rows));
    assert!(s.data_cells <= s.total_cells);
    assert!(s.density_ppm <= 1000000);
    assert!(s.data_type_mix_ppm <= 1000000);
    assert!(s.row_type_consistency_ppm <= 1000000);
    for c in &s.column_data_types {
        assert!(c.numeric_type_ratio_ppm <= 1000000);
        assert_eq!(c.total_count, c.numeric_count + c.text_count);
    }
}
