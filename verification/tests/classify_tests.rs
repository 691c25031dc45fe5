use layout_view::cells::Cell;
use layout_view::cells::CellKind;
use layout_view::cells::SheetVisibility;
use layout_view::classify::SheetType;
use layout_view::classify::classify_excel_sheets;
use layout_view::classify::classify_sheet;
use layout_view::stats::SheetInput;
use layout_view::stats::analyze_sheet;
use layout_view::stats::calculate_sheet_density;

fn number(n: i64) -> Cell {
    Cell::new(CellKind::Integer, n.to_string())
}

fn label(s: &str) -> Cell {
    Cell::new(CellKind::Text, s.to_string())
}

fn blank() -> Cell {
    Cell::new(CellKind::Empty, String::new())
}

fn sheet(name: &str, visible: SheetVisibility, end: (u32, u32), rows: Vec<Vec<Cell>>) -> SheetInput {
    SheetInput {
        name: name.to_string(),
        visible,
        start: Some((0, 0)),
        end: Some(end),
        rows,
    }
}

/// An 11 x 11 box fully populated with numbers: density one, data.
fn full_numeric_sheet(name: &str, visible: SheetVisibility) -> SheetInput {
    let rows = (0..11)
        .map(|r| (0..11).map(|c| number((r * 11 + c) as i64)).collect())
        .collect();
    sheet(name, visible, (10, 10), rows)
}

/// Twelve rows and two columns, each row holding one filled cell,
/// label column and value column alternating: a tall narrow form.
fn alternating_form_sheet(name: &str) -> SheetInput {
    let rows = (0..12)
        .map(|r| {
            if r % 2 == 0 {
                vec![label("field"), blank()]
            } else {
                vec![blank(), number(r)]
            }
        })
        .collect();
    sheet(name, SheetVisibility::Visible, (11, 1), rows)
}

#[test]
fn test_high_density_sheet_is_data() {
    let s = analyze_sheet(full_numeric_sheet("grid", SheetVisibility::Visible));
    assert_eq!(s.density_ppm, 1000000);
    let c = classify_sheet(&s);
    assert_eq!(c.sheet_type, SheetType::Data);
}

#[test]
fn test_tall_narrow_sheet_is_form() {
    let s = analyze_sheet(alternating_form_sheet("form"));
    assert_eq!(s.total_cells, 24);
    assert_eq!(s.data_cells, 12);
    assert_eq!(s.density_ppm, 500000);
    assert_eq!(s.aspect_ratio_ppm, 6000000);
    let c = classify_sheet(&s);
    assert_eq!(c.sheet_type, SheetType::Form);
}

#[test]
fn test_zero_density_sheet_is_unknown_with_exact_reason() {
    let rows = vec![vec![blank(), blank()], vec![blank(), blank()]];
    let s = analyze_sheet(sheet("empty", SheetVisibility::Visible, (1, 1), rows));
    assert_eq!(s.data_cells, 0);
    let c = classify_sheet(&s);
    assert_eq!(c.sheet_type, SheetType::Unknown);
    assert_eq!(c.classification_reason, "Density is zero");
}

#[test]
fn test_zero_density_sheets_are_filtered_from_output() {
    let workbook = vec![
        full_numeric_sheet("data", SheetVisibility::Visible),
        sheet(
            "empty",
            SheetVisibility::Visible,
            (1, 1),
            vec![vec![blank(), blank()], vec![blank(), blank()]],
        ),
        alternating_form_sheet("form"),
    ];
    let out = classify_excel_sheets(workbook);
    assert_eq!(out.len(), 2);
    assert_eq!(out[0].sheet_name, "data");
    assert_eq!(out[1].sheet_name, "form");
    for c in &out {
        assert!(c.sheet_type != SheetType::Unknown);
        assert!(c.data_cells > 0);
    }
}

#[test]
fn test_hidden_sheets_never_classified() {
    let workbook = vec![
        full_numeric_sheet("visible", SheetVisibility::Visible),
        full_numeric_sheet("hidden", SheetVisibility::Hidden),
        full_numeric_sheet("very_hidden", SheetVisibility::VeryHidden),
    ];
    let out = classify_excel_sheets(workbook);
    assert_eq!(out.len(), 1);
    assert_eq!(out[0].sheet_name, "visible");
}

#[test]
fn test_classification_reason_format() {
    let s = analyze_sheet(full_numeric_sheet("grid", SheetVisibility::Visible));
    let c = classify_sheet(&s);
    assert_eq!(
        c.classification_reason,
        "density: 1.000, data_type_mix: 0.000, row_consistency: 1.000, aspect_ratio: 1.0"
    );
}

#[test]
fn test_classifier_is_idempotent() {
    let build = || {
        vec![
            full_numeric_sheet("a", SheetVisibility::Visible),
            alternating_form_sheet("b"),
            sheet(
                "c",
                SheetVisibility::Visible,
                (1, 1),
                vec![vec![blank(), blank()], vec![blank(), blank()]],
            ),
        ]
    };
    let out1 = classify_excel_sheets(build());
    let out2 = classify_excel_sheets(build());
    assert_eq!(out1.len(), out2.len());
    for (a, b) in out1.iter().zip(out2.iter()) {
        assert_eq!(a.sheet_name, b.sheet_name);
        assert_eq!(a.total_cells, b.total_cells);
        assert_eq!(a.data_cells, b.data_cells);
        assert_eq!(a.density_ppm, b.density_ppm);
        assert_eq!(a.data_type_mix_ppm, b.data_type_mix_ppm);
        assert_eq!(a.row_type_consistency_ppm, b.row_type_consistency_ppm);
        assert_eq!(a.aspect_ratio_ppm, b.aspect_ratio_ppm);
        assert_eq!(a.sheet_type, b.sheet_type);
        assert_eq!(a.classification_reason, b.classification_reason);
    }
}

#[test]
fn test_wide_flat_sheet_is_data() {
    // 3 rows by 12 columns, about half occupied, mixed types:
    // wide and flat with moderate density lands on the wide-table rule
    let rows: Vec<Vec<Cell>> = (0..3)
        .map(|r| {
            (0..12)
                .map(|c| {
                    if (r + c) % 2 == 0 {
                        if c % 4 == 0 {
                            label("h")
                        } else {
                            number(c as i64)
                        }
                    } else {
                        blank()
                    }
                })
                .collect()
        })
        .collect();
    let s = analyze_sheet(sheet("wide", SheetVisibility::Visible, (2, 11), rows));
    assert_eq!(s.total_cells, 36);
    assert_eq!(s.data_cells, 18);
    let c = classify_sheet(&s);
    assert_eq!(c.sheet_type, SheetType::Data);
}

#[test]
fn test_consistent_rows_make_data() {
    // 5 rows x 3 columns, every row one label and two numbers:
    // perfectly consistent rows with density above two fifths
    let rows: Vec<Vec<Cell>> = (0..5)
        .map(|r| vec![label("row"), number(r), number(r + 1), blank(), blank(), blank()])
        .collect();
    let s = analyze_sheet(sheet("consistent", SheetVisibility::Visible, (4, 5), rows));
    assert_eq!(s.total_cells, 30);
    assert_eq!(s.data_cells, 15);
    assert_eq!(s.row_type_consistency_ppm, 1000000);
    let c = classify_sheet(&s);
    assert_eq!(c.sheet_type, SheetType::Data);
}
