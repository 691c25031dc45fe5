use layout_view::cells::Cell;
use layout_view::cells::CellKind;
use layout_view::cells::is_empty_cell;
use layout_view::cells::is_numeric_cell;

#[test]
fn test_is_empty_cell() {
    assert!(is_empty_cell(&Cell::new(CellKind::Empty, String::new())));
    assert!(is_empty_cell(&Cell::new(CellKind::Text, "".to_string())));
    assert!(is_empty_cell(&Cell::new(CellKind::Text, "   ".to_string())));
    assert!(!is_empty_cell(&Cell::new(CellKind::Text, "data".to_string())));
    assert!(!is_empty_cell(&Cell::new(CellKind::Integer, "42".to_string())));
}

#[test]
fn test_empty_and_numeric_cover_all_variants() {
    // the empty and error variants are always empty and never numeric
    let empty = Cell::new(CellKind::Empty, String::new());
    let error = Cell::new(CellKind::Error, "#DIV/0!".to_string());
    assert!(is_empty_cell(&empty) && !is_numeric_cell(&empty));
    assert!(is_empty_cell(&error) && !is_numeric_cell(&error));

    // integers and floats are never empty and always numeric
    let int_cell = Cell::new(CellKind::Integer, "7".to_string());
    let float_cell = Cell::new(CellKind::Float, "2.5".to_string());
    assert!(!is_empty_cell(&int_cell) && is_numeric_cell(&int_cell));
    assert!(!is_empty_cell(&float_cell) && is_numeric_cell(&float_cell));

    // booleans and date-times are occupied but count as text
    let bool_cell = Cell::new(CellKind::Boolean, "true".to_string());
    let date_cell = Cell::new(CellKind::DateTime, "2024-01-01".to_string());
    assert!(!is_empty_cell(&bool_cell) && !is_numeric_cell(&bool_cell));
    assert!(!is_empty_cell(&date_cell) && !is_numeric_cell(&date_cell));

    // text is judged by its trimmed content
    let numeric_text = Cell::new(CellKind::Text, " 1,234.56 ".to_string());
    assert!(!is_empty_cell(&numeric_text) && is_numeric_cell(&numeric_text));
    let plain_text = Cell::new(CellKind::Text, "note".to_string());
    assert!(!is_empty_cell(&plain_text) && !is_numeric_cell(&plain_text));
    // an empty cell is never numeric
    let blank_text = Cell::new(CellKind::Text, " \t ".to_string());
    assert!(is_empty_cell(&blank_text) && !is_numeric_cell(&blank_text));
}
