use layout_view::profile::ColumnDataTypeInfo;
use layout_view::profile::calculate_data_type_mix;

fn column(index: u32, numeric: u32, text: u32) -> ColumnDataTypeInfo {
    let total = numeric + text;
    let ratio = if total > 0 {
        ((2u64 * 1000000 * numeric as u64 + total as u64) / (2 * total as u64)) as u32
    } else {
        0
    };
    ColumnDataTypeInfo {
        column_index: index,
        numeric_count: numeric,
        text_count: text,
        total_count: total,
        numeric_type_ratio_ppm: ratio,
    }
}

#[test]
fn test_calculate_data_type_mix() {
    // two columns, each half numeric and half text: the mix is high
    let column_data_types = vec![column(0, 3, 3), column(1, 2, 2)];
    let mix = calculate_data_type_mix(&column_data_types);
    assert!(mix > 600000, "the mix should be high, it is {}", mix);

    // two columns of nothing but numbers: the mix is low
    let column_data_types = vec![column(0, 5, 0), column(1, 5, 0)];
    let mix = calculate_data_type_mix(&column_data_types);
    assert!(mix < 100000, "the mix should be low, it is {}", mix);
}

#[test]
fn test_even_split_mixes_to_exactly_one() {
    // a half-and-half column has entropy exactly one whole
    let cols = vec![column(0, 4, 4), column(1, 50, 50)];
    assert_eq!(calculate_data_type_mix(&cols), 1000000);
}

#[test]
fn test_pure_columns_mix_to_exactly_zero() {
    let cols = vec![column(0, 9, 0), column(1, 0, 7)];
    assert_eq!(calculate_data_type_mix(&cols), 0);
}

#[test]
fn test_mix_skips_unoccupied_columns() {
    // empty columns neither raise nor lower the average
    let cols = vec![column(0, 1, 1), column(1, 0, 0), column(2, 0, 0)];
    assert_eq!(calculate_data_type_mix(&cols), 1000000);
    // no qualifying column at all: the mix is zero
    let cols = vec![column(0, 0, 0)];
    assert_eq!(calculate_data_type_mix(&cols), 0);
    let cols: Vec<ColumnDataTypeInfo> = vec![];
    assert_eq!(calculate_data_type_mix(&cols), 0);
}

#[test]
fn test_uneven_split_mixes_between_zero_and_one() {
    // three of four cells numeric: entropy strictly between the extremes
    let cols = vec![column(0, 3, 1)];
    let mix = calculate_data_type_mix(&cols);
    assert!(mix > 700000 && mix < 900000, "mix is {}", mix);
}

#[test]
fn test_mix_is_symmetric_in_numeric_and_text() {
    let a = calculate_data_type_mix(&vec![column(0, 1, 3)]);
    let b = calculate_data_type_mix(&vec![column(0, 3, 1)]);
    assert_eq!(a, b);
}
