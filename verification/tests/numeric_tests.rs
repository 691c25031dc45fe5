use layout_view::numeric::is_numeric_string;

#[test]
fn test_is_numeric_string() {
    assert!(is_numeric_string("123"));
    assert!(is_numeric_string("-45"));
    assert!(is_numeric_string("3.14"));
    assert!(is_numeric_string("-2.5"));
    assert!(is_numeric_string("1,234.56"));
    assert!(is_numeric_string("-1,234.56"));
    assert!(is_numeric_string("50%"));
    assert!(is_numeric_string("-25.5%"));

    assert!(!is_numeric_string("text"));
    assert!(!is_numeric_string(""));
    assert!(!is_numeric_string("   "));
    assert!(!is_numeric_string("12.34.56"));
    assert!(!is_numeric_string("abc123"));
}

#[test]
fn test_is_numeric_string_trims_whitespace() {
    assert!(is_numeric_string("  123  "));
    assert!(is_numeric_string("\t-45\n"));
    assert!(is_numeric_string(" 50% "));
    assert!(!is_numeric_string(" 12 34 "));
}

#[test]
fn test_is_numeric_string_thousands_grouping() {
    assert!(is_numeric_string("1,234"));
    assert!(is_numeric_string("12,345"));
    assert!(is_numeric_string("123,456,789"));
    assert!(is_numeric_string("1,234.5"));
    // groups must hold exactly three digits after the first
    assert!(!is_numeric_string("1,23"));
    assert!(!is_numeric_string("12,3456"));
    assert!(!is_numeric_string("1234,567"));
    assert!(!is_numeric_string(",123"));
    assert!(!is_numeric_string("1,234."));
}

#[test]
fn test_is_numeric_string_edges() {
    // a trailing dot is a plain number; a leading dot is not
    assert!(is_numeric_string("5."));
    assert!(!is_numeric_string(".5"));
    // but a leading dot under a percent sign is a percentage
    assert!(is_numeric_string(".5%"));
    assert!(!is_numeric_string("5.%"));
    assert!(!is_numeric_string("-"));
    assert!(!is_numeric_string("%"));
    assert!(!is_numeric_string("-%"));
    assert!(!is_numeric_string("--5"));
    assert!(is_numeric_string("-0.001"));
}
