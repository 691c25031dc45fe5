//! Checks the numeric-string matcher against reference regular
//! expressions for the three patterns, over a systematic corpus.

use layout_view::numeric::is_numeric_string;
use regex::Regex;

fn reference_matcher(s: &str, pct: &Regex, thou: &Regex, num: &Regex) -> bool {
    let trimmed = s.trim();
    if trimmed.is_empty() {
        return false;
    }
    pct.is_match(trimmed) || thou.is_match(trimmed) || num.is_match(trimmed)
}

#[test]
fn test_matches_reference_patterns() {
    let pct = Regex::new("^-?\\d*\\.?\\d+%$").unwrap();
    let thou = Regex::new("^-?\\d{1,3}(,\\d{3})*(\\.\\d+)?$").unwrap();
    let num = Regex::new("^-?\\d+\\.?\\d*$").unwrap();

    let fixed = [
        "123",
        "-45",
        "3.14",
        "1,234.56",
        "-1,234.56",
        "50%",
        "-25.5%",
        "12.34.56",
        "abc123",
        "1,234,567",
        "1,2345",
        "12,345.678",
        "0.0",
        "-0",
        "007",
        "1,000,000.5%",
        "1,000%",
        "--1",
        "1-",
        "%1",
        "1%%",
        " 42 ",
        "\t-7.5%\n",
        "9.",
        ".9",
        ".9%",
        "9.%",
        ",",
        ".",
        "-",
        "%",
    ];
    for s in fixed {
        assert_eq!(
            is_numeric_string(s),
            reference_matcher(s, &pct, &thou, &num),
            "disagreement on {:?}",
            s
        );
    }

    // every string of up to three characters over a pointed alphabet
    let alphabet = ['1', '0', '.', ',', '-', '%', ' ', 'a'];
    let mut corpus: Vec<String> = vec![String::new()];
    for a in alphabet {
        corpus.push(a.to_string());
        for b in alphabet {
            corpus.push(format!("{}{}", a, b));
            for c in alphabet {
                corpus.push(format!("{}{}{}", a, b, c));
            }
        }
    }
    // and longer shapes built around the grouping and fraction forms
    for head in ["1", "12", "123", "1234", ""] {
        for mid in ["", ",234", ",23", ",2345", ",234,567"] {
            for tail in ["", ".5", ".", ".56", "%", ".5%"] {
                for sign in ["", "-"] {
                    corpus.push(format!("{}{}{}{}", sign, head, mid, tail));
                }
            }
        }
    }
    for s in &corpus {
        assert_eq!(
            is_numeric_string(s),
            reference_matcher(s, &pct, &thou, &num),
            "disagreement on {:?}",
            s
        );
    }
}
