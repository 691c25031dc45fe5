//! Numeric-shaped text detection.
//!
//! A trimmed string counts as numeric when it matches one of three
//! patterns: a percentage (`50%`, `-25.5%`), a thousands-grouped number
//! (`1,234.56`), or a plain integer or decimal (`123`, `-67.89`).
//! The patterns are specified here as predicates over sequences of
//! characters, and `is_numeric_string` is proved to decide them.

use vstd::prelude::*;
use vstd::string::StrSliceExecFns;

use crate::text::is_digit;
use crate::text::is_digit_char;
use crate::text::trim_bounds;
use crate::text::trim_spec;

verus! {

/// Every character in `x` is a decimal digit.
pub open spec fn all_digits(x: Seq<char>) -> bool {
    forall|i: int| 0 <= i < x.len() ==> is_digit_char(#[trigger] x[i])
}

/// Every character in `x` is a decimal digit or a decimal point.
pub open spec fn digits_and_dots(x: Seq<char>) -> bool {
    forall|i: int| 0 <= i < x.len() ==> is_digit_char(#[trigger] x[i]) || x[i] == '.'
}

/// `x` holds at most one decimal point.
pub open spec fn at_most_one_dot(x: Seq<char>) -> bool {
    forall|i: int, j: int|
        #![trigger x[i], x[j]]
        0 <= i < x.len() && 0 <= j < x.len() && x[i] == '.' && x[j] == '.' ==> i == j
}

/// Digits with an optional decimal point and at least one digit at the
/// end: the shape after a percent sign's body (`.5`, `25.5`, `50`).
pub open spec fn frac_core(x: Seq<char>) -> bool {
    &&& x.len() >= 1
    &&& digits_and_dots(x)
    &&& at_most_one_dot(x)
    &&& is_digit_char(x[x.len() - 1])
}

/// Digits with an optional decimal point and at least one digit at the
/// start: a plain unsigned number (`123`, `67.89`, `5.`).
pub open spec fn plain_core(x: Seq<char>) -> bool {
    &&& x.len() >= 1
    &&& digits_and_dots(x)
    &&& at_most_one_dot(x)
    &&& is_digit_char(x[0])
}

/// `t` without one optional leading minus sign.
pub open spec fn strip_minus(t: Seq<char>) -> Seq<char> {
    if t.len() >= 1 && t[0] == '-' {
        t.subrange(1, t.len() as int)
    } else {
        t
    }
}

/// One to three digits followed by comma-separated groups of exactly
/// three digits (`1`, `123`, `1,234`, `12,345,678`).
pub open spec fn grouped_int(y: Seq<char>) -> bool
    decreases y.len(),
{
    if 1 <= y.len() && y.len() <= 3 {
        all_digits(y)
    } else if y.len() >= 5 {
        &&& y[y.len() - 4] == ','
        &&& all_digits(y.subrange(y.len() - 3, y.len() as int))
        &&& grouped_int(y.take(y.len() - 4))
    } else {
        false
    }
}

/// Position-by-position description of `grouped_int`: counting from the
/// right, every fourth character is a comma and the rest are digits, and
/// the leading group has one to three digits.
pub open spec fn grouped_shape(y: Seq<char>) -> bool {
    &&& y.len() >= 1
    &&& y.len() % 4 != 0
    &&& forall|p: int|
        0 <= p < y.len() ==> (if (y.len() - 1 - p) % 4 == 3 {
            #[trigger] y[p] == ','
        } else {
            is_digit_char(y[p])
        })
}

pub proof fn lemma_grouped_shape(y: Seq<char>)
    ensures
        grouped_int(y) == grouped_shape(y),
    decreases y.len(),
{
    if y.len() >= 5 {
        let z = y.take(y.len() - 4);
        lemma_grouped_shape(z);
        assert(z.len() % 4 == y.len() % 4) by {
            assert(y.len() - 4 == z.len());
        }
        if grouped_int(y) {
            assert forall|p: int| 0 <= p < y.len() implies (if (y.len() - 1 - p) % 4 == 3 {
                y[p] == ','
            } else {
                is_digit_char(y[p])
            }) by {
                if p < y.len() - 4 {
                    assert(z[p] == y[p]);
                    assert((z.len() - 1 - p) % 4 == (y.len() - 1 - p) % 4);
                } else if p == y.len() - 4 {
                } else {
                    assert(y.subrange(y.len() - 3, y.len() as int)[p - (y.len() - 3)] == y[p]);
                }
            }
        }
        if grouped_shape(y) {
            assert(y[y.len() - 4] == ',') by {
                assert((y.len() - 1 - (y.len() - 4)) % 4 == 3);
            }
            assert(all_digits(y.subrange(y.len() - 3, y.len() as int))) by {
                assert forall|i: int| 0 <= i < 3 implies is_digit_char(
                    #[trigger] y.subrange(y.len() - 3, y.len() as int)[i],
                ) by {
                    assert((y.len() - 1 - (y.len() - 3 + i)) % 4 == 2 - i);
                }
            }
            assert(grouped_shape(z)) by {
                assert forall|p: int| 0 <= p < z.len() implies (if (z.len() - 1 - p) % 4 == 3 {
                    z[p] == ','
                } else {
                    is_digit_char(z[p])
                }) by {
                    assert(z[p] == y[p]);
                    assert((z.len() - 1 - p) % 4 == (y.len() - 1 - p) % 4);
                }
            }
        }
    } else if y.len() == 4 {
        assert(y.len() % 4 == 0);
    }
}

/// A split of `x` into a grouped integer part `x.take(e)` and an
/// optional fractional part: either `e` is the whole string, or a
/// decimal point at `e` is followed by at least one digit.
pub open spec fn thousands_split(x: Seq<char>, e: int) -> bool {
    &&& 0 < e <= x.len()
    &&& grouped_int(x.take(e))
    &&& (e == x.len() || (e + 1 < x.len() && x[e] == '.' && all_digits(
        x.subrange(e + 1, x.len() as int),
    )))
}

/// A trimmed percentage: optional minus, then digits with an optional
/// decimal point ending in a digit, then a percent sign.
pub open spec fn matches_percentage(t: Seq<char>) -> bool {
    &&& t.len() >= 1
    &&& t[t.len() - 1] == '%'
    &&& frac_core(strip_minus(t.subrange(0, t.len() - 1)))
}

/// A trimmed thousands-grouped number: optional minus, grouped digits,
/// optional decimal part.
pub open spec fn matches_thousands(t: Seq<char>) -> bool {
    exists|e: int| thousands_split(strip_minus(t), e)
}

/// A trimmed plain number: optional minus, then digits with an optional
/// decimal point starting with a digit.
pub open spec fn matches_plain_number(t: Seq<char>) -> bool {
    plain_core(strip_minus(t))
}

/// A trimmed string of numeric shape: any of the three patterns.
pub open spec fn matches_numeric(t: Seq<char>) -> bool {
    matches_percentage(t) || matches_thousands(t) || matches_plain_number(t)
}

/// What `is_numeric_string` decides: the trimmed content of `s` has
/// numeric shape.
pub open spec fn is_numeric_str_spec(s: Seq<char>) -> bool {
    matches_numeric(trim_spec(s))
}

fn scan_all_digits(s: &str, lo: usize, hi: usize) -> (b: bool)
    requires
        lo <= hi <= s@.len(),
    ensures
        b == all_digits(s@.subrange(lo as int, hi as int)),
{
    let ghost w = s@.subrange(lo as int, hi as int);
    let mut i: usize = lo;
    while i < hi
        invariant
            lo <= i <= hi <= s@.len(),
            w == s@.subrange(lo as int, hi as int),
            forall|k: int| 0 <= k < i - lo ==> is_digit_char(#[trigger] w[k]),
        decreases hi - i,
    {
        if !is_digit(s.get_char(i)) {
            proof {
                assert(w[i - lo] == s@[i as int]);
            }
            return false;
        }
        proof {
            assert(w[i - lo] == s@[i as int]);
        }
        i = i + 1;
    }
    true
}

/// Scans for the digits-and-dots shape with at most one dot.
fn scan_digits_dots(s: &str, lo: usize, hi: usize) -> (b: bool)
    requires
        lo <= hi <= s@.len(),
    ensures
        b == (digits_and_dots(s@.subrange(lo as int, hi as int)) && at_most_one_dot(
            s@.subrange(lo as int, hi as int),
        )),
{
    let ghost w = s@.subrange(lo as int, hi as int);
    let mut i: usize = lo;
    let mut has_dot = false;
    let ghost mut dot_at: int = 0;
    while i < hi
        invariant
            lo <= i <= hi <= s@.len(),
            w == s@.subrange(lo as int, hi as int),
            forall|k: int| 0 <= k < i - lo ==> is_digit_char(#[trigger] w[k]) || w[k] == '.',
            has_dot ==> 0 <= dot_at < i - lo && w[dot_at] == '.',
            forall|k: int| 0 <= k < i - lo && #[trigger] w[k] == '.' ==> has_dot && k == dot_at,
        decreases hi - i,
    {
        let c = s.get_char(i);
        proof {
            assert(w[i - lo] == s@[i as int]);
        }
        if c == '.' {
            if has_dot {
                return false;
            }
            has_dot = true;
            proof {
                dot_at = i - lo;
            }
        } else if !is_digit(c) {
            return false;
        }
        i = i + 1;
    }
    true
}

fn scan_frac(s: &str, lo: usize, hi: usize) -> (b: bool)
    requires
        lo <= hi <= s@.len(),
    ensures
        b == frac_core(s@.subrange(lo as int, hi as int)),
{
    if hi == lo {
        return false;
    }
    if !scan_digits_dots(s, lo, hi) {
        return false;
    }
    let r = is_digit(s.get_char(hi - 1));
    proof {
        assert(s@.subrange(lo as int, hi as int)[hi - lo - 1] == s@[hi - 1]);
    }
    r
}

fn scan_plain(s: &str, lo: usize, hi: usize) -> (b: bool)
    requires
        lo <= hi <= s@.len(),
    ensures
        b == plain_core(s@.subrange(lo as int, hi as int)),
{
    if hi == lo {
        return false;
    }
    if !scan_digits_dots(s, lo, hi) {
        return false;
    }
    let r = is_digit(s.get_char(lo));
    proof {
        assert(s@.subrange(lo as int, hi as int)[0] == s@[lo as int]);
    }
    r
}

fn scan_grouped(s: &str, lo: usize, hi: usize) -> (b: bool)
    requires
        lo <= hi <= s@.len(),
    ensures
        b == grouped_int(s@.subrange(lo as int, hi as int)),
{
    let ghost w = s@.subrange(lo as int, hi as int);
    proof {
        lemma_grouped_shape(w);
    }
    let len = hi - lo;
    if len == 0 || len % 4 == 0 {
        return false;
    }
    let mut i: usize = lo;
    while i < hi
        invariant
            lo <= i <= hi <= s@.len(),
            w == s@.subrange(lo as int, hi as int),
            w.len() == hi - lo,
            grouped_int(w) == grouped_shape(w),
            (hi - lo) % 4 != 0,
            forall|p: int|
                0 <= p < i - lo ==> (if (w.len() - 1 - p) % 4 == 3 {
                    #[trigger] w[p] == ','
                } else {
                    is_digit_char(w[p])
                }),
        decreases hi - i,
    {
        let c = s.get_char(i);
        proof {
            assert(w[i - lo] == s@[i as int]);
        }
        let q = (hi - 1 - i) % 4;
        proof {
            assert((w.len() - 1 - (i - lo)) % 4 == (hi - 1 - i) % 4);
        }
        if q == 3 {
            if c != ',' {
                return false;
            }
        } else {
            if !is_digit(c) {
                return false;
            }
        }
        i = i + 1;
    }
    true
}

/// The position of the first decimal point in `[lo, hi)`, if any.
fn find_dot(s: &str, lo: usize, hi: usize) -> (r: Option<usize>)
    requires
        lo <= hi <= s@.len(),
    ensures
        match r {
            Some(d) => lo <= d < hi && s@[d as int] == '.' && forall|i: int|
                lo <= i < d ==> s@[i] != '.',
            None => forall|i: int| lo <= i < hi ==> s@[i] != '.',
        },
{
    let mut i: usize = lo;
    while i < hi
        invariant
            lo <= i <= hi <= s@.len(),
            forall|k: int| lo <= k < i ==> s@[k] != '.',
        decreases hi - i,
    {
        if s.get_char(i) == '.' {
            return Some(i);
        }
        i = i + 1;
    }
    None
}

/// Decides whether the trimmed content of `s` is numeric-shaped text:
/// a percentage, a thousands-grouped number, or a plain number, each
/// with an optional leading minus sign.
pub fn is_numeric_string(s: &str) -> (b: bool)
    ensures
        b == is_numeric_str_spec(s@),
{
    let (a, bb) = trim_bounds(s);
    let ghost t = trim_spec(s@);
    if a == bb {
        return false;
    }
    let has_minus = s.get_char(a) == '-';
    let m = if has_minus {
        a + 1
    } else {
        a
    };
    let ghost x = strip_minus(t);
    proof {
        assert(t[0] == s@[a as int]);
        if has_minus {
            assert(t.subrange(1, t.len() as int) =~= s@.subrange(m as int, bb as int));
        }
        assert(x =~= s@.subrange(m as int, bb as int));
    }
    // Percentage: a trailing percent sign with a fractional core before it.
    let pct = if s.get_char(bb - 1) == '%' && bb - 1 > a {
        let r = scan_frac(s, m, bb - 1);
        proof {
            assert(t[t.len() - 1] == s@[bb - 1]);
            let inner = t.subrange(0, t.len() - 1);
            assert(inner[0] == t[0]);
            assert(strip_minus(inner) =~= s@.subrange(m as int, (bb - 1) as int));
        }
        r
    } else {
        proof {
            assert(t[t.len() - 1] == s@[bb - 1]);
            if t[t.len() - 1] == '%' && bb - 1 == a {
                let inner = t.subrange(0, t.len() - 1);
                assert(inner.len() == 0);
                assert(strip_minus(inner).len() == 0);
            }
        }
        false
    };
    if pct {
        return true;
    }
    // Plain number: digits with an optional dot, starting with a digit.
    if scan_plain(s, m, bb) {
        return true;
    }
    // Thousands-grouped number: the only split that can work puts the
    // grouped part before the first decimal point.
    let thou = match find_dot(s, m, bb) {
        Some(d) => {
            let digits_after = d + 1 < bb && scan_all_digits(s, d + 1, bb);
            let r = digits_after && scan_grouped(s, m, d);
            proof {
                let e = d - m;
                if r {
                    assert(x.take(e) =~= s@.subrange(m as int, d as int));
                    assert(x.subrange(e + 1, x.len() as int) =~= s@.subrange(
                        (d + 1) as int,
                        bb as int,
                    ));
                    assert(thousands_split(x, e));
                } else {
                    assert forall|ee: int| !thousands_split(x, ee) by {
                        if 0 < ee <= x.len() {
                            if ee > e {
                                if grouped_int(x.take(ee)) {
                                    lemma_grouped_shape(x.take(ee));
                                    assert(x.take(ee)[e] == s@[d as int]);
                                    assert(x.take(ee)[e] == ',' || is_digit_char(x.take(ee)[e]));
                                    assert(false);
                                }
                            } else if ee < e {
                                if ee < x.len() && x[ee] == '.' {
                                    assert(s@[(m + ee) as int] == '.');
                                    assert(false);
                                }
                            } else {
                                assert(x.take(e) =~= s@.subrange(m as int, d as int));
                                if e + 1 < x.len() && all_digits(
                                    x.subrange(e + 1, x.len() as int),
                                ) {
                                    assert(x.subrange(e + 1, x.len() as int) =~= s@.subrange(
                                        (d + 1) as int,
                                        bb as int,
                                    ));
                                }
                            }
                        }
                    }
                }
            }
            r
        },
        None => {
            let r = scan_grouped(s, m, bb);
            proof {
                assert(x.take(x.len() as int) =~= s@.subrange(m as int, bb as int));
                if r {
                    assert(thousands_split(x, x.len() as int));
                } else {
                    assert forall|ee: int| !thousands_split(x, ee) by {
                        if 0 < ee <= x.len() {
                            if ee < x.len() {
                                assert(x[ee] != '.');
                            }
                        }
                    }
                }
            }
            r
        },
    };
    thou
}

} // verus!
