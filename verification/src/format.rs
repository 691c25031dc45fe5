//! Verified decimal rendering for the classification reason.
//!
//! Scores are integers (thousandths or tenths of a whole), rendered as
//! fixed-point decimal text: `dec_chars` is the usual base-ten numeral,
//! and `fixed3_chars` / `fixed1_chars` place the decimal point three or
//! one digit from the end.

use vstd::prelude::*;
use vstd::string::StringExecFns;

verus! {

/// The character of one decimal digit.
pub open spec fn digit_char(d: int) -> char {
    if d == 0 {
        '0'
    } else if d == 1 {
        '1'
    } else if d == 2 {
        '2'
    } else if d == 3 {
        '3'
    } else if d == 4 {
        '4'
    } else if d == 5 {
        '5'
    } else if d == 6 {
        '6'
    } else if d == 7 {
        '7'
    } else if d == 8 {
        '8'
    } else {
        '9'
    }
}

/// The base-ten numeral of `n`, most significant digit first.
pub open spec fn dec_chars(n: nat) -> Seq<char>
    decreases n,
{
    if n < 10 {
        seq![digit_char(n as int)]
    } else {
        dec_chars(n / 10).push(digit_char((n % 10) as int))
    }
}

/// `v` thousandths, rendered with three digits after the point.
pub open spec fn fixed3_chars(v: nat) -> Seq<char> {
    let f = v % 1000;
    dec_chars(v / 1000) + seq![
        '.',
        digit_char((f / 100) as int),
        digit_char(((f / 10) % 10) as int),
        digit_char((f % 10) as int),
    ]
}

/// `v` tenths, rendered with one digit after the point.
pub open spec fn fixed1_chars(v: nat) -> Seq<char> {
    dec_chars(v / 10) + seq!['.', digit_char((v % 10) as int)]
}

fn digit_str(d: u64) -> (r: &'static str)
    requires
        d < 10,
    ensures
        r@ =~= seq![digit_char(d as int)],
{
    if d == 0 {
        proof {
            reveal_strlit("0");
        }
        "0"
    } else if d == 1 {
        proof {
            reveal_strlit("1");
        }
        "1"
    } else if d == 2 {
        proof {
            reveal_strlit("2");
        }
        "2"
    } else if d == 3 {
        proof {
            reveal_strlit("3");
        }
        "3"
    } else if d == 4 {
        proof {
            reveal_strlit("4");
        }
        "4"
    } else if d == 5 {
        proof {
            reveal_strlit("5");
        }
        "5"
    } else if d == 6 {
        proof {
            reveal_strlit("6");
        }
        "6"
    } else if d == 7 {
        proof {
            reveal_strlit("7");
        }
        "7"
    } else if d == 8 {
        proof {
            reveal_strlit("8");
        }
        "8"
    } else {
        proof {
            reveal_strlit("9");
        }
        "9"
    }
}

/// Appends the base-ten numeral of `n`.
pub fn push_dec(out: &mut String, n: u64)
    ensures
        final(out)@ == old(out)@ + dec_chars(n as nat),
    decreases n,
{
    if n >= 10 {
        push_dec(out, n / 10);
        let d = digit_str(n % 10);
        out.append(d);
        proof {
            assert(out@ =~= old(out)@ + dec_chars(n as nat));
        }
    } else {
        let d = digit_str(n);
        out.append(d);
        proof {
            assert(out@ =~= old(out)@ + dec_chars(n as nat));
        }
    }
}

/// Appends `v` thousandths with three digits after the point.
pub fn push_fixed3(out: &mut String, v: u64)
    ensures
        final(out)@ == old(out)@ + fixed3_chars(v as nat),
{
    push_dec(out, v / 1000);
    proof {
        reveal_strlit(".");
    }
    out.append(".");
    let f = v % 1000;
    out.append(digit_str(f / 100));
    out.append(digit_str((f / 10) % 10));
    out.append(digit_str(f % 10));
    proof {
        assert(out@ =~= old(out)@ + fixed3_chars(v as nat));
    }
}

/// Appends `v` tenths with one digit after the point.
pub fn push_fixed1(out: &mut String, v: u64)
    ensures
        final(out)@ == old(out)@ + fixed1_chars(v as nat),
{
    push_dec(out, v / 10);
    proof {
        reveal_strlit(".");
    }
    out.append(".");
    out.append(digit_str(v % 10));
    proof {
        assert(out@ =~= old(out)@ + fixed1_chars(v as nat));
    }
}

} // verus!
