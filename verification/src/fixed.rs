//! Exact integer arithmetic for the statistics.
//!
//! Every score the engine produces is an integer in parts per million
//! (one million parts are one whole). This module provides the pieces
//! those scores are built from: rounded division, an integer square
//! root, and a fixed-point binary logarithm from which the per-column
//! entropy score is computed.

use vstd::arithmetic::div_mod::lemma_div_is_ordered;
use vstd::arithmetic::div_mod::lemma_div_multiples_vanish;
use vstd::arithmetic::div_mod::lemma_fundamental_div_mod_converse_div;
use vstd::arithmetic::div_mod::lemma_multiply_divide_lt;
use vstd::arithmetic::power2::lemma_pow2_adds;
use vstd::arithmetic::power2::lemma_pow2_strictly_increases;
use vstd::arithmetic::power2::lemma2_to64;
use vstd::arithmetic::power2::pow2;
use vstd::prelude::*;

verus! {

/// `a / b`, rounded half up.
pub open spec fn round_div_spec(a: int, b: int) -> int {
    (2 * a + b) / (2 * b)
}

/// Rounded division is bounded by any bound on the exact quotient.
pub proof fn lemma_round_div_le(a: int, b: int, c: int)
    requires
        1 <= b,
        0 <= a <= b * c,
    ensures
        round_div_spec(a, b) <= c,
{
    assert(2 * b * c + b == c * (2 * b) + b) by (nonlinear_arith);
    assert(2 * a + b <= 2 * b * c + b) by (nonlinear_arith)
        requires
            a <= b * c,
    ;
    lemma_div_is_ordered(2 * a + b, 2 * b * c + b, 2 * b);
    lemma_fundamental_div_mod_converse_div(2 * b * c + b, 2 * b, c, b);
}

pub proof fn lemma_round_div_nonneg(a: int, b: int)
    requires
        1 <= b,
        0 <= a,
    ensures
        0 <= round_div_spec(a, b),
{
    assert(0 <= (2 * a + b) / (2 * b)) by (nonlinear_arith)
        requires
            1 <= b && 0 <= a,
    ;
}

/// `a / b`, rounded half up.
pub fn round_div(a: u64, b: u64) -> (r: u64)
    requires
        1 <= b,
        2 * a + b <= u64::MAX,
        2 * b <= u64::MAX,
    ensures
        r == round_div_spec(a as int, b as int),
{
    (2 * a + b) / (2 * b)
}

/// The integer square root: the largest `r` with `r * r <= n`.
pub open spec fn isqrt_spec(n: nat) -> nat
    decreases n,
{
    if n == 0 {
        0
    } else {
        let r = isqrt_spec((n - 1) as nat);
        if (r + 1) * (r + 1) <= n {
            r + 1
        } else {
            r
        }
    }
}

pub proof fn lemma_isqrt_bounds(n: nat)
    ensures
        isqrt_spec(n) * isqrt_spec(n) <= n,
        n < (isqrt_spec(n) + 1) * (isqrt_spec(n) + 1),
    decreases n,
{
    if n > 0 {
        let r = isqrt_spec((n - 1) as nat);
        lemma_isqrt_bounds((n - 1) as nat);
        if (r + 1) * (r + 1) <= n {
            assert(isqrt_spec(n) == r + 1);
            assert(n < (r + 2) * (r + 2)) by (nonlinear_arith)
                requires
                    n - 1 < (r + 1) * (r + 1),
            ;
        } else {
            assert(isqrt_spec(n) == r);
        }
    } else {
        assert(isqrt_spec(0nat) == 0);
        assert(n < (isqrt_spec(n) + 1) * (isqrt_spec(n) + 1)) by (nonlinear_arith)
            requires
                n == 0 && isqrt_spec(n) == 0,
        ;
    }
}

pub proof fn lemma_isqrt_unique(n: nat, r: nat)
    requires
        r * r <= n,
        n < (r + 1) * (r + 1),
    ensures
        r == isqrt_spec(n),
{
    let s = isqrt_spec(n);
    lemma_isqrt_bounds(n);
    if r < s {
        assert((r + 1) * (r + 1) <= s * s) by (nonlinear_arith)
            requires
                r + 1 <= s,
        ;
    }
    if s < r {
        assert((s + 1) * (s + 1) <= r * r) by (nonlinear_arith)
            requires
                s + 1 <= r,
        ;
    }
}

/// Computes the integer square root by binary search.
pub fn isqrt(n: u64) -> (r: u64)
    ensures
        r == isqrt_spec(n as nat),
        r * r <= n,
{
    let mut lo: u64 = 0;
    let mut hi: u64 = 0x1_0000_0000;
    proof {
        assert((0x1_0000_0000 as int) * (0x1_0000_0000 as int) > u64::MAX as int) by (nonlinear_arith);
    }
    while lo + 1 < hi
        invariant
            lo < hi <= 0x1_0000_0000,
            (lo as int) * (lo as int) <= n as int,
            (n as int) < (hi as int) * (hi as int),
        decreases hi - lo,
    {
        let mid = lo + (hi - lo) / 2;
        proof {
            assert((mid as int) * (mid as int) <= (0x1_0000_0000 as int) * 0x1_0000_0000)
                by (nonlinear_arith)
                requires
                    0 <= (mid as int) <= 0x1_0000_0000,
            ;
        }
        let sq = (mid as u128) * (mid as u128);
        if sq <= n as u128 {
            lo = mid;
        } else {
            hi = mid;
        }
    }
    proof {
        lemma_isqrt_unique(n as nat, lo as nat);
    }
    lo
}

/// The floor of the base-two logarithm of `t / a`, for `1 <= a <= t`.
pub open spec fn log2f(t: nat, a: nat) -> nat
    decreases t - a when 1 <= a <= t
{
    if t < 2 * a {
        0
    } else {
        1 + log2f(t, 2 * a)
    }
}

/// Twenty binary fraction bits of `log2(x / 2^32)`, for `x` in
/// `[2^32, 2^33)`: repeatedly square and renormalize in Q32 fixed point,
/// collecting one bit per step, most significant first.
pub open spec fn frac_bits(x: nat, i: nat) -> nat
    decreases i,
{
    if i == 0 {
        0
    } else {
        let y = (x * x) / 0x1_0000_0000;
        if y >= 0x2_0000_0000 {
            pow2((i - 1) as nat) + frac_bits(y / 2, (i - 1) as nat)
        } else {
            frac_bits(y, (i - 1) as nat)
        }
    }
}

/// `log2(t / a)` in Q20 fixed point: integer part `k`, then twenty
/// fraction bits computed from the Q32 remainder `t * 2^32 / (a * 2^k)`.
pub open spec fn log2_q20(t: nat, a: nat) -> nat {
    let k = log2f(t, a);
    let x0 = (t * 0x1_0000_0000) / (a * pow2(k));
    k * 0x100000 + frac_bits(x0, 20)
}

/// The binary entropy of the split `n` out of `t`, in parts per million,
/// clamped to one whole: `-(p log2 p + q log2 q)` for `p = n/t`,
/// `q = 1 - p`, which is `(n log2(t/n) + (t-n) log2(t/(t-n))) / t`.
/// A split with `n` zero or `n` equal to `t` has entropy zero.
pub open spec fn entropy_ppm_spec(n: nat, t: nat) -> nat {
    if t == 0 || n == 0 || n == t {
        0
    } else {
        let m = (t - n) as nat;
        let h = (n * log2_q20(t, n) + m * log2_q20(t, m)) / t;
        let p = (h * 1000000 + 0x80000) / 0x100000;
        if p > 1000000 {
            1000000
        } else {
            p
        }
    }
}

/// Computes `log2f(t, a)` together with `a * 2^k`.
fn log2_floor_exec(t: u64, a: u64) -> (r: (u64, u64))
    requires
        1 <= a <= t,
    ensures
        r.0 == log2f(t as nat, a as nat),
        r.1 == a * pow2(r.0 as nat),
        a <= r.1 <= t < 2 * r.1,
{
    let mut k: u64 = 0;
    let mut p: u64 = a;
    proof {
        lemma2_to64();
    }
    while p <= t / 2
        invariant
            1 <= a <= p <= t,
            k <= 63,
            p == a * pow2(k as nat),
            pow2(k as nat) <= p,
            log2f(t as nat, a as nat) == k + log2f(t as nat, p as nat),
        decreases t - p,
    {
        proof {
            assert(t >= 2 * p);
            assert(log2f(t as nat, p as nat) == 1 + log2f(t as nat, 2 * p as nat));
            assert(a * pow2((k + 1) as nat) == 2 * (a * pow2(k as nat))) by {
                lemma_pow2_adds(k as nat, 1);
                lemma2_to64();
                assert(a * (pow2(k as nat) * 2) == 2 * (a * pow2(k as nat))) by (nonlinear_arith);
            }
            assert(pow2((k + 1) as nat) <= 2 * p) by {
                lemma_pow2_adds(k as nat, 1);
                lemma2_to64();
            }
            if k + 1 > 63 {
                assert(pow2(64) <= 2 * p);
                assert(pow2(64) > u64::MAX) by {
                    vstd::arithmetic::power2::lemma2_to64_rest();
                }
                assert(false);
            }
        }
        p = 2 * p;
        k = k + 1;
    }
    proof {
        assert(t < 2 * p);
        assert(log2f(t as nat, p as nat) == 0);
    }
    (k, p)
}

/// Computes `log2_q20(t, a)`.
fn log2_q20_exec(t: u64, a: u64) -> (r: u64)
    requires
        1 <= a <= t,
        t <= 0x1_0000_0000,
    ensures
        r == log2_q20(t as nat, a as nat),
        r <= 33 * 0x100000,
{
    let (k, p) = log2_floor_exec(t, a);
    proof {
        lemma2_to64();
        // k <= 32 because 2^k <= a * 2^k <= t <= 2^32.
        assert(pow2(k as nat) <= p) by {
            assert(1 * pow2(k as nat) <= a * pow2(k as nat)) by (nonlinear_arith)
                requires
                    1 <= a && 0 <= pow2(k as nat),
            ;
        }
        if k > 32 {
            lemma_pow2_strictly_increases(32, k as nat);
            assert(false);
        }
    }
    let x0_wide = ((t as u128) * 0x1_0000_0000) / (p as u128);
    proof {
        assert((t as int) * 0x1_0000_0000 < (p as int) * 0x2_0000_0000) by (nonlinear_arith)
            requires
                (t as int) < 2 * (p as int),
        ;
        lemma_multiply_divide_lt((t as int) * 0x1_0000_0000, p as int, 0x2_0000_0000);
        assert((p as int) * 0x2_0000_0000 == (p as int) * 0x2_0000_0000);
        lemma_div_is_ordered(
            (p as int) * 0x1_0000_0000,
            (t as int) * 0x1_0000_0000,
            p as int,
        );
        assert(((p as int) * 0x1_0000_0000) / (p as int) == 0x1_0000_0000) by {
            lemma_div_multiples_vanish(0x1_0000_0000, p as int);
            assert((p as int) * 0x1_0000_0000 == (p as int) * 0x1_0000_0000);
        }
        assert((p as int) * 0x1_0000_0000 <= (t as int) * 0x1_0000_0000) by (nonlinear_arith)
            requires
                (p as int) <= (t as int),
        ;
    }
    let mut x: u64 = x0_wide as u64;
    let ghost x0 = x as nat;
    let mut fr: u64 = 0;
    let mut i: u64 = 0;
    while i < 20
        invariant
            i <= 20,
            0x1_0000_0000 <= x < 0x2_0000_0000,
            fr < pow2(i as nat),
            frac_bits(x0, 20) == fr * pow2((20 - i) as nat) + frac_bits(x as nat, (20 - i) as nat),
        decreases 20 - i,
    {
        proof {
            lemma2_to64();
            assert((x as int) * (x as int) < (0x2_0000_0000 as int) * 0x2_0000_0000)
                by (nonlinear_arith)
                requires
                    0 <= (x as int) < 0x2_0000_0000,
            ;
            lemma_multiply_divide_lt(
                (x as int) * (x as int),
                0x1_0000_0000,
                0x4_0000_0000,
            );
        }
        let y = (((x as u128) * (x as u128)) / 0x1_0000_0000) as u64;
        proof {
            assert((x as int) * (x as int) >= (0x1_0000_0000 as int) * 0x1_0000_0000)
                by (nonlinear_arith)
                requires
                    (x as int) >= 0x1_0000_0000,
            ;
            lemma_div_is_ordered(
                (0x1_0000_0000 as int) * 0x1_0000_0000,
                (x as int) * (x as int),
                0x1_0000_0000,
            );
            lemma_div_multiples_vanish(0x1_0000_0000, 0x1_0000_0000);
            assert(frac_bits(x as nat, (20 - i) as nat) == (if y >= 0x2_0000_0000 {
                pow2((20 - i - 1) as nat) + frac_bits((y / 2) as nat, (20 - i - 1) as nat)
            } else {
                frac_bits(y as nat, (20 - i - 1) as nat)
            }));
            assert(pow2((20 - i) as nat) == 2 * pow2((20 - i - 1) as nat)) by {
                lemma_pow2_adds((20 - i - 1) as nat, 1);
            }
            assert(pow2((i + 1) as nat) == 2 * pow2(i as nat)) by {
                lemma_pow2_adds(i as nat, 1);
            }
        }
        if y >= 0x2_0000_0000 {
            proof {
                let a1 = (2 * fr + 1) as int;
                let b1 = pow2((20 - i - 1) as nat) as int;
                let f1 = fr as int;
                assert(a1 * b1 == f1 * (2 * b1) + b1) by (nonlinear_arith)
                    requires
                        a1 == 2 * f1 + 1,
                ;
            }
            fr = 2 * fr + 1;
            x = y / 2;
        } else {
            proof {
                let b1 = pow2((20 - i - 1) as nat) as int;
                let f1 = fr as int;
                assert((2 * f1) * b1 == f1 * (2 * b1)) by (nonlinear_arith);
            }
            fr = 2 * fr;
            x = y;
        }
        i = i + 1;
    }
    proof {
        assert(frac_bits(x as nat, 0) == 0);
        assert(fr * pow2(0) == fr) by {
            lemma2_to64();
        }
        lemma2_to64();
    }
    k * 0x100000 + fr
}

/// Computes the entropy score in parts per million.
pub fn entropy_ppm(n: u64, t: u64) -> (r: u64)
    requires
        n <= t,
        t <= 0x1_0000_0000,
    ensures
        r == entropy_ppm_spec(n as nat, t as nat),
        r <= 1000000,
{
    if t == 0 || n == 0 || n == t {
        return 0;
    }
    let m = t - n;
    let l1 = log2_q20_exec(t, n);
    let l2 = log2_q20_exec(t, m);
    proof {
        let cap = 33 * 0x100000 as int;
        assert((n as int) * (l1 as int) + (m as int) * (l2 as int) <= (t as int) * cap)
            by (nonlinear_arith)
            requires
                0 <= (n as int),
                0 <= (m as int),
                (l1 as int) <= cap,
                (l2 as int) <= cap,
                (n as int) + (m as int) == (t as int),
        ;
        assert((n as int) * (l1 as int) <= 0x1_0000_0000 * (33 * 0x100000 as int))
            by (nonlinear_arith)
            requires
                0 <= (n as int) <= 0x1_0000_0000,
                0 <= (l1 as int) <= 33 * 0x100000 as int,
        ;
        assert((m as int) * (l2 as int) <= 0x1_0000_0000 * (33 * 0x100000 as int))
            by (nonlinear_arith)
            requires
                0 <= (m as int) <= 0x1_0000_0000,
                0 <= (l2 as int) <= 33 * 0x100000 as int,
        ;
        lemma_div_is_ordered(
            (n as int) * (l1 as int) + (m as int) * (l2 as int),
            (t as int) * (33 * 0x100000 as int),
            t as int,
        );
        lemma_div_multiples_vanish(33 * 0x100000 as int, t as int);
    }
    let h = (n * l1 + m * l2) / t;
    let p = (h * 1000000 + 0x80000) / 0x100000;
    if p > 1000000 {
        1000000
    } else {
        p
    }
}

proof fn lemma_frac_bits_one(i: nat)
    ensures
        frac_bits(0x1_0000_0000, i) == 0,
    decreases i,
{
    if i > 0 {
        assert((0x1_0000_0000 * 0x1_0000_0000) / 0x1_0000_0000 == 0x1_0000_0000) by {
            lemma_div_multiples_vanish(0x1_0000_0000, 0x1_0000_0000);
        }
        lemma_frac_bits_one((i - 1) as nat);
    }
}

/// The exact midpoint: `log2_q20(2a, a)` is exactly one in Q20.
proof fn lemma_log2_q20_double(a: nat)
    requires
        1 <= a,
    ensures
        log2_q20(2 * a, a) == 0x100000,
{
    let t = 2 * a;
    assert(log2f(t, 2 * a) == 0);
    assert(log2f(t, a) == 1 + log2f(t, 2 * a));
    let k = log2f(t, a);
    assert(k == 1);
    assert(pow2(1) == 2) by {
        lemma2_to64();
    }
    assert(a * pow2(1) == t) by (nonlinear_arith)
        requires
            pow2(1) == 2 && t == 2 * a,
    ;
    assert((t * 0x1_0000_0000) / (a * pow2(1)) == 0x1_0000_0000) by {
        lemma_div_multiples_vanish(0x1_0000_0000, t as int);
        assert(t * 0x1_0000_0000 == (t as int) * 0x1_0000_0000);
    }
    lemma_frac_bits_one(20);
}

/// The entropy score does not care which side of the split is which:
/// swapping numeric and text cells leaves it unchanged.
pub proof fn lemma_entropy_symmetric(n: nat, t: nat)
    requires
        n <= t,
    ensures
        entropy_ppm_spec(n, t) == entropy_ppm_spec((t - n) as nat, t),
{
}

/// An even split has entropy exactly one whole: the score of a column
/// whose occupied cells are half numeric is one million parts per
/// million.
pub proof fn lemma_entropy_half(n: nat)
    requires
        1 <= n,
    ensures
        entropy_ppm_spec(n, 2 * n) == 1000000,
{
    let t = 2 * n;
    let m = (t - n) as nat;
    assert(m == n);
    lemma_log2_q20_double(n);
    assert(n * log2_q20(t, n) + m * log2_q20(t, m) == t * 0x100000) by (nonlinear_arith)
        requires
            m == n && t == 2 * n && log2_q20(t, n) == 0x100000 && log2_q20(t, m) == 0x100000,
    ;
    assert((t as int) * 0x100000 == 0x100000 * (t as int)) by (nonlinear_arith);
    lemma_div_multiples_vanish(0x100000, t as int);
    let h = (n * log2_q20(t, n) + m * log2_q20(t, m)) / t;
    assert(h == 0x100000);
    assert((0x100000 * 1000000 + 0x80000) / 0x100000 == 1000000) by {
        lemma_fundamental_div_mod_converse_div(
            (0x100000 as int) * 1000000 + 0x80000,
            0x100000,
            1000000,
            0x80000,
        );
    }
}

} // verus!
