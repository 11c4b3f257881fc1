//! Fixed-point scalar arithmetic.
//!
//! A scalar is an `i64` holding `SCALE`-ths of a unit, so `1_000_000`
//! stands for `1.0`. Products and quotients are rounded toward zero
//! (`tdiv`), and square roots round down (`sqrt_floor`); the executable
//! functions are specified exactly against those two spec functions.

use vstd::prelude::*;
use vstd::arithmetic::div_mod::{lemma_div_nonincreasing, lemma_div_pos_is_pos, lemma_div_by_multiple};

verus! {

/// Number of fixed-point steps in one unit: `SCALE` raw is `1.0`.
pub const SCALE: i64 = 1_000_000;

/// Half a unit, in raw steps.
pub const HALF: i64 = 500_000;

/// Bound on a world coordinate (raw steps): about a thousand units.
pub const VMAX: i64 = 1_073_741_824;

/// Three times the square of `VMAX`: the largest raw self dot product
/// of an in-bounds vector.
pub const MAG2_MAX: i64 = 3_458_764_513_820_540_928;

/// Bound on a component of a surface normal as the sphere code builds it.
pub const NMAX: i64 = 2_251_799_813_685_248;

/// Integer division rounded toward zero, for a positive divisor.
pub open spec fn tdiv(a: int, b: int) -> int
    recommends
        b >= 1,
{
    if a >= 0 {
        a / b
    } else {
        -((-a) / b)
    }
}

/// The floor of the square root of a non-negative integer.
pub open spec fn sqrt_floor(n: int) -> int
    recommends
        n >= 0,
{
    choose|r: int| 0 <= r && #[trigger] (r * r) <= n && n < (r + 1) * (r + 1)
}

/// Clamp an integer into `[lo, hi]`.
pub open spec fn clamp_spec(x: int, lo: int, hi: int) -> int
    recommends
        lo <= hi,
{
    if x < lo {
        lo
    } else if x > hi {
        hi
    } else {
        x
    }
}

/// `tdiv` is odd in its dividend.
pub proof fn lemma_tdiv_neg(a: int, b: int)
    requires
        b >= 1,
    ensures
        tdiv(-a, b) == -tdiv(a, b),
{
}

/// The magnitude of a truncated quotient never exceeds the dividend's.
pub proof fn lemma_tdiv_abs(a: int, b: int, m: int)
    requires
        b >= 1,
        -m <= a <= m,
        0 <= m,
    ensures
        -m <= tdiv(a, b) <= m,
        a >= 0 ==> 0 <= tdiv(a, b) <= a,
        a <= 0 ==> a <= tdiv(a, b) <= 0,
{
    if a >= 0 {
        lemma_div_nonincreasing(a, b);
        lemma_div_pos_is_pos(a, b);
    } else {
        lemma_div_nonincreasing(-a, b);
        lemma_div_pos_is_pos(-a, b);
    }
}

/// Dividing a quotient's numerator bound by the divisor bounds the quotient.
pub proof fn lemma_tdiv_quotient_bound(a: int, b: int, q: int)
    requires
        b >= 1,
        q >= 0,
        -(q * b) <= a <= q * b,
    ensures
        -q <= tdiv(a, b) <= q,
{
    if a >= 0 {
        lemma_div_pos_is_pos(a, b);
        assert(a / b <= q) by (nonlinear_arith)
            requires
                b >= 1,
                q >= 0,
                0 <= a <= q * b,
        ;
    } else {
        lemma_div_pos_is_pos(-a, b);
        assert((-a) / b <= q) by (nonlinear_arith)
            requires
                b >= 1,
                q >= 0,
                0 <= -a <= q * b,
        ;
    }
}

/// Multiplying a truncated quotient back leaves less than one divisor
/// of error, on the side the truncation dropped.
pub proof fn lemma_tdiv_mul_back(a: int, b: int)
    requires
        b >= 1,
    ensures
        a - (b - 1) <= tdiv(a, b) * b <= a + (b - 1),
{
    if a >= 0 {
        vstd::arithmetic::div_mod::lemma_fundamental_div_mod(a, b);
        vstd::arithmetic::div_mod::lemma_mod_division_less_than_divisor(a, b);
        assert((a / b) * b == b * (a / b)) by (nonlinear_arith);
    } else {
        vstd::arithmetic::div_mod::lemma_fundamental_div_mod(-a, b);
        vstd::arithmetic::div_mod::lemma_mod_division_less_than_divisor(-a, b);
        assert((-((-a) / b)) * b == -(b * ((-a) / b))) by (nonlinear_arith);
    }
}

/// Exact division: multiples of the divisor divide without loss.
pub proof fn lemma_tdiv_exact(x: int, b: int)
    requires
        b >= 1,
    ensures
        tdiv(x * b, b) == x,
{
    if x >= 0 {
        lemma_div_by_multiple(x, b);
    } else {
        lemma_div_by_multiple(-x, b);
        assert(-(x * b) == (-x) * b) by (nonlinear_arith);
    }
}

/// The floor square root is the unique `r` with `r * r <= n < (r + 1) * (r + 1)`.
pub proof fn lemma_sqrt_floor_is(n: int, r: int)
    requires
        0 <= r,
        r * r <= n,
        n < (r + 1) * (r + 1),
    ensures
        sqrt_floor(n) == r,
{
    assert(0 <= r && r * r <= n && n < (r + 1) * (r + 1));
    let s = sqrt_floor(n);
    assert(0 <= s && s * s <= n && n < (s + 1) * (s + 1));
    if s < r {
        assert((s + 1) * (s + 1) <= r * r) by (nonlinear_arith)
            requires
                0 <= s + 1 <= r,
        ;
        assert(false);
    }
    if r < s {
        assert((r + 1) * (r + 1) <= s * s) by (nonlinear_arith)
            requires
                0 <= r + 1 <= s,
        ;
        assert(false);
    }
}

/// A non-negative integer has a floor square root, so `sqrt_floor` is
/// well defined and satisfies its bracketing property.
pub proof fn lemma_sqrt_floor_exists(n: int)
    requires
        n >= 0,
    ensures
        0 <= sqrt_floor(n),
        sqrt_floor(n) * sqrt_floor(n) <= n,
        n < (sqrt_floor(n) + 1) * (sqrt_floor(n) + 1),
    decreases n,
{
    if n == 0 {
        let w: int = 0;
        assert(0 <= w && w * w <= n && n < (w + 1) * (w + 1));
    } else {
        lemma_sqrt_floor_exists(n - 1);
        let r = sqrt_floor(n - 1);
        if n < (r + 1) * (r + 1) {
            let w = r;
            assert(0 <= w && w * w <= n && n < (w + 1) * (w + 1));
        } else {
            let w = r + 1;
            assert(w * w == n);
            assert(n < (w + 1) * (w + 1)) by (nonlinear_arith)
                requires
                    w >= 0,
                    w * w == n,
            ;
            assert(0 <= w && w * w <= n && n < (w + 1) * (w + 1));
        }
    }
}

/// A floor square root stays below any bound whose square dominates the
/// argument.
pub proof fn lemma_sqrt_upper(r: int, n: int, b: int)
    requires
        0 <= r,
        0 <= b,
        r * r <= n,
        n <= b * b,
    ensures
        r <= b,
{
    if r > b {
        assert(b * b < r * r) by (nonlinear_arith)
            requires
                0 <= b < r,
        ;
        assert(false);
    }
}

/// Truncating division of `i128` values, by a positive divisor.
pub fn tdiv_i128(a: i128, b: i128) -> (r: i128)
    requires
        b >= 1,
        a != i128::MIN,
    ensures
        r == tdiv(a as int, b as int),
        -(if a >= 0 { a as int } else { -(a as int) }) <= r
            <= (if a >= 0 { a as int } else { -(a as int) }),
{
    proof {
        if a >= 0 {
            lemma_tdiv_abs(a as int, b as int, a as int);
        } else {
            lemma_tdiv_abs(a as int, b as int, -(a as int));
        }
    }
    if a >= 0 {
        let q: u128 = (a as u128) / (b as u128);
        q as i128
    } else {
        let n: i128 = -a;
        let q: u128 = (n as u128) / (b as u128);
        -(q as i128)
    }
}

/// Floor square root by bisection.
pub fn isqrt(n: u128) -> (r: u64)
    requires
        n < (1u128 << 126),
    ensures
        (r as int) * (r as int) <= n as int,
        n < (r as int + 1) * (r as int + 1),
        r == sqrt_floor(n as int),
{
    let mut lo: u128 = 0;
    let mut hi: u128 = 1u128 << 63;
    proof {
        assert((1u128 << 63) as int * (1u128 << 63) as int == (1u128 << 126) as int) by (bit_vector);
    }
    while lo + 1 < hi
        invariant
            lo < hi,
            hi <= 1u128 << 63,
            (lo as int) * (lo as int) <= n as int,
            (n as int) < (hi as int) * (hi as int),
        decreases hi - lo,
    {
        let mid: u128 = lo + (hi - lo) / 2;
        assert(lo < mid < hi);
        proof {
            let m = mid;
            assert(m <= (1u128 << 63) ==> m * m <= (1u128 << 126)) by (bit_vector);
        }
        if mid * mid <= n {
            lo = mid;
        } else {
            hi = mid;
        }
    }
    proof {
        assert(hi == lo + 1);
        assert((lo as int) * (lo as int) <= n as int);
        assert((n as int) < (lo as int + 1) * (lo as int + 1));
        assert(lo < 1u128 << 63) by (nonlinear_arith)
            requires
                (lo as int) * (lo as int) <= n as int,
                (n as int) < (1u128 << 126) as int,
                (1u128 << 63) as int * (1u128 << 63) as int == (1u128 << 126) as int,
        ;
        assert((1u128 << 63) < u64::MAX as u128 + 1) by (bit_vector);
        lemma_sqrt_floor_is(n as int, lo as int);
    }
    lo as u64
}

/// Fixed-point product: `a * b` rescaled by `SCALE`, rounded toward zero.
pub fn fx_mul(a: i64, b: i64) -> (r: i64)
    requires
        -(i64::MAX as int) <= (a as int) * (b as int) <= i64::MAX as int,
    ensures
        r == tdiv((a as int) * (b as int), SCALE as int),
{
    let p: i128 = (a as i128) * (b as i128);
    proof {
        lemma_tdiv_abs(p as int, SCALE as int, i64::MAX as int);
    }
    tdiv_i128(p, SCALE as i128) as i64
}

/// Fixed-point quotient: `a / b` rescaled by `SCALE`, rounded toward zero.
pub fn fx_div(a: i64, b: i64) -> (r: i64)
    requires
        b >= 1,
        -(i64::MAX as int) <= tdiv((a as int) * (SCALE as int), b as int) <= i64::MAX as int,
    ensures
        r == tdiv((a as int) * (SCALE as int), b as int),
{
    let p: i128 = (a as i128) * (SCALE as i128);
    tdiv_i128(p, b as i128) as i64
}

/// Clamp a scalar into `[lo, hi]`.
pub fn clamp(x: i64, lo: i64, hi: i64) -> (r: i64)
    requires
        lo <= hi,
    ensures
        r == clamp_spec(x as int, lo as int, hi as int),
{
    if x < lo {
        lo
    } else if x > hi {
        hi
    } else {
        x
    }
}

} // verus!
