//! Decimal fixed-point scalars: an `i64` holds millionths of a world unit.
//!
//! All rounding in the crate is truncation toward zero, the rounding of
//! Rust's integer division; `tdiv` is its mathematical counterpart.

use vstd::prelude::*;

verus! {

/// Number of fixed-point units in one world unit.
pub const SCALE: i64 = 1_000_000;

/// Absolute value of a mathematical integer.
pub open spec fn iabs(a: int) -> int {
    if a >= 0 { a } else { -a }
}

/// Quotient of `a` by `d`, rounded toward zero (`d != 0`).
pub open spec fn tdiv(a: int, d: int) -> int {
    let q = iabs(a) / iabs(d);
    if (a >= 0) == (d >= 0) { q } else { -q }
}

/// Floor of the square root of a nonnegative integer.
pub open spec fn isqrt(n: int) -> int
    decreases n,
{
    if n <= 0 {
        0
    } else {
        let r = isqrt(n - 1);
        if (r + 1) * (r + 1) <= n { r + 1 } else { r }
    }
}

/// Product of two fixed-point values, scaled back down.
pub open spec fn fxmul(a: int, b: int) -> int {
    tdiv(a * b, SCALE as int)
}

/// Quotient of two fixed-point values.
pub open spec fn fxdiv(a: int, b: int) -> int {
    tdiv(a * SCALE, b)
}

/// Square root of a nonnegative fixed-point value.
pub open spec fn fxsqrt(a: int) -> int {
    isqrt(a * SCALE)
}

/// The floor square root is characterized by bracketing `n` between
/// consecutive squares.
pub proof fn lemma_isqrt_props(n: int)
    requires
        n >= 0,
    ensures
        isqrt(n) >= 0,
        isqrt(n) * isqrt(n) <= n,
        (isqrt(n) + 1) * (isqrt(n) + 1) > n,
    decreases n,
{
    if n > 0 {
        lemma_isqrt_props(n - 1);
        let r = isqrt(n - 1);
        if (r + 1) * (r + 1) <= n {
            assert((r + 2) * (r + 2) > n) by (nonlinear_arith)
                requires
                    r >= 0,
                    (r + 1) * (r + 1) > n - 1,
            ;
        }
    }
}

/// Any value bracketing `n` between consecutive squares is the floor square root.
pub proof fn lemma_isqrt_unique(n: int, r: int)
    requires
        n >= 0,
        r >= 0,
        r * r <= n,
        (r + 1) * (r + 1) > n,
    ensures
        r == isqrt(n),
{
    lemma_isqrt_props(n);
    let s = isqrt(n);
    if r < s {
        assert((r + 1) * (r + 1) <= s * s) by (nonlinear_arith)
            requires
                0 <= r,
                r + 1 <= s,
        ;
    }
    if s < r {
        assert((s + 1) * (s + 1) <= r * r) by (nonlinear_arith)
            requires
                0 <= s,
                s + 1 <= r,
        ;
    }
}

/// The floor square root never decreases.
pub proof fn lemma_isqrt_mono(m: int, n: int)
    requires
        0 <= m <= n,
    ensures
        isqrt(m) <= isqrt(n),
{
    lemma_isqrt_props(m);
    lemma_isqrt_props(n);
    if isqrt(n) < isqrt(m) {
        assert((isqrt(n) + 1) * (isqrt(n) + 1) <= isqrt(m) * isqrt(m)) by (nonlinear_arith)
            requires
                0 <= isqrt(n),
                isqrt(n) + 1 <= isqrt(m),
        ;
    }
}

/// Truncating division is exact to within one unit of the divisor:
/// `tdiv(a, d) * d` differs from `a` by less than `|d|`, never past zero.
pub proof fn lemma_tdiv_props(a: int, d: int)
    requires
        d > 0,
    ensures
        iabs(tdiv(a, d)) == iabs(a) / d,
        iabs(tdiv(a, d) * d - a) <= d - 1,
        iabs(tdiv(a, d)) * d <= iabs(a),
        a >= 0 ==> tdiv(a, d) >= 0 && tdiv(a, d) * d <= a,
        a <= 0 ==> tdiv(a, d) <= 0 && tdiv(a, d) * d >= a,
{
    let q = iabs(a) / d;
    let m = iabs(a) % d;
    vstd::arithmetic::div_mod::lemma_fundamental_div_mod(iabs(a), d);
    vstd::arithmetic::div_mod::lemma_mod_bound(iabs(a), d);
    vstd::arithmetic::div_mod::lemma_div_pos_is_pos(iabs(a), d);
    assert(iabs(a) == d * q + m);
    assert(d * q == q * d) by (nonlinear_arith);
    assert(q * d <= iabs(a));
    if a >= 0 {
        assert(tdiv(a, d) * d - a == -m);
    } else {
        assert(tdiv(a, d) == -q);
        assert((-q) * d == -(q * d)) by (nonlinear_arith);
        assert(tdiv(a, d) * d - a == m);
    }
}

/// A bound on the dividend gives a bound on the truncated quotient.
pub proof fn lemma_tdiv_bound(a: int, d: int, bound: int)
    requires
        d > 0,
        iabs(a) <= bound,
    ensures
        iabs(tdiv(a, d)) <= bound / d,
        iabs(tdiv(a, d)) <= bound,
{
    lemma_tdiv_props(a, d);
    vstd::arithmetic::div_mod::lemma_div_is_ordered(iabs(a), bound, d);
    vstd::arithmetic::div_mod::lemma_fundamental_div_mod(bound, d);
    vstd::arithmetic::div_mod::lemma_mod_bound(bound, d);
    assert(bound / d <= bound) by (nonlinear_arith)
        requires
            d > 0,
            bound >= 0,
            bound == d * (bound / d) + bound % d,
            0 <= bound % d,
    ;
}

/// Truncated division distributes over addition up to one unit.
pub proof fn lemma_tdiv_subadd(x: int, y: int, d: int)
    requires
        d > 0,
    ensures
        iabs(tdiv(x + y, d) - tdiv(x, d) - tdiv(y, d)) <= 1,
{
    lemma_tdiv_props(x, d);
    lemma_tdiv_props(y, d);
    lemma_tdiv_props(x + y, d);
    let tx = tdiv(x, d);
    let ty = tdiv(y, d);
    let ts = tdiv(x + y, d);
    let delta = ts - tx - ty;
    assert(delta * d == (ts * d - (x + y)) - (tx * d - x) - (ty * d - y)) by (nonlinear_arith)
        requires
            delta == ts - tx - ty,
    ;
    assert(iabs(delta * d) <= 2 * d - 2);
    assert(iabs(delta) <= 1) by (nonlinear_arith)
        requires
            iabs(delta * d) <= 2 * d - 2,
            d > 0,
    ;
}

/// A zero numerator divides to zero.
pub proof fn lemma_tdiv_zero(d: int)
    requires
        d > 0,
    ensures
        tdiv(0, d) == 0,
{
    vstd::arithmetic::div_mod::lemma_fundamental_div_mod(0, d);
    vstd::arithmetic::div_mod::lemma_mod_bound(0, d);
    assert(0int / d == 0) by (nonlinear_arith)
        requires
            0int == d * (0int / d) + 0int % d,
            0 <= 0int % d < d,
            d > 0,
    ;
}

/// Bounds on two factors bound their product in absolute value.
pub proof fn lemma_mul_abs_bound(a: int, b: int, ba: int, bb: int)
    requires
        iabs(a) <= ba,
        iabs(b) <= bb,
    ensures
        iabs(a * b) <= ba * bb,
    {
    assert(iabs(a * b) <= ba * bb) by (nonlinear_arith)
        requires
            iabs(a) <= ba,
            iabs(b) <= bb,
    ;
}

/// Bounds on the operands of a fixed-point product bound the result.
pub proof fn lemma_fxmul_bound(a: int, b: int, ba: int, bb: int)
    requires
        iabs(a) <= ba,
        iabs(b) <= bb,
    ensures
        iabs(fxmul(a, b)) <= (ba * bb) / (SCALE as int),
        iabs(fxmul(a, b)) <= ba * bb,
{
    lemma_mul_abs_bound(a, b, ba, bb);
    lemma_tdiv_bound(a * b, SCALE as int, ba * bb);
}

/// Truncating quotient of `i128` values, computed through unsigned division.
pub fn exec_tdiv(a: i128, d: i128) -> (r: i128)
    requires
        d > 0,
        a > i128::MIN,
    ensures
        r == tdiv(a as int, d as int),
        iabs(r as int) <= iabs(a as int),
{
    proof {
        lemma_tdiv_props(a as int, d as int);
        lemma_tdiv_bound(a as int, d as int, iabs(a as int));
    }
    if a >= 0 {
        let q: u128 = (a as u128) / (d as u128);
        proof {
            vstd::arithmetic::div_mod::lemma_div_is_ordered(0, a as int, d as int);
        }
        q as i128
    } else {
        let n: i128 = -a;
        let q: u128 = (n as u128) / (d as u128);
        proof {
            vstd::arithmetic::div_mod::lemma_div_is_ordered(0, n as int, d as int);
        }
        -(q as i128)
    }
}

/// Floor square root of a `u128`, by bisection on the bracketing invariant.
pub fn exec_isqrt(n: u128) -> (r: u128)
    ensures
        r == isqrt(n as int),
{
    proof {
        lemma_isqrt_props(n as int);
    }
    if n < 2 {
        proof {
            assert(n == 0 || n == 1);
            assert((1int + 1) * (1 + 1) > 1);
            lemma_isqrt_unique(n as int, n as int);
        }
        return n;
    }
    let mut lo: u128 = 1;
    let mut hi: u128 = 0x1_0000_0000_0000_0000;
    proof {
        assert(hi * hi > n) by (nonlinear_arith)
            requires
                hi == 0x1_0000_0000_0000_0000u128,
                n <= u128::MAX,
        ;
    }
    while lo + 1 < hi
        invariant
            1 <= lo < hi <= 0x1_0000_0000_0000_0000,
            lo * lo <= n,
            hi * hi > n,
        decreases hi - lo,
    {
        let mid: u128 = lo + (hi - lo) / 2;
        proof {
            assert(lo < mid < hi);
            assert(mid * mid < 0x1_0000_0000_0000_0000_0000_0000_0000_0000) by (nonlinear_arith)
                requires
                    0 < mid < 0x1_0000_0000_0000_0000u128,
            ;
        }
        if mid * mid <= n {
            lo = mid;
        } else {
            hi = mid;
        }
    }
    proof {
        lemma_isqrt_unique(n as int, lo as int);
    }
    lo
}

/// Fixed-point product of two `i64` values; the caller shows the result fits.
pub fn fx_mul(a: i64, b: i64) -> (r: i64)
    requires
        iabs(fxmul(a as int, b as int)) <= i64::MAX as int,
    ensures
        r == fxmul(a as int, b as int),
{
    proof {
        lemma_mul_abs_bound(a as int, b as int, 0x8000_0000_0000_0000, 0x8000_0000_0000_0000);
    }
    let wide: i128 = (a as i128) * (b as i128);
    let q: i128 = exec_tdiv(wide, SCALE as i128);
    q as i64
}

/// Fixed-point quotient of two `i64` values; the caller shows the result fits.
pub fn fx_div(a: i64, b: i64) -> (r: i64)
    requires
        b != 0,
        iabs(fxdiv(a as int, b as int)) <= i64::MAX as int,
    ensures
        r == fxdiv(a as int, b as int),
{
    let wide: i128 = (a as i128) * (SCALE as i128);
    let q: i128 = if b > 0 {
        exec_tdiv(wide, b as i128)
    } else {
        exec_tdiv(-wide, -(b as i128))
    };
    proof {
        assert(tdiv(wide as int, b as int) == tdiv(-(wide as int), -(b as int)));
    }
    q as i64
}

/// Fixed-point square root of a nonnegative fixed-point `i64`.
pub fn fx_sqrt(a: i64) -> (r: i64)
    requires
        a >= 0,
    ensures
        r == fxsqrt(a as int),
        0 <= r <= 3_100_000_000_000,
{
    proof {
        assert((a as int) * (SCALE as int) <= 0x7fff_ffff_ffff_ffff * 1_000_000) by (nonlinear_arith)
            requires
                0 <= a <= 0x7fff_ffff_ffff_ffff,
        ;
    }
    let wide: u128 = (a as u128) * (SCALE as u128);
    let s: u128 = exec_isqrt(wide);
    proof {
        lemma_isqrt_props(wide as int);
        assert(isqrt(wide as int) <= 3_100_000_000_000) by (nonlinear_arith)
            requires
                isqrt(wide as int) >= 0,
                isqrt(wide as int) * isqrt(wide as int) <= wide,
                wide <= 0x7fff_ffff_ffff_ffffu128 * 1_000_000,
        ;
    }
    s as i64
}

} // verus!
