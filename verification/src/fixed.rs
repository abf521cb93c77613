//! Fixed-point arithmetic in milli-units: an `i64` value of `1000` stands
//! for `1.0`. Products are computed exactly in 128-bit intermediates and
//! divided back by the scale, truncating towards zero as the hardware does.

use vstd::arithmetic::div_mod::{lemma_div_multiples_vanish, lemma_fundamental_div_mod};
use vstd::prelude::*;

verus! {

/// Milli-units per whole unit.
pub const SCALE: i64 = 1000;

/// A two-dimensional vector of fixed-point coordinates.
#[derive(Clone, Copy, Debug, PartialEq, Eq, Structural)]
pub struct Vec2 {
    pub x: i64,
    pub y: i64,
}

/// Integer division truncating towards zero (the behaviour of hardware
/// division), for a positive divisor.
pub open spec fn tdiv(a: int, b: int) -> int {
    if a >= 0 {
        a / b
    } else {
        -((-a) / b)
    }
}

/// The fixed-point product: the exact product scaled back down, truncating
/// towards zero.
pub open spec fn mul_fp(a: int, b: int) -> int {
    tdiv(a * b, SCALE as int)
}

/// The fixed-point quotient: the dividend scaled up, then divided,
/// truncating towards zero.
pub open spec fn div_fp(a: int, b: int) -> int {
    tdiv(a * SCALE, b)
}

/// The integer square root, rounded down.
pub closed spec fn sqrt_floor(n: nat) -> nat
    decreases n,
{
    if n == 0 {
        0
    } else {
        let p = sqrt_floor((n - 1) as nat);
        if (p + 1) * (p + 1) <= n {
            p + 1
        } else {
            p
        }
    }
}

/// `sqrt_floor(n)` is the unique `r` with `r * r <= n < (r + 1) * (r + 1)`.
pub proof fn lemma_sqrt_floor_bounds(n: nat)
    ensures
        sqrt_floor(n) * sqrt_floor(n) <= n,
        n < (sqrt_floor(n) + 1) * (sqrt_floor(n) + 1),
    decreases n,
{
    if n > 0 {
        lemma_sqrt_floor_bounds((n - 1) as nat);
        let p = sqrt_floor((n - 1) as nat);
        if (p + 1) * (p + 1) <= n {
            assert(sqrt_floor(n) == p + 1);
            assert(n < (sqrt_floor(n) + 1) * (sqrt_floor(n) + 1)) by (nonlinear_arith)
                requires
                    (n - 1) < (p + 1) * (p + 1) && sqrt_floor(n) == p + 1,
            ;
        } else {
            assert(sqrt_floor(n) == p);
            assert(p * p <= n);
            assert(n < (sqrt_floor(n) + 1) * (sqrt_floor(n) + 1)) by (nonlinear_arith)
                requires
                    !((p + 1) * (p + 1) <= n) && sqrt_floor(n) == p,
            ;
        }
    } else {
        assert(sqrt_floor(n) == 0);
        assert(n < (sqrt_floor(n) + 1) * (sqrt_floor(n) + 1)) by (nonlinear_arith)
            requires
                n == 0 && sqrt_floor(n) == 0,
        ;
    }
}

/// Any `r` within the square-root bracket equals `sqrt_floor(n)`.
pub proof fn lemma_sqrt_floor_unique(n: nat, r: nat)
    requires
        r * r <= n,
        n < (r + 1) * (r + 1),
    ensures
        r == sqrt_floor(n),
{
    lemma_sqrt_floor_bounds(n);
    let s = sqrt_floor(n);
    assert(r == s) by (nonlinear_arith)
        requires
            r * r <= n,
            n < (r + 1) * (r + 1),
            s * s <= n,
            n < (s + 1) * (s + 1),
    ;
}

/// The squared length of a vector, exact.
pub open spec fn norm_sq(v: Vec2) -> int {
    v.x * v.x + v.y * v.y
}

/// The fixed-point length of a pair of coordinates: the square root of the
/// exact squared length, rounded down. Squaring cancels the scale, so the
/// result is again in milli-units.
pub open spec fn len2(x: int, y: int) -> int {
    sqrt_floor((x * x + y * y) as nat) as int
}

/// The fixed-point length of a vector.
pub open spec fn norm_fp(v: Vec2) -> int {
    len2(v.x as int, v.y as int)
}

/// Truncating division agrees with Euclidean division on non-negative
/// dividends and negates cleanly, so an exact multiple divides back exactly.
pub proof fn lemma_tdiv_exact(k: int, b: int)
    requires
        b >= 1,
    ensures
        tdiv(k * b, b) == k,
{
    if k >= 0 {
        assert(k * b >= 0) by (nonlinear_arith)
            requires
                k >= 0 && b >= 1,
        ;
        lemma_div_multiples_vanish(k, b);
        assert(k * b == b * k);
        assert(tdiv(k * b, b) == k);
    } else {
        assert(k * b < 0) by (nonlinear_arith)
            requires
                k < 0 && b >= 1,
        ;
        assert(-(k * b) == b * (-k)) by (nonlinear_arith);
        lemma_div_multiples_vanish(-k, b);
        assert(tdiv(k * b, b) == -((-(k * b)) / b));
        assert(tdiv(k * b, b) == k);
    }
}

/// On an exact multiple, truncating division inverts the multiplication.
pub proof fn lemma_tdiv_divisible(a: int, b: int)
    requires
        b >= 1,
        a % b == 0,
    ensures
        b * tdiv(a, b) == a,
{
    lemma_fundamental_div_mod(a, b);
    if a < 0 {
        assert(-(b * (a / b)) == b * (-(a / b))) by (nonlinear_arith);
        lemma_div_multiples_vanish(-(a / b), b);
        assert(tdiv(a, b) == a / b);
    }
}

/// Truncating division never enlarges the magnitude of a bounded dividend:
/// if `|a| <= c * b` then `|tdiv(a, b)| <= c`.
pub proof fn lemma_tdiv_bound(a: int, b: int, c: int)
    requires
        b >= 1,
        c >= 0,
        -(c * b) <= a <= c * b,
    ensures
        -c <= tdiv(a, b) <= c,
{
    if a >= 0 {
        assert(a / b <= c) by (nonlinear_arith)
            requires
                b >= 1 && c >= 0 && a <= c * b && a >= 0,
        ;
        assert(a / b >= 0) by (nonlinear_arith)
            requires
                b >= 1 && a >= 0,
        ;
    } else {
        assert((-a) / b <= c) by (nonlinear_arith)
            requires
                b >= 1 && c >= 0 && -a <= c * b && -a >= 0,
        ;
        assert((-a) / b >= 0) by (nonlinear_arith)
            requires
                b >= 1 && -a >= 0,
        ;
    }
}

/// The magnitude of a fixed-point product is bounded by the product of the
/// factors' bounds, scaled down.
pub proof fn lemma_mul_fp_bound(a: int, b: int, ca: int, cb: int)
    requires
        0 <= ca,
        0 <= cb,
        -ca <= a <= ca,
        -cb <= b <= cb,
    ensures
        -(ca * cb) <= mul_fp(a, b) * (SCALE as int) <= ca * cb,
        -(ca * cb) <= mul_fp(a, b) <= ca * cb,
    decreases 0int,
{
    assert(-(ca * cb) <= a * b <= ca * cb) by (nonlinear_arith)
        requires
            0 <= ca && 0 <= cb && -ca <= a <= ca && -cb <= b <= cb,
    ;
    lemma_tdiv_bound(a * b, SCALE as int, ca * cb);
    assert(mul_fp(a, b) * (SCALE as int) <= ca * cb && -(ca * cb) <= mul_fp(a, b) * (SCALE as int))
        by (nonlinear_arith)
        requires
            -(ca * cb) <= a * b <= ca * cb && mul_fp(a, b) == tdiv(a * b, 1000) && -(ca * cb) / 1000
                <= mul_fp(a, b) <= (ca * cb) / 1000 && ca * cb >= 0,
    ;
}

/// The magnitude of a fixed-point quotient is bounded by the scaled-up
/// magnitude of the dividend, for any positive divisor.
pub proof fn lemma_div_fp_bound(a: int, b: int, ca: int)
    requires
        b >= 1,
        0 <= ca,
        -ca <= a <= ca,
    ensures
        -(ca * 1000) <= div_fp(a, b) <= ca * 1000,
{
    assert(-((ca * 1000) * b) <= a * 1000 <= (ca * 1000) * b) by (nonlinear_arith)
        requires
            b >= 1 && 0 <= ca && -ca <= a <= ca,
    ;
    lemma_tdiv_bound(a * 1000, b, ca * 1000);
    assert(ca * 1000 >= 0) by (nonlinear_arith)
        requires
            ca >= 0,
    ;
}

/// The absolute value of an `i64` above the minimum, as a `u64`.
fn abs_i64(a: i64) -> (r: u64)
    requires
        a > i64::MIN,
    ensures
        a >= 0 ==> r == a,
        a < 0 ==> r == -(a as int),
{
    if a >= 0 {
        a as u64
    } else {
        (-a) as u64
    }
}

/// The fixed-point product of two scalars.
pub fn fmul(a: i64, b: i64) -> (r: i64)
    requires
        a > i64::MIN,
        b > i64::MIN,
        -i64::MAX <= mul_fp(a as int, b as int) <= i64::MAX,
    ensures
        r == mul_fp(a as int, b as int),
{
    let neg: bool = (a < 0) != (b < 0);
    let aa: u128 = abs_i64(a) as u128;
    let bb: u128 = abs_i64(b) as u128;
    proof {
        assert(aa * bb <= (u64::MAX as int) * (u64::MAX as int)) by (nonlinear_arith)
            requires
                aa <= u64::MAX && bb <= u64::MAX,
        ;
        if neg {
            assert((a as int) * (b as int) == -((aa * bb) as int)) by (nonlinear_arith)
                requires
                    ((a < 0) != (b < 0)) && (a >= 0 ==> aa == a) && (a < 0 ==> aa == -(a as int))
                        && (b >= 0 ==> bb == b) && (b < 0 ==> bb == -(b as int)),
            ;
        } else {
            assert((a as int) * (b as int) == (aa * bb) as int) by (nonlinear_arith)
                requires
                    !((a < 0) != (b < 0)) && (a >= 0 ==> aa == a) && (a < 0 ==> aa == -(a as int))
                        && (b >= 0 ==> bb == b) && (b < 0 ==> bb == -(b as int)),
            ;
        }
    }
    let q: u128 = (aa * bb) / 1000;
    if neg {
        assert(mul_fp(a as int, b as int) == -(q as int));
        -(q as i64)
    } else {
        assert(mul_fp(a as int, b as int) == q as int);
        q as i64
    }
}

/// The fixed-point quotient of two scalars, for a positive divisor.
pub fn fdiv(a: i64, b: i64) -> (r: i64)
    requires
        a > i64::MIN,
        b >= 1,
        -i64::MAX <= div_fp(a as int, b as int) <= i64::MAX,
    ensures
        r == div_fp(a as int, b as int),
{
    let neg: bool = a < 0;
    let aa: u128 = abs_i64(a) as u128;
    proof {
        assert(aa * 1000 <= (u64::MAX as int) * 1000) by (nonlinear_arith)
            requires
                aa <= u64::MAX,
        ;
        if neg {
            assert((a as int) * 1000 == -((aa * 1000) as int)) by (nonlinear_arith)
                requires
                    a < 0 && aa == -(a as int),
            ;
        }
    }
    let q: u128 = (aa * 1000) / (b as u128);
    if neg {
        assert(div_fp(a as int, b as int) == -(q as int));
        -(q as i64)
    } else {
        assert(div_fp(a as int, b as int) == q as int);
        q as i64
    }
}

/// `x * num / den`, computed exactly in 128-bit intermediates and truncated
/// towards zero, for a non-negative factor and a positive divisor.
pub fn mul_div(x: i64, num: i64, den: i64) -> (r: i64)
    requires
        x > i64::MIN,
        num >= 0,
        den >= 1,
        -i64::MAX <= tdiv(x * num, den as int) <= i64::MAX,
    ensures
        r == tdiv(x * num, den as int),
{
    let neg: bool = x < 0;
    let ax: u128 = abs_i64(x) as u128;
    proof {
        assert(ax * num <= (u64::MAX as int) * (i64::MAX as int)) by (nonlinear_arith)
            requires
                ax <= u64::MAX && 0 <= num <= i64::MAX,
        ;
        if neg {
            assert((x as int) * (num as int) == -((ax * num) as int)) by (nonlinear_arith)
                requires
                    x < 0 && ax == -(x as int) && num >= 0,
            ;
        }
    }
    let q: u128 = (ax * (num as u128)) / (den as u128);
    if neg {
        assert(tdiv(x * num, den as int) == -(q as int));
        -(q as i64)
    } else {
        assert(tdiv(x * num, den as int) == q as int);
        q as i64
    }
}

/// The integer square root, by bisection.
pub fn isqrt(n: u64) -> (r: u64)
    ensures
        r == sqrt_floor(n as nat),
{
    let mut lo: u64 = 0;
    let mut hi: u64 = 4294967296;
    assert((n as int) < (hi as int) * (hi as int)) by (nonlinear_arith)
        requires
            hi == 4294967296 && n <= u64::MAX,
    ;
    while lo + 1 < hi
        invariant
            0 <= lo < hi <= 4294967296,
            (lo as int) * (lo as int) <= n as int,
            (n as int) < (hi as int) * (hi as int),
        decreases hi - lo,
    {
        let mid: u64 = lo + (hi - lo) / 2;
        proof {
            assert((mid as int) * (mid as int) <= 4294967296int * 4294967296int)
                by (nonlinear_arith)
                requires
                    0 <= mid <= 4294967296,
            ;
        }
        if (mid as u128) * (mid as u128) <= n as u128 {
            lo = mid;
        } else {
            hi = mid;
        }
    }
    proof {
        lemma_sqrt_floor_unique(n as nat, lo as nat);
    }
    lo
}

/// The fixed-point length of a vector.
pub fn vec_len(v: &Vec2) -> (r: i64)
    requires
        v.x > i64::MIN,
        v.y > i64::MIN,
        norm_sq(*v) <= u64::MAX,
    ensures
        r == norm_fp(*v),
        r == len2(v.x as int, v.y as int),
        0 <= r <= 4294967295,
{
    let ax: u128 = abs_i64(v.x) as u128;
    let ay: u128 = abs_i64(v.y) as u128;
    proof {
        assert(ax * ax == (v.x as int) * (v.x as int) && ay * ay == (v.y as int) * (v.y as int))
            by (nonlinear_arith)
            requires
                (v.x >= 0 ==> ax == v.x) && (v.x < 0 ==> ax == -(v.x as int)) && (v.y >= 0 ==> ay
                    == v.y) && (v.y < 0 ==> ay == -(v.y as int)),
        ;
        lemma_sqrt_floor_bounds(norm_sq(*v) as nat);
        let q = sqrt_floor(norm_sq(*v) as nat);
        assert(q <= 4294967295) by (nonlinear_arith)
            requires
                q * q <= norm_sq(*v) && norm_sq(*v) <= u64::MAX,
        ;
    }
    let s: u128 = ax * ax + ay * ay;
    let r: u64 = isqrt(s as u64);
    r as i64
}

} // verus!
