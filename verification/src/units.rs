//! Fixed-point arithmetic shared by the whole library.
//!
//! Every scalar quantity (millimetres, millimetres per minute, revolutions
//! per minute, seconds) is an `i64` count of millionths of its base unit, so
//! the position tolerance of one micro-unit is the resolution of the
//! representation itself. Products of two lengths are `i128` counts of
//! square micro-units.
use vstd::prelude::*;

verus! {

/// Micro-units in one base unit (one millimetre, one second, ...).
pub const UNITS_PER_MM: i64 = 1_000_000;

/// Largest magnitude a coordinate or a distance may have (2^38 micro-units,
/// about 275 metres). The bound keeps every intermediate product of the
/// geometric routines inside `i128`.
pub const COORD_LIMIT: i64 = 274_877_906_944;

/// Position tolerance: two positions closer than this are the same position.
pub const POSITION_EPS: i64 = 1;

/// Near-zero threshold for quantities measured in square micro-units
/// (cross products and orientation determinants).
pub const AREA_EPS: i128 = 1000;

/// Whether `v` lies inside the supported coordinate range.
pub open spec fn coord_ok(v: int) -> bool {
    -COORD_LIMIT <= v <= COORD_LIMIT
}

/// Absolute value on mathematical integers.
pub open spec fn abs_int(x: int) -> int {
    if x < 0 {
        -x
    } else {
        x
    }
}

/// `a / b` rounded to the nearest integer, ties away from zero (`b > 0`).
pub open spec fn round_div(a: int, b: int) -> int {
    if a >= 0 {
        (a + b / 2) / b
    } else {
        -((-a + b / 2) / b)
    }
}

/// `a / b` rounded toward negative infinity (`b > 0`).
pub open spec fn floor_div(a: int, b: int) -> int {
    a / b
}

/// The remainder of `a` by `b` that lies in `0..b` (`b > 0`).
pub open spec fn wrap(a: int, b: int) -> int {
    a % b
}

/// `r` is the integer square root of `n`.
pub open spec fn is_sqrt(n: int, r: int) -> bool {
    r >= 0 && r * r <= n < (r + 1) * (r + 1)
}

/// The integer square root of `n`: the largest `r` with `r * r <= n`.
pub open spec fn int_sqrt(n: int) -> int {
    choose|r: int| is_sqrt(n, r)
}

/// The integer square root is unique.
pub proof fn lemma_sqrt_unique(n: int, a: int, b: int)
    requires
        is_sqrt(n, a),
        is_sqrt(n, b),
    ensures
        a == b,
{
    if a < b {
        assert((a + 1) * (a + 1) <= b * b) by (nonlinear_arith)
            requires
                0 <= a + 1 <= b,
        ;
    }
    if b < a {
        assert((b + 1) * (b + 1) <= a * a) by (nonlinear_arith)
            requires
                0 <= b + 1 <= a,
        ;
    }
}

/// The integer square root grows with its argument and is bounded by any
/// `bound` whose square exceeds `n`.
pub proof fn lemma_sqrt_bound(n: int, bound: int)
    requires
        0 <= n,
        0 <= bound,
        n < (bound + 1) * (bound + 1),
        exists|r: int| is_sqrt(n, r),
    ensures
        0 <= int_sqrt(n) <= bound,
{
    let r = int_sqrt(n);
    assert(is_sqrt(n, r));
    if r > bound {
        assert((bound + 1) * (bound + 1) <= r * r) by (nonlinear_arith)
            requires
                0 <= bound + 1 <= r,
        ;
    }
}

/// Computes the integer square root by bisection.
pub fn isqrt(n: u128) -> (r: u64)
    ensures
        is_sqrt(n as int, r as int),
        r as int == int_sqrt(n as int),
{
    let mut lo: u128 = 0;
    let mut hi: u128 = 0x1_0000_0000_0000_0000;
    assert(0x1_0000_0000_0000_0000int * 0x1_0000_0000_0000_0000int > u128::MAX) by (nonlinear_arith);
    while hi - lo > 1
        invariant
            lo < hi <= 0x1_0000_0000_0000_0000,
            lo * lo <= n,
            n < hi * hi,
        decreases hi - lo,
    {
        let mid: u128 = lo + (hi - lo) / 2;
        assert(mid * mid <= 0xffff_ffff_ffff_ffffint * 0xffff_ffff_ffff_ffffint) by (nonlinear_arith)
            requires
                0 <= mid <= 0xffff_ffff_ffff_ffffint,
        ;
        assert(0xffff_ffff_ffff_ffffint * 0xffff_ffff_ffff_ffffint < u128::MAX) by (nonlinear_arith);
        if mid * mid <= n {
            lo = mid;
        } else {
            hi = mid;
        }
    }
    assert(hi == lo + 1);
    proof {
        assert(is_sqrt(n as int, lo as int));
        lemma_sqrt_unique(n as int, lo as int, int_sqrt(n as int));
    }
    lo as u64
}

/// Divides with rounding to nearest, ties away from zero.
pub fn div_round(a: i128, b: i128) -> (r: i128)
    requires
        b > 0,
        abs_int(a as int) + b <= i128::MAX,
    ensures
        r == round_div(a as int, b as int),
{
    if a >= 0 {
        (a + b / 2) / b
    } else {
        let q: i128 = (-a + b / 2) / b;
        -q
    }
}

/// Divides with rounding toward negative infinity.
pub fn div_floor(a: i128, b: i128) -> (r: i128)
    requires
        b > 0,
        a > i128::MIN,
    ensures
        r == floor_div(a as int, b as int),
        r * b <= a < r * b + b,
{
    if a >= 0 {
        let q: i128 = a / b;
        proof {
            vstd::arithmetic::div_mod::lemma_fundamental_div_mod(a as int, b as int);
            vstd::arithmetic::div_mod::lemma_mod_bound(a as int, b as int);
            assert(q * b == b * q) by (nonlinear_arith);
        }
        q
    } else {
        let m: i128 = -a;
        let q: i128 = m / b;
        let rem: i128 = m % b;
        proof {
            vstd::arithmetic::div_mod::lemma_fundamental_div_mod(m as int, b as int);
            vstd::arithmetic::div_mod::lemma_mod_bound(m as int, b as int);
            assert(q * b == b * q) by (nonlinear_arith);
        }
        if rem == 0 {
            proof {
                assert(a == (-q) * b + 0) by (nonlinear_arith)
                    requires
                        a == -(q * b),
                ;
                vstd::arithmetic::div_mod::lemma_fundamental_div_mod_converse(
                    a as int,
                    b as int,
                    -q,
                    0,
                );
            }
            -q
        } else {
            proof {
                assert(a == (-q - 1) * b + (b - rem)) by (nonlinear_arith)
                    requires
                        a == -(q * b) - rem,
                ;
                vstd::arithmetic::div_mod::lemma_fundamental_div_mod_converse(
                    a as int,
                    b as int,
                    -q - 1,
                    b - rem,
                );
            }
            -q - 1
        }
    }
}

/// The remainder in `0..b`, for any sign of `a`.
pub fn rem_wrap(a: i128, b: i128) -> (r: i128)
    requires
        b > 0,
        a > i128::MIN,
    ensures
        r == wrap(a as int, b as int),
        0 <= r < b,
{
    if a >= 0 {
        a % b
    } else {
        let m: i128 = -a;
        let rem: i128 = m % b;
        let q: i128 = m / b;
        proof {
            vstd::arithmetic::div_mod::lemma_fundamental_div_mod(m as int, b as int);
            vstd::arithmetic::div_mod::lemma_mod_bound(m as int, b as int);
            assert(q * b == b * q) by (nonlinear_arith);
        }
        if rem == 0 {
            proof {
                assert(a == (-q) * b + 0) by (nonlinear_arith)
                    requires
                        a == -(q * b),
                ;
                vstd::arithmetic::div_mod::lemma_fundamental_div_mod_converse(
                    a as int,
                    b as int,
                    -q,
                    0,
                );
            }
            0
        } else {
            proof {
                assert(a == (-q - 1) * b + (b - rem)) by (nonlinear_arith)
                    requires
                        a == -(q * b) - rem,
                ;
                vstd::arithmetic::div_mod::lemma_fundamental_div_mod_converse(
                    a as int,
                    b as int,
                    -q - 1,
                    b - rem,
                );
            }
            b - rem
        }
    }
}

/// Absolute value of a 128-bit quantity.
pub fn abs_i128(x: i128) -> (r: i128)
    requires
        x > i128::MIN,
    ensures
        r == abs_int(x as int),
{
    if x < 0 {
        -x
    } else {
        x
    }
}

/// A product of two bounded factors is bounded by the product of the bounds.
pub proof fn lemma_product_bound(a: int, b: int, ab: int, bb: int)
    requires
        abs_int(a) <= ab,
        abs_int(b) <= bb,
    ensures
        abs_int(a * b) <= ab * bb,
        -(ab * bb) <= a * b <= ab * bb,
{
    assert(-(ab * bb) <= a * b <= ab * bb) by (nonlinear_arith)
        requires
            -ab <= a <= ab,
            -bb <= b <= bb,
    ;
}

} // verus!
