//! Fixed-point numbers and the saturating arithmetic the simulation is built on.
use vstd::prelude::*;

verus! {

/// A fixed-point number: the integer `n` stands for `n / ONE`.
pub type Scalar = i64;

/// The fixed-point representation of 1.
pub const ONE: Scalar = 1_000_000;

/// Point or vector of the plane.
#[derive(Debug, Clone, Copy, PartialEq, Eq, Structural)]
pub struct Vec2 {
    pub x: Scalar,
    pub y: Scalar,
}

/// The nearest value to `x` that a `Scalar` can hold.
pub open spec fn clamp(x: int) -> int {
    if x < i64::MIN {
        i64::MIN as int
    } else if x > i64::MAX {
        i64::MAX as int
    } else {
        x
    }
}

/// Fixed-point product, rounded down.
pub open spec fn fmul(a: int, b: int) -> int {
    clamp(a * b / (ONE as int))
}

/// `x * x + y * y`, the squared length of `(x, y)`.
pub open spec fn norm2(x: int, y: int) -> int {
    x * x + y * y
}

/// The integer square root: the one `r >= 0` with `r * r <= n < (r + 1) * (r + 1)`.
pub open spec fn is_sqrt(n: int, r: int) -> bool {
    0 <= r && r * r <= n && n < (r + 1) * (r + 1)
}

/// The integer square root of `n`, for `n >= 0`.
pub open spec fn int_sqrt(n: int) -> int {
    choose|r: int| is_sqrt(n, r)
}

/// A number has at most one integer square root.
pub proof fn lemma_sqrt_unique(n: int, a: int, b: int)
    requires
        is_sqrt(n, a),
        is_sqrt(n, b),
    ensures
        a == b,
        int_sqrt(n) == a,
{
    assert(a == b) by (nonlinear_arith)
        requires
            0 <= a,
            0 <= b,
            a * a <= n,
            n < (a + 1) * (a + 1),
            b * b <= n,
            n < (b + 1) * (b + 1),
    ;
    let c = int_sqrt(n);
    assert(is_sqrt(n, c));
    assert(a == c) by (nonlinear_arith)
        requires
            0 <= a,
            0 <= c,
            a * a <= n,
            n < (a + 1) * (a + 1),
            c * c <= n,
            n < (c + 1) * (c + 1),
    ;
}

/// Distance between two points: the integer square root of the squared
/// length of their difference, whose coordinates are saturated.
pub open spec fn separation(a: Vec2, b: Vec2) -> int {
    int_sqrt(norm2(clamp(a.x - b.x), clamp(a.y - b.y)))
}

/// A distance is not negative.
pub proof fn lemma_separation_not_negative(a: Vec2, b: Vec2)
    ensures
        separation(a, b) >= 0,
{
    let dx = clamp(a.x - b.x);
    let dy = clamp(a.y - b.y);
    let n = norm2(dx, dy);
    assert(n >= 0) by (nonlinear_arith)
        requires
            n == dx * dx + dy * dy,
    ;
    lemma_sqrt_exists(n);
}

/// Every number that is not negative has an integer square root.
pub proof fn lemma_sqrt_exists(n: int)
    requires
        n >= 0,
    ensures
        is_sqrt(n, int_sqrt(n)),
    decreases n,
{
    if n == 0 {
        assert(is_sqrt(0, 0));
    } else {
        lemma_sqrt_exists(n - 1);
        let r = int_sqrt(n - 1);
        if n < (r + 1) * (r + 1) {
            assert(is_sqrt(n, r));
        } else {
            assert(is_sqrt(n, r + 1)) by (nonlinear_arith)
                requires
                    0 <= r,
                    r * r <= n - 1,
                    n - 1 < (r + 1) * (r + 1),
                    n >= (r + 1) * (r + 1),
            ;
        }
    }
}

/// Narrows a wide integer to a `Scalar`, saturating at the ends of the range.
pub fn saturate(x: i128) -> (r: Scalar)
    ensures
        r == clamp(x as int),
{
    if x < i64::MIN as i128 {
        i64::MIN
    } else if x > i64::MAX as i128 {
        i64::MAX
    } else {
        x as i64
    }
}

/// Saturating sum.
pub fn sat_add(a: Scalar, b: Scalar) -> (r: Scalar)
    ensures
        r == clamp(a + b),
{
    saturate(a as i128 + b as i128)
}

/// Saturating difference.
pub fn sat_sub(a: Scalar, b: Scalar) -> (r: Scalar)
    ensures
        r == clamp(a - b),
{
    saturate(a as i128 - b as i128)
}

/// Quotient rounded towards minus infinity.
pub fn floor_div(n: i128, d: i128) -> (r: i128)
    requires
        d > 0,
    ensures
        r == n as int / d as int,
        n >= 0 ==> 0 <= r <= n,
        n < 0 ==> n <= r < 0,
{
    if n >= 0 {
        proof {
            vstd::arithmetic::div_mod::lemma_div_pos_is_pos(n as int, d as int);
            vstd::arithmetic::div_mod::lemma_div_is_ordered_by_denominator(n as int, 1, d as int);
        }
        n / d
    } else {
        let m: i128 = -(n + 1);
        let q: i128 = m / d;
        proof {
            let rem = m as int % d as int;
            assert(m as int == d * (m as int / d as int) + rem && 0 <= rem < d) by {
                vstd::arithmetic::div_mod::lemma_fundamental_div_mod(m as int, d as int);
                vstd::arithmetic::div_mod::lemma_mod_bound(m as int, d as int);
            }
            assert(0 <= q <= m) by {
                vstd::arithmetic::div_mod::lemma_div_pos_is_pos(m as int, d as int);
                vstd::arithmetic::div_mod::lemma_div_is_ordered_by_denominator(m as int, 1, d as int);
            }
            let k = d - 1 - rem;
            assert(n as int == (-q - 1) * d + k) by (nonlinear_arith)
                requires
                    m as int == d * q + rem,
                    n as int == -(m as int) - 1,
                    k == d - 1 - rem,
            ;
            vstd::arithmetic::div_mod::lemma_fundamental_div_mod_converse(
                n as int,
                d as int,
                -q - 1,
                k,
            );
        }
        -q - 1
    }
}

/// `n / d` rounded towards minus infinity, for a divisor of either sign.
/// A division by zero saturates: it gives the greatest `Scalar` for a
/// positive `n`, the least for a negative one, and 0 for 0.
pub open spec fn quotient(n: int, d: int) -> int {
    if d > 0 {
        n / d
    } else if d < 0 {
        (-n) / (-d)
    } else if n > 0 {
        i64::MAX as int
    } else if n < 0 {
        i64::MIN as int
    } else {
        0
    }
}

/// Saturating quotient, rounded towards minus infinity.
pub fn sat_div(n: i128, d: i128) -> (r: Scalar)
    requires
        n > i128::MIN,
        d > i128::MIN,
    ensures
        r == clamp(quotient(n as int, d as int)),
{
    if d > 0 {
        saturate(floor_div(n, d))
    } else if d < 0 {
        saturate(floor_div(-n, -d))
    } else if n > 0 {
        i64::MAX
    } else if n < 0 {
        i64::MIN
    } else {
        0
    }
}

/// The product of two scalars, exact.
pub fn wide_mul(a: Scalar, b: Scalar) -> (r: i128)
    ensures
        r == a * b,
        -0x4000_0000_0000_0000_0000_0000_0000_0000 <= r
            <= 0x4000_0000_0000_0000_0000_0000_0000_0000,
{
    assert(-0x4000_0000_0000_0000_0000_0000_0000_0000 <= a * b
        <= 0x4000_0000_0000_0000_0000_0000_0000_0000) by (nonlinear_arith)
        requires
            -0x8000_0000_0000_0000 <= a <= 0x7fff_ffff_ffff_ffff,
            -0x8000_0000_0000_0000 <= b <= 0x7fff_ffff_ffff_ffff,
    ;
    (a as i128) * (b as i128)
}

/// `a * b / d`, rounded down and saturated.
pub fn mul_div(a: Scalar, b: Scalar, d: Scalar) -> (r: Scalar)
    requires
        d > 0,
    ensures
        r == clamp(a * b / (d as int)),
{
    saturate(floor_div(wide_mul(a, b), d as i128))
}

/// Fixed-point product `a * b / ONE`, rounded down and saturated.
pub fn fixed_mul(a: Scalar, b: Scalar) -> (r: Scalar)
    ensures
        r == fmul(a as int, b as int),
{
    mul_div(a, b, ONE)
}

/// Squared length of `(x, y)`, exact.
pub fn magnitude2(x: Scalar, y: Scalar) -> (r: u128)
    ensures
        r == norm2(x as int, y as int),
{
    assert(0 <= x * x <= 0x4000_0000_0000_0000_0000_0000_0000_0000) by (nonlinear_arith)
        requires
            -0x8000_0000_0000_0000 <= x <= 0x7fff_ffff_ffff_ffff,
    ;
    assert(0 <= y * y <= 0x4000_0000_0000_0000_0000_0000_0000_0000) by (nonlinear_arith)
        requires
            -0x8000_0000_0000_0000 <= y <= 0x7fff_ffff_ffff_ffff,
    ;
    let xx: i128 = (x as i128) * (x as i128);
    let yy: i128 = (y as i128) * (y as i128);
    (xx as u128) + (yy as u128)
}

/// Integer square root by bisection.
pub fn isqrt(n: u128) -> (r: u64)
    ensures
        is_sqrt(n as int, r as int),
        r == int_sqrt(n as int),
        r == 0 <==> n == 0,
{
    let mut lo: u128 = 0;
    let mut hi: u128 = 0x1_0000_0000_0000_0000;
    assert(n < hi * hi) by (nonlinear_arith)
        requires
            n <= 0xffff_ffff_ffff_ffff_ffff_ffff_ffff_ffff,
            hi == 0x1_0000_0000_0000_0000,
    ;
    while hi - lo > 1
        invariant
            lo < hi <= 0x1_0000_0000_0000_0000,
            lo * lo <= n < hi * hi,
        decreases hi - lo,
    {
        let mid: u128 = lo + (hi - lo) / 2;
        assert(mid * mid <= 0xffff_ffff_ffff_ffff_ffff_ffff_ffff_ffff) by (nonlinear_arith)
            requires
                0 <= mid <= 0xffff_ffff_ffff_ffff,
        ;
        if mid * mid <= n {
            lo = mid;
        } else {
            hi = mid;
        }
    }
    proof {
        lemma_sqrt_unique(n as int, lo as int, lo as int);
        assert(lo == 0 <==> n == 0) by (nonlinear_arith)
            requires
                0 <= lo,
                lo * lo <= n,
                n < (lo + 1) * (lo + 1),
        ;
    }
    lo as u64
}

/// Distance between two points, rounded down.
pub fn distance(a: Vec2, b: Vec2) -> (r: u64)
    ensures
        r == separation(a, b),
        r == 0 <==> clamp(a.x - b.x) == 0 && clamp(a.y - b.y) == 0,
{
    let dx = sat_sub(a.x, b.x);
    let dy = sat_sub(a.y, b.y);
    assert(norm2(dx as int, dy as int) == 0 <==> dx == 0 && dy == 0) by (nonlinear_arith);
    isqrt(magnitude2(dx, dy))
}

} // verus!
