use vstd::prelude::*;

verus! {

use vstd::arithmetic::div_mod::{lemma_div_is_ordered, lemma_multiply_divide_le};
use vstd::arithmetic::mul::lemma_mul_inequality;

/// `v` forced into the closed interval `[lo, hi]`.
pub open spec fn clamp(v: int, lo: int, hi: int) -> int {
    if v < lo {
        lo
    } else if v > hi {
        hi
    } else {
        v
    }
}

/// Absolute value.
pub open spec fn iabs(v: int) -> int {
    if v < 0 {
        -v
    } else {
        v
    }
}

/// Floor of the real square root of `n` (and `0` for negative `n`).
pub open spec fn sqrt_floor(n: int) -> int
    decreases n,
{
    if n <= 0 {
        0
    } else {
        let r = sqrt_floor(n - 1);
        if (r + 1) * (r + 1) <= n {
            r + 1
        } else {
            r
        }
    }
}

/// `sqrt_floor(n)` is the unique non-negative `r` with
/// `r * r <= n < (r + 1) * (r + 1)`.
pub proof fn lemma_sqrt_floor_bracket(n: int)
    requires
        n >= 0,
    ensures
        0 <= sqrt_floor(n),
        sqrt_floor(n) * sqrt_floor(n) <= n,
        n < (sqrt_floor(n) + 1) * (sqrt_floor(n) + 1),
    decreases n,
{
    if n > 0 {
        lemma_sqrt_floor_bracket(n - 1);
        let r = sqrt_floor(n - 1);
        if (r + 1) * (r + 1) <= n {
            assert(n < (r + 2) * (r + 2)) by (nonlinear_arith)
                requires
                    n - 1 < (r + 1) * (r + 1),
                    r >= 0,
            ;
        }
    }
}

/// Any `r` that satisfies the square-root bracket for `n` is `sqrt_floor(n)`.
pub proof fn lemma_sqrt_floor_unique(n: int, r: int)
    requires
        n >= 0,
        r >= 0,
        r * r <= n,
        n < (r + 1) * (r + 1),
    ensures
        r == sqrt_floor(n),
{
    lemma_sqrt_floor_bracket(n);
    let s = sqrt_floor(n);
    if r < s {
        assert((r + 1) * (r + 1) <= s * s) by (nonlinear_arith)
            requires
                0 <= r,
                r + 1 <= s,
        ;
    }
    if s < r {
        assert((s + 1) * (s + 1) <= r * r) by (nonlinear_arith)
            requires
                0 <= s,
                s + 1 <= r,
        ;
    }
}

/// The floor square root never exceeds the magnitude of a single
/// coordinate of the squared sum: `|a| <= sqrt_floor(a * a + b * b)`.
pub proof fn lemma_sqrt_floor_component(a: int, b: int)
    ensures
        iabs(a) <= sqrt_floor(a * a + b * b),
{
    let n = a * a + b * b;
    let aa = iabs(a);
    assert(aa * aa <= n && n >= 0) by (nonlinear_arith)
        requires
            n == a * a + b * b,
            aa == a || aa == -a,
    ;
    lemma_sqrt_floor_bracket(n);
    let s = sqrt_floor(n);
    if s < iabs(a) {
        assert((s + 1) * (s + 1) <= iabs(a) * iabs(a)) by (nonlinear_arith)
            requires
                0 <= s,
                s + 1 <= iabs(a),
        ;
    }
}

/// Comparing a floor square root against a non-negative bound is the same
/// as comparing the radicand against the squared bound.
pub proof fn lemma_sqrt_floor_le(n: int, bound: int)
    requires
        n >= 0,
        bound >= 0,
    ensures
        sqrt_floor(n) <= bound <==> n < (bound + 1) * (bound + 1),
{
    lemma_sqrt_floor_bracket(n);
    let s = sqrt_floor(n);
    if s <= bound {
        assert((s + 1) * (s + 1) <= (bound + 1) * (bound + 1)) by (nonlinear_arith)
            requires
                0 <= s,
                s <= bound,
        ;
    }
    if n < (bound + 1) * (bound + 1) && s > bound {
        assert((bound + 1) * (bound + 1) <= s * s) by (nonlinear_arith)
            requires
                0 <= bound,
                bound + 1 <= s,
        ;
    }
}

/// Executable clamp on `i64`, exact against [`clamp`].
pub fn clamp_i64(v: i64, lo: i64, hi: i64) -> (r: i64)
    requires
        lo <= hi,
    ensures
        r == clamp(v as int, lo as int, hi as int),
{
    if v < lo {
        lo
    } else if v > hi {
        hi
    } else {
        v
    }
}

/// Executable floor square root, exact against [`sqrt_floor`].
pub fn isqrt(n: u64) -> (r: u64)
    ensures
        r == sqrt_floor(n as int),
{
    let mut lo: u64 = 0;
    let mut hi: u64 = 4294967296;
    while lo + 1 < hi
        invariant
            lo < hi <= 4294967296,
            lo * lo <= n,
            n < hi * hi,
        decreases hi - lo,
    {
        let mid = lo + (hi - lo) / 2;
        assert((mid as int) * (mid as int) <= 0x10000000000000000) by (nonlinear_arith)
            requires
                0 <= mid as int <= 0x100000000,
        ;
        if (mid as u128) * (mid as u128) <= (n as u128) {
            lo = mid;
        } else {
            hi = mid;
        }
    }
    proof {
        lemma_sqrt_floor_unique(n as int, lo as int);
    }
    lo
}

/// `sign(delta) * sign(num) * ((|delta| * |num|) / den)`: the component
/// `delta` of a direction vector of length `den`, rescaled to length `|num|`
/// and carrying the sign of `num`.
pub open spec fn scaled(delta: int, num: int, den: int) -> int {
    let m = (iabs(delta) * iabs(num)) / den;
    if (delta < 0) != (num < 0) {
        -m
    } else {
        m
    }
}

/// Executable rescaling of a direction component, exact against [`scaled`].
/// The magnitude of the result never exceeds `|num|`.
pub fn scale_dir(delta: i64, num: i64, den: i64) -> (r: i64)
    requires
        1 <= den,
        -den <= delta <= den,
        i64::MIN < num,
    ensures
        r == scaled(delta as int, num as int, den as int),
        iabs(r as int) <= iabs(num as int),
{
    let da: u128 = if delta < 0 {
        (-delta) as u128
    } else {
        delta as u128
    };
    let na: u128 = if num < 0 {
        (-num) as u128
    } else {
        num as u128
    };
    proof {
        let a = iabs(delta as int);
        let b = iabs(num as int);
        assert(a * b <= (den as int) * b) by {
            lemma_mul_inequality(a, den as int, b);
        }
        lemma_multiply_divide_le(a * b, den as int, b);
        assert(da * na == a * b && da * na < 0x80000000000000000000000000000000) by (nonlinear_arith)
            requires
                da == a,
                na == b,
                0 <= da < 0x8000000000000000,
                0 <= na < 0x8000000000000000,
        ;
    }
    let m = da * na / (den as u128);
    let mi = m as i64;
    if (delta < 0) != (num < 0) {
        -mi
    } else {
        mi
    }
}

/// Squared Euclidean distance between two plane points.
pub open spec fn dist2(ax: int, ay: int, bx: int, by: int) -> int {
    (bx - ax) * (bx - ax) + (by - ay) * (by - ay)
}

/// Executable squared distance, exact against [`dist2`].  The result is at
/// most `8 * COORD_LIMIT * COORD_LIMIT`.
pub fn dist2_i64(ax: i64, ay: i64, bx: i64, by: i64) -> (r: i64)
    requires
        -crate::params::COORD_LIMIT <= ax <= crate::params::COORD_LIMIT,
        -crate::params::COORD_LIMIT <= ay <= crate::params::COORD_LIMIT,
        -crate::params::COORD_LIMIT <= bx <= crate::params::COORD_LIMIT,
        -crate::params::COORD_LIMIT <= by <= crate::params::COORD_LIMIT,
    ensures
        r == dist2(ax as int, ay as int, bx as int, by as int),
        0 <= r <= 8_000_000_000_000_000_000,
{
    let dx = bx - ax;
    let dy = by - ay;
    assert(0 <= (dx as int) * (dx as int) <= 4_000_000_000_000_000_000 && 0 <= (dy as int) * (
    dy as int) <= 4_000_000_000_000_000_000) by (nonlinear_arith)
        requires
            -2_000_000_000 <= dx as int <= 2_000_000_000,
            -2_000_000_000 <= dy as int <= 2_000_000_000,
    ;
    dx * dx + dy * dy
}

/// `sign(a) * ((|a| * b) / den)`: a rate `a` scaled by the non-negative
/// ratio `b / den`, rounded toward zero.
pub open spec fn rate_scaled(a: int, b: int, den: int) -> int {
    if a >= 0 {
        (a * b) / den
    } else {
        -(((-a) * b) / den)
    }
}

/// Executable rate scaling, exact against [`rate_scaled`].
pub fn mul_div(a: i64, b: i64, den: i64) -> (r: i64)
    requires
        1 <= den,
        0 <= b,
        i64::MIN < a,
        iabs(a as int) * b / (den as int) <= i64::MAX,
    ensures
        r == rate_scaled(a as int, b as int, den as int),
        iabs(r as int) <= iabs(a as int) * b / (den as int),
{
    let aa: u128 = if a < 0 {
        (-a) as u128
    } else {
        a as u128
    };
    proof {
        assert(aa * (b as int) < 0x80000000000000000000000000000000) by (nonlinear_arith)
            requires
                0 <= aa < 0x8000000000000000,
                0 <= (b as int) < 0x8000000000000000,
        ;
        if a < 0 {
            assert((-(a as int)) * (b as int) == aa * (b as int));
        }
    }
    let m = aa * (b as u128) / (den as u128);
    let mi = m as i64;
    if a < 0 {
        -mi
    } else {
        mi
    }
}

/// Executable square of a small non-negative value.
pub fn square_nn(a: i64) -> (r: i64)
    requires
        0 <= a <= 3_000_000_000,
    ensures
        r == a * a,
{
    assert(0 <= (a as int) * (a as int) <= 9_000_000_000_000_000_000) by (nonlinear_arith)
        requires
            0 <= (a as int) <= 3_000_000_000,
    ;
    a * a
}

/// Halving that rounds toward zero, as a cast from real division would.
pub open spec fn half_toward_zero(v: int) -> int {
    if v >= 0 {
        v / 2
    } else {
        -((-v) / 2)
    }
}

/// Executable halving toward zero, exact against [`half_toward_zero`].
pub fn half_i64(v: i64) -> (r: i64)
    requires
        i64::MIN < v,
    ensures
        r == half_toward_zero(v as int),
{
    if v >= 0 {
        ((v as u64) / 2) as i64
    } else {
        -((((-v) as u64) / 2) as i64)
    }
}

/// Executable arithmetic mean of two non-negative values, exact against
/// `(a + b) / 2`.
pub fn avg_nn(a: i64, b: i64) -> (r: i64)
    requires
        0 <= a,
        0 <= b,
    ensures
        r == (a + b) / 2,
{
    (((a as u64) + (b as u64)) / 2) as i64
}

/// Saturating addition of an acceleration contribution: the sum is clamped
/// into `[-ACCEL_LIMIT, ACCEL_LIMIT]` so that repeated impulses cannot
/// overflow a component.
pub open spec fn accel_add_spec(a: int, d: int) -> int {
    clamp(a + d, -(crate::params::ACCEL_LIMIT as int), crate::params::ACCEL_LIMIT as int)
}

/// Executable saturating accumulation, exact against [`accel_add_spec`].
pub fn accel_add(a: i64, d: i64) -> (r: i64)
    requires
        -0x2000000000000000 <= a <= 0x2000000000000000,
        -0x2000000000000000 <= d <= 0x2000000000000000,
    ensures
        r == accel_add_spec(a as int, d as int),
{
    let s = a + d;
    clamp_i64(s, -crate::params::ACCEL_LIMIT, crate::params::ACCEL_LIMIT)
}


/// Ceiling of the real square root of `n` (and `0` for non-positive `n`).
pub open spec fn sqrt_ceil(n: int) -> int {
    let r = sqrt_floor(n);
    if r * r < n {
        r + 1
    } else {
        r
    }
}

/// The ceiling square root bounds the radicand from above:
/// `n <= sqrt_ceil(n) * sqrt_ceil(n)`, and it is at least the floor root.
pub proof fn lemma_sqrt_ceil_bound(n: int)
    requires
        n >= 0,
    ensures
        sqrt_floor(n) <= sqrt_ceil(n),
        0 <= sqrt_ceil(n),
        n <= sqrt_ceil(n) * sqrt_ceil(n),
{
    lemma_sqrt_floor_bracket(n);
}

/// Executable ceiling square root, exact against [`sqrt_ceil`].
pub fn isqrt_ceil(n: u64) -> (r: u64)
    ensures
        r == sqrt_ceil(n as int),
{
    let f = isqrt(n);
    proof {
        lemma_sqrt_floor_bracket(n as int);
        assert(f as int <= 0xffffffff) by (nonlinear_arith)
            requires
                0 <= f as int,
                (f as int) * (f as int) <= 0xffffffffffffffff,
        ;
    }
    if f * f < n {
        f + 1
    } else {
        f
    }
}

/// Rescaling a vector of squared length at most `s * s` by the ratio
/// `u / s` caps its squared length at `u * u`.
pub proof fn lemma_scaled_cap(vx: int, vy: int, u: int, s: int)
    requires
        1 <= s,
        0 <= u,
        vx * vx + vy * vy <= s * s,
    ensures
        scaled(vx, u, s) * scaled(vx, u, s) + scaled(vy, u, s) * scaled(vy, u, s) <= u * u,
{
    let a = iabs(vx);
    let b = iabs(vy);
    let m1 = (a * u) / s;
    let m2 = (b * u) / s;
    assert(a * a + b * b == vx * vx + vy * vy && a * u >= 0 && b * u >= 0) by (nonlinear_arith)
        requires
            (a == vx || a == -vx) && (b == vy || b == -vy),
            a >= 0,
            b >= 0,
            u >= 0,
    ;
    assert(scaled(vx, u, s) * scaled(vx, u, s) == m1 * m1 && scaled(vy, u, s) * scaled(vy, u, s)
        == m2 * m2) by (nonlinear_arith)
        requires
            (scaled(vx, u, s) == m1 || scaled(vx, u, s) == -m1) && (scaled(vy, u, s) == m2
                || scaled(vy, u, s) == -m2),
    ;
    vstd::arithmetic::div_mod::lemma_div_pos_is_pos(a * u, s);
    vstd::arithmetic::div_mod::lemma_div_pos_is_pos(b * u, s);
    vstd::arithmetic::div_mod::lemma_fundamental_div_mod(a * u, s);
    vstd::arithmetic::div_mod::lemma_fundamental_div_mod(b * u, s);
    vstd::arithmetic::div_mod::lemma_mod_bound(a * u, s);
    vstd::arithmetic::div_mod::lemma_mod_bound(b * u, s);
    assert(m1 * m1 + m2 * m2 <= u * u) by (nonlinear_arith)
        requires
            1 <= s,
            0 <= u,
            0 <= m1,
            0 <= m2,
            0 <= a,
            0 <= b,
            s * m1 <= a * u,
            s * m2 <= b * u,
            a * a + b * b <= s * s,
    ;
}


/// A saturating accumulation moves the component toward the contribution
/// and never past it: the change has the contribution's sign and at most
/// its magnitude.
pub proof fn lemma_accel_add_sign(a: int, d: int)
    requires
        -(crate::params::ACCEL_LIMIT as int) <= a <= crate::params::ACCEL_LIMIT as int,
    ensures
        d >= 0 ==> a <= accel_add_spec(a, d) <= a + d,
        d <= 0 ==> a + d <= accel_add_spec(a, d) <= a,
{
}

} // verus!
