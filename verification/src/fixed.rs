//! Fixed-point scalar arithmetic.
//!
//! A scalar is an `i64` holding the real value times [`SCALE`]: the raw
//! value `65536` stands for the world length `1.0`. Products of two
//! scalars carry scale `SCALE * SCALE` and are brought back by a
//! truncating division; [`tdiv`] is the specification of that division
//! and [`isqrt_spec`] the specification of the integer square root that
//! vector lengths use.

use vstd::prelude::*;

verus! {

/// Number of raw fixed-point units in one world unit.
pub const SCALE: i64 = 65536;

/// Magnitude of an integer.
pub open spec fn mag(a: int) -> int {
    if a >= 0 {
        a
    } else {
        -a
    }
}

/// Truncating (round-toward-zero) division: what `/` on `i64` computes
/// for a positive divisor.
pub open spec fn tdiv(a: int, d: int) -> int {
    if a >= 0 {
        a / d
    } else {
        -((-a) / d)
    }
}

/// The quotient's magnitude times the divisor never exceeds the
/// dividend's magnitude, and exceeds it once one more divisor is added.
pub proof fn lemma_tdiv_bounds(a: int, d: int)
    requires
        d > 0,
    ensures
        mag(tdiv(a, d)) * d <= mag(a),
        mag(a) < (mag(tdiv(a, d)) + 1) * d,
        mag(tdiv(a, d)) <= mag(a),
        a >= 0 ==> tdiv(a, d) >= 0,
        a <= 0 ==> tdiv(a, d) <= 0,
{
    let m = mag(a);
    vstd::arithmetic::div_mod::lemma_fundamental_div_mod(m, d);
    vstd::arithmetic::div_mod::lemma_mod_bound(m, d);
    assert(m == d * (m / d) + m % d);
    assert(m / d >= 0) by {
        vstd::arithmetic::div_mod::lemma_div_is_ordered(0, m, d);
    }
    assert(mag(tdiv(a, d)) == m / d);
    assert((m / d) * d <= m) by {
        assert(d * (m / d) == (m / d) * d) by (nonlinear_arith);
    }
    assert(m < (m / d + 1) * d) by {
        assert((m / d + 1) * d == d * (m / d) + d) by (nonlinear_arith);
    }
    assert(m / d <= m) by {
        assert(m / d <= (m / d) * d) by (nonlinear_arith)
            requires
                d >= 1,
                m / d >= 0,
        ;
    }
}

/// Squaring keeps the order of nonnegative integers.
pub proof fn lemma_sq_le(a: int, b: int)
    by (nonlinear_arith)
    requires
        0 <= a <= b,
    ensures
        a * a <= b * b,
{
}

/// Squaring keeps strict order of nonnegative integers.
pub proof fn lemma_sq_lt(a: int, b: int)
    by (nonlinear_arith)
    requires
        0 <= a < b,
    ensures
        a * a < b * b,
{
}

/// A square is never negative.
pub proof fn lemma_sq_nonneg(a: int)
    by (nonlinear_arith)
    ensures
        a * a >= 0,
        (-a) * (-a) == a * a,
{
}

/// A product is bounded by the product of the factors' bounds.
pub proof fn lemma_mul_bound(a: int, b: int, ma: int, mb: int)
    by (nonlinear_arith)
    requires
        -ma <= a <= ma,
        -mb <= b <= mb,
    ensures
        -(ma * mb) <= a * b <= ma * mb,
{
}

/// A product of nonnegative factors is nonnegative.
pub proof fn lemma_mul_nonneg(a: int, b: int)
    by (nonlinear_arith)
    requires
        a >= 0,
        b >= 0,
    ensures
        a * b >= 0,
{
}

/// A common positive factor can be cancelled from an inequality.
pub proof fn lemma_mul_cancel(a: int, b: int, f: int)
    by (nonlinear_arith)
    requires
        a * f <= b * f,
        f >= 1,
    ensures
        a <= b,
{
}

/// Integer square root, defined by counting up.
pub open spec fn isqrt_rec(n: nat) -> nat
    decreases n,
{
    if n == 0 {
        0
    } else {
        let r = isqrt_rec((n - 1) as nat);
        if (r + 1) * (r + 1) <= n {
            r + 1
        } else {
            r
        }
    }
}

/// Integer square root of a nonnegative integer: the greatest `r` with
/// `r * r <= n`.
pub open spec fn isqrt_spec(n: int) -> int {
    isqrt_rec(n as nat) as int
}

proof fn lemma_isqrt_rec_bounds(n: nat)
    ensures
        (isqrt_rec(n) as int) * (isqrt_rec(n) as int) <= n as int,
        (n as int) < (isqrt_rec(n) as int + 1) * (isqrt_rec(n) as int + 1),
    decreases n,
{
    if n == 0 {
        assert(isqrt_rec(0) == 0);
    } else {
        lemma_isqrt_rec_bounds((n - 1) as nat);
        let r = isqrt_rec((n - 1) as nat) as int;
        assert(r * r <= n - 1);
        assert(n - 1 < (r + 1) * (r + 1));
        if isqrt_rec(n) == isqrt_rec((n - 1) as nat) + 1 {
            assert(isqrt_rec(n) as int == r + 1);
            assert((r + 1) * (r + 1) <= n as int);
            assert((n as int) < (r + 2) * (r + 2)) by (nonlinear_arith)
                requires
                    r >= 0,
                    (n as int) <= (r + 1) * (r + 1),
            ;
        } else {
            assert(isqrt_rec(n) as int == r);
        }
    }
}

/// The defining bounds of the integer square root.
pub proof fn lemma_isqrt_bounds(n: int)
    requires
        n >= 0,
    ensures
        isqrt_spec(n) >= 0,
        isqrt_spec(n) * isqrt_spec(n) <= n,
        n < (isqrt_spec(n) + 1) * (isqrt_spec(n) + 1),
{
    lemma_isqrt_rec_bounds(n as nat);
}

/// Any `r` meeting the defining bounds is the integer square root.
pub proof fn lemma_isqrt_unique(n: int, r: int)
    requires
        n >= 0,
        r >= 0,
        r * r <= n,
        n < (r + 1) * (r + 1),
    ensures
        r == isqrt_spec(n),
{
    lemma_isqrt_bounds(n);
    let s = isqrt_spec(n);
    if r < s {
        assert((r + 1) * (r + 1) <= s * s) by (nonlinear_arith)
            requires
                0 <= r < s,
        ;
    }
    if s < r {
        assert((s + 1) * (s + 1) <= r * r) by (nonlinear_arith)
            requires
                0 <= s < r,
        ;
    }
}

/// A dividend bounded by `m` divisors gives a quotient bounded by `m`.
pub proof fn lemma_div_mag_le(a: int, d: int, m: int)
    requires
        d >= 1,
        m >= 0,
        mag(a) <= m * d,
    ensures
        mag(tdiv(a, d)) <= m,
{
    lemma_tdiv_bounds(a, d);
    if mag(tdiv(a, d)) > m {
        assert(mag(tdiv(a, d)) * d >= (m + 1) * d) by (nonlinear_arith)
            requires
                mag(tdiv(a, d)) >= m + 1,
                d >= 1,
        ;
        assert((m + 1) * d == m * d + d) by (nonlinear_arith);
        assert(false);
    }
}

/// The integer square root of anything below `b * b` is below `b`.
pub proof fn lemma_isqrt_lt(n: int, b: int)
    requires
        0 <= n,
        0 <= b,
        n < b * b,
    ensures
        isqrt_spec(n) < b,
{
    lemma_isqrt_bounds(n);
    if isqrt_spec(n) >= b {
        lemma_sq_le(b, isqrt_spec(n));
    }
}

/// Truncating division by a positive divisor, with the magnitude facts
/// every caller's overflow argument rests on.
pub fn div_pos(a: i64, d: i64) -> (r: i64)
    requires
        a > i64::MIN,
        d > 0,
    ensures
        r == tdiv(a as int, d as int),
        mag(r as int) * (d as int) <= mag(a as int),
        mag(a as int) < (mag(r as int) + 1) * (d as int),
        mag(r as int) <= mag(a as int),
        a >= 0 ==> r >= 0,
        a <= 0 ==> r <= 0,
{
    proof {
        lemma_tdiv_bounds(a as int, d as int);
    }
    a / d
}

/// Integer square root by binary search.
pub fn isqrt(n: i64) -> (r: i64)
    requires
        0 <= n < 0x4000_0000_0000_0000,
    ensures
        r == isqrt_spec(n as int),
        r >= 0,
{
    let mut lo: i64 = 0;
    let mut hi: i64 = 0x8000_0000;
    while lo + 1 < hi
        invariant
            0 <= lo < hi <= 0x8000_0000,
            lo * lo <= n,
            n < hi * hi,
        decreases hi - lo,
    {
        let mid: i64 = lo + (hi - lo) / 2;
        assert(lo < mid < hi);
        assert(mid * mid < 0x4000_0000_0000_0000) by (nonlinear_arith)
            requires
                0 < mid < 0x8000_0000,
        ;
        if mid * mid <= n {
            lo = mid;
        } else {
            hi = mid;
        }
    }
    proof {
        lemma_isqrt_unique(n as int, lo as int);
    }
    lo
}

} // verus!
