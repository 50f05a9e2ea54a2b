//! 3D vectors over fixed-point scalars.
//!
//! Every component is an `i64` at scale [`SCALE`]; the ghost view [`V3`]
//! carries the components as unbounded integers, and every operation's
//! contract states the exact integer it computes. Products of two scaled
//! values are brought back to scale by a truncating division by `SCALE`.

use vstd::prelude::*;

use crate::fixed::SCALE;
use crate::fixed::div_pos;
use crate::fixed::isqrt;
use crate::fixed::isqrt_spec;
use crate::fixed::lemma_isqrt_bounds;
use crate::fixed::lemma_mul_bound;
use crate::fixed::lemma_mul_cancel;
use crate::fixed::lemma_sq_le;
use crate::fixed::lemma_sq_lt;
use crate::fixed::lemma_sq_nonneg;
use crate::fixed::lemma_tdiv_bounds;
use crate::fixed::mag;
use crate::fixed::tdiv;

verus! {

/// Largest component magnitude the multiplying operations accept: three
/// products of two such components still fit in an `i64`.
pub const VEC_BOUND: i64 = 0x4000_0000;

/// Mathematical view of a vector: its components as unbounded integers.
pub ghost struct V3 {
    pub x: int,
    pub y: int,
    pub z: int,
}

/// A 3D vector (or point) with fixed-point components.
#[derive(Clone, Copy, Debug, PartialEq, Eq, Structural)]
pub struct Vec3 {
    pub x: i64,
    pub y: i64,
    pub z: i64,
}

impl View for Vec3 {
    type V = V3;

    open spec fn view(&self) -> V3 {
        V3 { x: self.x as int, y: self.y as int, z: self.z as int }
    }
}

/// Every component's magnitude is at most `b`.
pub open spec fn in_bounds(a: V3, b: int) -> bool {
    &&& -b <= a.x <= b
    &&& -b <= a.y <= b
    &&& -b <= a.z <= b
}

/// Component-wise sum.
pub open spec fn add_v(a: V3, b: V3) -> V3 {
    V3 { x: a.x + b.x, y: a.y + b.y, z: a.z + b.z }
}

/// Component-wise difference.
pub open spec fn sub_v(a: V3, b: V3) -> V3 {
    V3 { x: a.x - b.x, y: a.y - b.y, z: a.z - b.z }
}

/// Product with a fixed-point scalar, brought back to scale.
pub open spec fn scale_v(a: V3, k: int) -> V3 {
    V3 {
        x: tdiv(a.x * k, SCALE as int),
        y: tdiv(a.y * k, SCALE as int),
        z: tdiv(a.z * k, SCALE as int),
    }
}

/// Quotient by a fixed-point scalar, brought back to scale; truncating
/// for either sign of the divisor.
pub open spec fn div_v(a: V3, k: int) -> V3 {
    if k >= 0 {
        V3 {
            x: tdiv(a.x * (SCALE as int), k),
            y: tdiv(a.y * (SCALE as int), k),
            z: tdiv(a.z * (SCALE as int), k),
        }
    } else {
        V3 {
            x: -tdiv(a.x * (SCALE as int), -k),
            y: -tdiv(a.y * (SCALE as int), -k),
            z: -tdiv(a.z * (SCALE as int), -k),
        }
    }
}

/// Dot product of two scaled vectors, brought back to scale.
pub open spec fn dot_v(a: V3, b: V3) -> int {
    tdiv(a.x * b.x + a.y * b.y + a.z * b.z, SCALE as int)
}

/// Cross product of two scaled vectors, brought back to scale.
pub open spec fn cross_v(a: V3, b: V3) -> V3 {
    V3 {
        x: tdiv(a.y * b.z - a.z * b.y, SCALE as int),
        y: tdiv(a.z * b.x - a.x * b.z, SCALE as int),
        z: tdiv(a.x * b.y - a.y * b.x, SCALE as int),
    }
}

/// Squared length, at scale `SCALE * SCALE`.
pub open spec fn len_sq_v(a: V3) -> int {
    a.x * a.x + a.y * a.y + a.z * a.z
}

/// Length: the integer square root of the squared length, at scale
/// `SCALE`.
pub open spec fn len_v(a: V3) -> int {
    isqrt_spec(len_sq_v(a))
}

/// The vector scaled to (approximately) unit length: each component
/// divided by the length.
pub open spec fn norm_v(a: V3) -> V3 {
    div_v(a, len_v(a))
}

/// A squared length is never negative.
pub proof fn lemma_len_sq_nonneg(a: V3)
    ensures
        len_sq_v(a) >= 0,
        a.x * a.x <= len_sq_v(a),
        a.y * a.y <= len_sq_v(a),
        a.z * a.z <= len_sq_v(a),
{
    lemma_sq_nonneg(a.x);
    lemma_sq_nonneg(a.y);
    lemma_sq_nonneg(a.z);
}

/// No component's magnitude exceeds the vector's length.
pub proof fn lemma_comp_le_len(a: V3)
    ensures
        mag(a.x) <= len_v(a),
        mag(a.y) <= len_v(a),
        mag(a.z) <= len_v(a),
        len_v(a) >= 0,
{
    lemma_len_sq_nonneg(a);
    let q = len_sq_v(a);
    let l = len_v(a);
    lemma_isqrt_bounds(q);
    lemma_sq_nonneg(a.x);
    lemma_sq_nonneg(a.y);
    lemma_sq_nonneg(a.z);
    if mag(a.x) > l {
        lemma_sq_le(l + 1, mag(a.x));
        assert(mag(a.x) * mag(a.x) == a.x * a.x) by {
            lemma_sq_nonneg(a.x);
        }
    }
    if mag(a.y) > l {
        lemma_sq_le(l + 1, mag(a.y));
        assert(mag(a.y) * mag(a.y) == a.y * a.y) by {
            lemma_sq_nonneg(a.y);
        }
    }
    if mag(a.z) > l {
        lemma_sq_le(l + 1, mag(a.z));
        assert(mag(a.z) * mag(a.z) == a.z * a.z) by {
            lemma_sq_nonneg(a.z);
        }
    }
}

/// One normalized component, squared and weighted by the squared
/// length, is bounded by the squared input component at scale
/// `SCALE * SCALE`.
proof fn lemma_norm_comp_sq(c: int, l: int, n: int)
    requires
        l >= 1,
        n == tdiv(c * (SCALE as int), l),
    ensures
        n * n * (l * l) <= (c * c) * ((SCALE as int) * (SCALE as int)),
{
    lemma_tdiv_bounds(c * (SCALE as int), l);
    let cs = c * (SCALE as int);
    assert(mag(n) * l <= mag(cs));
    assert(mag(n) * l >= 0) by (nonlinear_arith)
        requires
            mag(n) >= 0,
            l >= 1,
    ;
    lemma_sq_le(mag(n) * l, mag(cs));
    assert((mag(n) * l) * (mag(n) * l) == (mag(n) * mag(n)) * (l * l)) by (nonlinear_arith);
    assert(mag(n) * mag(n) == n * n) by (nonlinear_arith);
    assert(mag(cs) * mag(cs) == cs * cs) by (nonlinear_arith);
    assert(cs * cs == (c * c) * ((SCALE as int) * (SCALE as int))) by (nonlinear_arith)
        requires
            cs == c * (SCALE as int),
    ;
}

/// Normalizing any vector longer than a few raw units yields a vector
/// whose squared length is at most twice the unit square: the bound the
/// ray well-formedness invariant asks of a direction.
pub proof fn lemma_norm_len_sq_upper(a: V3)
    requires
        len_sq_v(a) >= 9,
    ensures
        len_sq_v(norm_v(a)) <= 2 * (SCALE as int) * (SCALE as int),
{
    let q = len_sq_v(a);
    let l = len_v(a);
    let s = SCALE as int;
    lemma_isqrt_bounds(q);
    if l < 3 {
        lemma_sq_le(l + 1, 3);
        assert(false);
    }
    let n = norm_v(a);
    assert(n.x == tdiv(a.x * s, l) && n.y == tdiv(a.y * s, l) && n.z == tdiv(a.z * s, l));
    lemma_norm_comp_sq(a.x, l, n.x);
    lemma_norm_comp_sq(a.y, l, n.y);
    lemma_norm_comp_sq(a.z, l, n.z);
    let sumn = len_sq_v(n);
    assert(sumn * (l * l) <= q * (s * s)) by (nonlinear_arith)
        requires
            sumn == n.x * n.x + n.y * n.y + n.z * n.z,
            q == a.x * a.x + a.y * a.y + a.z * a.z,
            n.x * n.x * (l * l) <= (a.x * a.x) * (s * s),
            n.y * n.y * (l * l) <= (a.y * a.y) * (s * s),
            n.z * n.z * (l * l) <= (a.z * a.z) * (s * s),
    ;
    assert(q <= l * l + 2 * l) by (nonlinear_arith)
        requires
            q < (l + 1) * (l + 1),
    ;
    assert(false == (sumn >= 2 * s * s + 1)) by (nonlinear_arith)
        requires
            sumn * (l * l) <= q * (s * s),
            q <= l * l + 2 * l,
            l >= 3,
            s >= 2,
    ;
}

/// One normalized component, squared and weighted by the squared
/// length, falls strictly below the squared input component at scale
/// `SCALE * SCALE` once the truncation slack is added back; and its
/// magnitude times the length never exceeds the input's magnitude at
/// scale `SCALE`.
proof fn lemma_norm_comp_sq_lower(c: int, l: int, n: int)
    requires
        l >= 1,
        n == tdiv(c * (SCALE as int), l),
    ensures
        (c * c) * ((SCALE as int) * (SCALE as int)) < (n * n + 2 * mag(n) + 1) * (l * l),
        mag(n) * l <= mag(c) * (SCALE as int),
{
    let s = SCALE as int;
    lemma_tdiv_bounds(c * s, l);
    let m = mag(n);
    assert(mag(c * s) == mag(c) * s);
    assert(mag(c) * s < (m + 1) * l);
    assert(0 <= mag(c) * s);
    lemma_sq_lt(mag(c) * s, (m + 1) * l);
    assert(mag(c) * mag(c) == c * c) by {
        lemma_sq_nonneg(c);
    }
    assert((mag(c) * s) * (mag(c) * s) == (c * c) * (s * s)) by (nonlinear_arith)
        requires
            mag(c) * mag(c) == c * c,
    ;
    assert(((m + 1) * l) * ((m + 1) * l) == (m * m + 2 * m + 1) * (l * l)) by (nonlinear_arith);
    assert(m * m == n * n) by {
        lemma_sq_nonneg(n);
    }
}

/// Normalizing a vector of at least unit length yields a vector whose
/// squared length lies within a few raw units of the exact unit
/// square: `normalize` returns a vector of length one, to within the
/// fixed-point resolution.
pub proof fn lemma_normalized_unit_window(a: V3)
    requires
        len_sq_v(a) >= (SCALE as int) * (SCALE as int),
    ensures
        (SCALE as int) * (SCALE as int) - 4 * (SCALE as int) - 3 <= len_sq_v(norm_v(a)),
        len_sq_v(norm_v(a)) <= (SCALE as int) * (SCALE as int) + 2 * (SCALE as int),
{
    let s = SCALE as int;
    let q = len_sq_v(a);
    let l = len_v(a);
    lemma_isqrt_bounds(q);
    lemma_len_sq_nonneg(a);
    if l < s {
        lemma_sq_le(l + 1, s);
        assert(false);
    }
    let n = norm_v(a);
    assert(n.x == tdiv(a.x * s, l) && n.y == tdiv(a.y * s, l) && n.z == tdiv(a.z * s, l));
    let sumn = len_sq_v(n);
    // Upper half: each component is at most its exact value, so the
    // squared length, weighted by l * l, is at most q * s * s.
    lemma_norm_comp_sq(a.x, l, n.x);
    lemma_norm_comp_sq(a.y, l, n.y);
    lemma_norm_comp_sq(a.z, l, n.z);
    assert(sumn * (l * l) <= q * (s * s)) by (nonlinear_arith)
        requires
            sumn == n.x * n.x + n.y * n.y + n.z * n.z,
            q == a.x * a.x + a.y * a.y + a.z * a.z,
            n.x * n.x * (l * l) <= (a.x * a.x) * (s * s),
            n.y * n.y * (l * l) <= (a.y * a.y) * (s * s),
            n.z * n.z * (l * l) <= (a.z * a.z) * (s * s),
    ;
    assert(q <= l * l + 2 * l) by (nonlinear_arith)
        requires
            q < (l + 1) * (l + 1),
    ;
    assert(!(sumn >= s * s + 2 * s + 1)) by (nonlinear_arith)
        requires
            sumn * (l * l) <= q * (s * s),
            q <= l * l + 2 * l,
            l >= s,
            s >= 2,
    ;
    // Lower half: each component misses its exact value by less than
    // one truncation unit, and the three magnitudes together stay
    // within 2 * s, so the loss over all three components is bounded.
    lemma_norm_comp_sq_lower(a.x, l, n.x);
    lemma_norm_comp_sq_lower(a.y, l, n.y);
    lemma_norm_comp_sq_lower(a.z, l, n.z);
    let nn = mag(n.x) + mag(n.y) + mag(n.z);
    assert(q * (s * s) < (sumn + 2 * nn + 3) * (l * l)) by (nonlinear_arith)
        requires
            sumn == n.x * n.x + n.y * n.y + n.z * n.z,
            q == a.x * a.x + a.y * a.y + a.z * a.z,
            nn == mag(n.x) + mag(n.y) + mag(n.z),
            (a.x * a.x) * (s * s) < (n.x * n.x + 2 * mag(n.x) + 1) * (l * l),
            (a.y * a.y) * (s * s) < (n.y * n.y + 2 * mag(n.y) + 1) * (l * l),
            (a.z * a.z) * (s * s) < (n.z * n.z + 2 * mag(n.z) + 1) * (l * l),
    ;
    let t = mag(a.x) + mag(a.y) + mag(a.z);
    assert(mag(a.x) * mag(a.x) == a.x * a.x) by {
        lemma_sq_nonneg(a.x);
    }
    assert(mag(a.y) * mag(a.y) == a.y * a.y) by {
        lemma_sq_nonneg(a.y);
    }
    assert(mag(a.z) * mag(a.z) == a.z * a.z) by {
        lemma_sq_nonneg(a.z);
    }
    assert(t * t <= 3 * q) by (nonlinear_arith)
        requires
            t == mag(a.x) + mag(a.y) + mag(a.z),
            q == a.x * a.x + a.y * a.y + a.z * a.z,
            mag(a.x) * mag(a.x) == a.x * a.x,
            mag(a.y) * mag(a.y) == a.y * a.y,
            mag(a.z) * mag(a.z) == a.z * a.z,
    ;
    assert(t * t <= (2 * l) * (2 * l)) by (nonlinear_arith)
        requires
            t * t <= 3 * q,
            q <= l * l + 2 * l,
            l >= 6,
    ;
    assert(t <= 2 * l) by {
        if t > 2 * l {
            lemma_sq_lt(2 * l, t);
        }
    }
    assert(nn * l <= t * s) by (nonlinear_arith)
        requires
            nn == mag(n.x) + mag(n.y) + mag(n.z),
            t == mag(a.x) + mag(a.y) + mag(a.z),
            mag(n.x) * l <= mag(a.x) * s,
            mag(n.y) * l <= mag(a.y) * s,
            mag(n.z) * l <= mag(a.z) * s,
    ;
    assert(nn <= 2 * s) by (nonlinear_arith)
        requires
            nn * l <= t * s,
            t <= 2 * l,
            l >= 1,
            s >= 1,
            nn >= 0,
    ;
    assert(s * s < sumn + 2 * nn + 3) by (nonlinear_arith)
        requires
            q * (s * s) < (sumn + 2 * nn + 3) * (l * l),
            q >= l * l,
            l >= 1,
            s >= 0,
    ;
}

impl Vec3 {
    /// Dot product: the sum of the component products, brought back to
    /// scale.
    pub fn dot(&self, other: Vec3) -> (r: i64)
        requires
            in_bounds(self@, VEC_BOUND as int),
            in_bounds(other@, VEC_BOUND as int),
        ensures
            r == dot_v(self@, other@),
    {
        proof {
            lemma_mul_bound(self@.x, other@.x, VEC_BOUND as int, VEC_BOUND as int);
            lemma_mul_bound(self@.y, other@.y, VEC_BOUND as int, VEC_BOUND as int);
            lemma_mul_bound(self@.z, other@.z, VEC_BOUND as int, VEC_BOUND as int);
        }
        let s: i64 = self.x * other.x + self.y * other.y + self.z * other.z;
        div_pos(s, SCALE)
    }

    /// Cross product, each component brought back to scale.
    pub fn cross(&self, other: Vec3) -> (r: Vec3)
        requires
            in_bounds(self@, VEC_BOUND as int),
            in_bounds(other@, VEC_BOUND as int),
        ensures
            r@ == cross_v(self@, other@),
    {
        proof {
            lemma_mul_bound(self@.y, other@.z, VEC_BOUND as int, VEC_BOUND as int);
            lemma_mul_bound(self@.z, other@.y, VEC_BOUND as int, VEC_BOUND as int);
            lemma_mul_bound(self@.z, other@.x, VEC_BOUND as int, VEC_BOUND as int);
            lemma_mul_bound(self@.x, other@.z, VEC_BOUND as int, VEC_BOUND as int);
            lemma_mul_bound(self@.x, other@.y, VEC_BOUND as int, VEC_BOUND as int);
            lemma_mul_bound(self@.y, other@.x, VEC_BOUND as int, VEC_BOUND as int);
        }
        let cx: i64 = div_pos(self.y * other.z - self.z * other.y, SCALE);
        let cy: i64 = div_pos(self.z * other.x - self.x * other.z, SCALE);
        let cz: i64 = div_pos(self.x * other.y - self.y * other.x, SCALE);
        Vec3 { x: cx, y: cy, z: cz }
    }

    /// Squared length, at scale `SCALE * SCALE`; cheaper than `len` when
    /// only an order comparison is needed.
    pub fn len_squared(&self) -> (r: i64)
        requires
            in_bounds(self@, VEC_BOUND as int),
        ensures
            r == len_sq_v(self@),
            0 <= r < 0x4000_0000_0000_0000,
    {
        proof {
            lemma_len_sq_nonneg(self@);
            lemma_mul_bound(self@.x, self@.x, VEC_BOUND as int, VEC_BOUND as int);
            lemma_mul_bound(self@.y, self@.y, VEC_BOUND as int, VEC_BOUND as int);
            lemma_mul_bound(self@.z, self@.z, VEC_BOUND as int, VEC_BOUND as int);
        }
        self.x * self.x + self.y * self.y + self.z * self.z
    }

    /// Length at scale `SCALE`: the integer square root of the squared
    /// length.
    pub fn len(&self) -> (r: i64)
        requires
            in_bounds(self@, VEC_BOUND as int),
        ensures
            r == len_v(self@),
            r >= 0,
    {
        let q: i64 = self.len_squared();
        isqrt(q)
    }

    /// Component-wise sum.
    pub fn add(&self, other: Vec3) -> (r: Vec3)
        requires
            in_bounds(self@, 0x3FFF_FFFF_FFFF_FFFF),
            in_bounds(other@, 0x3FFF_FFFF_FFFF_FFFF),
        ensures
            r@ == add_v(self@, other@),
    {
        Vec3 { x: self.x + other.x, y: self.y + other.y, z: self.z + other.z }
    }

    /// Component-wise difference.
    pub fn sub(&self, other: Vec3) -> (r: Vec3)
        requires
            in_bounds(self@, 0x3FFF_FFFF_FFFF_FFFF),
            in_bounds(other@, 0x3FFF_FFFF_FFFF_FFFF),
        ensures
            r@ == sub_v(self@, other@),
    {
        Vec3 { x: self.x - other.x, y: self.y - other.y, z: self.z - other.z }
    }

    /// Product with a fixed-point scalar.
    pub fn mul(&self, k: i64) -> (r: Vec3)
        requires
            in_bounds(self@, VEC_BOUND as int),
            -VEC_BOUND <= k <= VEC_BOUND,
        ensures
            r@ == scale_v(self@, k as int),
    {
        proof {
            lemma_mul_bound(self@.x, k as int, VEC_BOUND as int, VEC_BOUND as int);
            lemma_mul_bound(self@.y, k as int, VEC_BOUND as int, VEC_BOUND as int);
            lemma_mul_bound(self@.z, k as int, VEC_BOUND as int, VEC_BOUND as int);
        }
        Vec3 {
            x: div_pos(self.x * k, SCALE),
            y: div_pos(self.y * k, SCALE),
            z: div_pos(self.z * k, SCALE),
        }
    }

    /// Quotient by a nonzero fixed-point scalar.
    pub fn div(&self, k: i64) -> (r: Vec3)
        requires
            in_bounds(self@, VEC_BOUND as int),
            k != 0,
            k != i64::MIN,
        ensures
            r@ == div_v(self@, k as int),
    {
        if k > 0 {
            Vec3 {
                x: div_pos(self.x * SCALE, k),
                y: div_pos(self.y * SCALE, k),
                z: div_pos(self.z * SCALE, k),
            }
        } else {
            let m: i64 = -k;
            Vec3 {
                x: -div_pos(self.x * SCALE, m),
                y: -div_pos(self.y * SCALE, m),
                z: -div_pos(self.z * SCALE, m),
            }
        }
    }

    /// The vector scaled to unit length (to within the fixed-point
    /// resolution): each component divided by the length.
    pub fn normalized(&self) -> (r: Vec3)
        requires
            in_bounds(self@, VEC_BOUND as int),
            len_sq_v(self@) >= 1,
        ensures
            r@ == norm_v(self@),
            in_bounds(r@, SCALE as int),
    {
        let l: i64 = self.len();
        proof {
            lemma_isqrt_bounds(len_sq_v(self@));
            if l as int == 0 {
                assert((len_v(self@) + 1) * (len_v(self@) + 1) == 1) by (nonlinear_arith)
                    requires
                        len_v(self@) == 0,
                ;
                assert(false);
            }
            lemma_comp_le_len(self@);
        }
        let nx: i64 = div_pos(self.x * SCALE, l);
        let ny: i64 = div_pos(self.y * SCALE, l);
        let nz: i64 = div_pos(self.z * SCALE, l);
        proof {
            lemma_norm_comp_bound(self@.x, l as int, nx as int);
            lemma_norm_comp_bound(self@.y, l as int, ny as int);
            lemma_norm_comp_bound(self@.z, l as int, nz as int);
        }
        Vec3 { x: nx, y: ny, z: nz }
    }
}

/// A component divided by the length has magnitude at most `SCALE`,
/// given that no component's magnitude exceeds the length.
proof fn lemma_norm_comp_bound(c: int, l: int, n: int)
    requires
        l >= 1,
        mag(c) <= l,
        n == tdiv(c * (SCALE as int), l),
    ensures
        -SCALE <= n <= SCALE,
{
    lemma_tdiv_bounds(c * (SCALE as int), l);
    assert(mag(c * (SCALE as int)) == mag(c) * (SCALE as int));
    assert(mag(n) * l <= mag(c) * (SCALE as int));
    assert(mag(c) * (SCALE as int) <= (SCALE as int) * l);
    lemma_mul_cancel(mag(n), SCALE as int, l);
}

} // verus!
