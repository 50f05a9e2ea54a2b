//! An intersection between a ray and an intersectable entity.

use vstd::prelude::*;

use crate::fixed::lemma_mul_bound;
use crate::fixed::lemma_tdiv_bounds;
use crate::fixed::SCALE;
use crate::ray::Ray;
use crate::vec::add_v;
use crate::vec::in_bounds;
use crate::vec::scale_v;
use crate::vec::V3;
use crate::vec::Vec3;
use crate::vec::VEC_BOUND;

verus! {

/// A hit along a ray: `t` is the ray parameter of the intersection, so
/// the hit point is `origin + direction * t`.
#[derive(Clone, Copy, Debug, PartialEq, Eq, Structural)]
pub struct Intersection {
    pub ray: Ray,
    /// Intersection point on the line, as the `t` in the equation
    /// `intersection_point = ray.origin + ray.direction * t`.
    pub t: i64,
}

/// The point `origin + direction * t`.
pub open spec fn point_at_v(o: V3, d: V3, t: int) -> V3 {
    add_v(o, scale_v(d, t))
}

impl Intersection {
    /// The point where the hit lies: `origin + direction * t`.
    pub fn intersection_point(&self) -> (p: Vec3)
        requires
            in_bounds(self.ray.origin@, VEC_BOUND as int),
            in_bounds(self.ray.direction@, VEC_BOUND as int),
            -VEC_BOUND <= self.t <= VEC_BOUND,
        ensures
            p@ == point_at_v(self.ray.origin@, self.ray.direction@, self.t as int),
    {
        let scaled: Vec3 = self.ray.direction.mul(self.t);
        proof {
            lemma_mul_bound(self.ray.direction@.x, self.t as int, VEC_BOUND as int, VEC_BOUND as int);
            lemma_mul_bound(self.ray.direction@.y, self.t as int, VEC_BOUND as int, VEC_BOUND as int);
            lemma_mul_bound(self.ray.direction@.z, self.t as int, VEC_BOUND as int, VEC_BOUND as int);
            lemma_tdiv_bounds(self.ray.direction@.x * (self.t as int), SCALE as int);
            lemma_tdiv_bounds(self.ray.direction@.y * (self.t as int), SCALE as int);
            lemma_tdiv_bounds(self.ray.direction@.z * (self.t as int), SCALE as int);
        }
        self.ray.origin.add(scaled)
    }
}

} // verus!
