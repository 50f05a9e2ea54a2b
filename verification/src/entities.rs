//! Scene entities: spheres and the point light, with the ray–sphere
//! intersection test at the heart of the tracer.
//!
//! The geometric quantities (`tca`, `d_sq`, `thc`) are specified over
//! the ghost views of a ray's origin and direction, so that callers can
//! speak about rays they construct along the way (the shadow ray) as
//! easily as about rays they hold.

use vstd::prelude::*;

use crate::fixed::isqrt;
use crate::fixed::isqrt_spec;
use crate::fixed::lemma_div_mag_le;
use crate::fixed::lemma_isqrt_bounds;
use crate::fixed::lemma_isqrt_lt;
use crate::fixed::lemma_mul_bound;
use crate::fixed::lemma_sq_nonneg;
use crate::fixed::SCALE;
use crate::intersection::Intersection;
use crate::intersection::point_at_v;
use crate::ray::Ray;
use crate::ray::MAX_ORIGIN;
use crate::ray::wf_ray;
use crate::vec::dot_v;
use crate::vec::in_bounds;
use crate::vec::len_sq_v;
use crate::vec::lemma_len_sq_nonneg;
use crate::vec::sub_v;
use crate::vec::V3;
use crate::vec::Vec3;

verus! {

/// An RGBA color with 8-bit channels.
#[derive(Clone, Copy, Debug, PartialEq, Eq, Structural)]
pub struct Rgba8 {
    pub r: u8,
    pub g: u8,
    pub b: u8,
    pub a: u8,
}

/// Largest component magnitude of a scene coordinate (sphere centers,
/// the light position, the camera position) and of a sphere radius.
pub const MAX_SCENE: i64 = 0x40_0000;

/// Magnitude bound on the projection `tca` for any ray the tracer
/// builds: three products of a `MAX_ORIGIN + MAX_SCENE` component with
/// a `SCALE` component, brought back to scale.
pub const MAX_TCA: i64 = 0x18C0_0000;

/// Magnitude bound on the half-chord `thc`.
pub const MAX_THC: i64 = 0x4000_0000;

/// A sphere entity, with its surface color.
#[derive(Clone, Copy, Debug, PartialEq, Eq, Structural)]
pub struct Sphere {
    pub center: Vec3,
    pub radius: i64,
    pub color: Rgba8,
}

/// A point light. Brightness is a fixed-point factor in `[0, SCALE]`,
/// standing for the real interval `[0, 1]`.
#[derive(Clone, Copy, Debug, PartialEq, Eq, Structural)]
pub struct Light {
    pub position: Vec3,
    pub brightness: i64,
}

/// Well-formed sphere: center within scene bounds, positive radius.
pub open spec fn wf_sphere(s: Sphere) -> bool {
    &&& in_bounds(s.center@, MAX_SCENE as int)
    &&& 0 < s.radius <= MAX_SCENE
}

/// Well-formed light: position within scene bounds, brightness in
/// `[0, SCALE]`.
pub open spec fn wf_light(l: Light) -> bool {
    &&& in_bounds(l.position@, MAX_SCENE as int)
    &&& 0 <= l.brightness <= SCALE
}

/// The vector from the ray origin `o` to the sphere center.
pub open spec fn oc_v(s: Sphere, o: V3) -> V3 {
    sub_v(s.center@, o)
}

/// Projection of the origin-to-center vector onto the ray direction:
/// the ray parameter of the closest point of the ray's line to the
/// center.
pub open spec fn tca_spec(s: Sphere, o: V3, d: V3) -> int {
    dot_v(oc_v(s, o), d)
}

/// Squared distance (at scale `SCALE * SCALE`) from the sphere center
/// to the closest point of the ray's line.
pub open spec fn d_sq_spec(s: Sphere, o: V3, d: V3) -> int {
    len_sq_v(oc_v(s, o)) - tca_spec(s, o, d) * tca_spec(s, o, d)
}

/// The squared radius, at scale `SCALE * SCALE`.
pub open spec fn rad_sq_spec(s: Sphere) -> int {
    s.radius * s.radius
}

/// Does the test report a hit? The center must not project behind the
/// origin (a ray starting inside a sphere is a policy miss), and the
/// line's closest approach must come within the radius.
pub open spec fn sphere_hit(s: Sphere, o: V3, d: V3) -> bool {
    &&& tca_spec(s, o, d) >= 0
    &&& d_sq_spec(s, o, d) <= rad_sq_spec(s)
}

/// Half-chord: distance along the ray from the closest approach to the
/// surface.
pub open spec fn thc_spec(s: Sphere, o: V3, d: V3) -> int {
    isqrt_spec(rad_sq_spec(s) - d_sq_spec(s, o, d))
}

/// The near root: ray parameter of the nearest surface point, which is
/// the only one this tracer ever needs.
pub open spec fn hit_t_spec(s: Sphere, o: V3, d: V3) -> int {
    tca_spec(s, o, d) - thc_spec(s, o, d)
}

/// The projection `tca` of any working ray is bounded: the scan's
/// overflow arguments all start here.
pub proof fn lemma_tca_mag(s: Sphere, o: V3, d: V3)
    requires
        in_bounds(o, 0x800_0000),
        in_bounds(s.center@, 0x40_0000),
        in_bounds(d, 65536),
    ensures
        -MAX_TCA <= tca_spec(s, o, d) <= MAX_TCA,
{
    let oc = oc_v(s, o);
    lemma_mul_bound(oc.x, d.x, 0x840_0000, 65536);
    lemma_mul_bound(oc.y, d.y, 0x840_0000, 65536);
    lemma_mul_bound(oc.z, d.z, 0x840_0000, 65536);
    lemma_div_mag_le(oc.x * d.x + oc.y * d.y + oc.z * d.z, SCALE as int, MAX_TCA as int);
}

/// For a reported hit, the parameter `t` lies between `-thc` and
/// `tca`, and the half-chord itself is bounded.
pub proof fn lemma_hit_t_range(s: Sphere, o: V3, d: V3)
    requires
        in_bounds(o, 0x800_0000),
        in_bounds(s.center@, 0x40_0000),
        -0x40_0000 <= s.radius <= 0x40_0000,
        in_bounds(d, 65536),
        sphere_hit(s, o, d),
    ensures
        0 <= thc_spec(s, o, d) < MAX_THC,
        hit_t_spec(s, o, d) <= tca_spec(s, o, d) <= MAX_TCA,
        -MAX_THC <= hit_t_spec(s, o, d),
{
    lemma_tca_mag(s, o, d);
    let tca = tca_spec(s, o, d);
    let n = rad_sq_spec(s) - d_sq_spec(s, o, d);
    lemma_len_sq_nonneg(oc_v(s, o));
    lemma_mul_bound(s.radius as int, s.radius as int, 0x40_0000, 0x40_0000);
    lemma_mul_bound(tca, tca, MAX_TCA as int, MAX_TCA as int);
    assert(n >= 0);
    lemma_isqrt_bounds(n);
    lemma_isqrt_lt(n, MAX_THC as int);
}

/// The hit point of a visible hit on a primary ray — one starting
/// within the scene bounds — stays within the ray-origin bounds, so it
/// can serve as the origin of the shadow ray.
pub proof fn lemma_primary_hit_point_bound(s: Sphere, o: V3, d: V3)
    requires
        in_bounds(o, 0x40_0000),
        in_bounds(s.center@, 0x40_0000),
        -0x40_0000 <= s.radius <= 0x40_0000,
        in_bounds(d, 65536),
        sphere_hit(s, o, d),
        hit_t_spec(s, o, d) >= 0,
    ensures
        in_bounds(point_at_v(o, d, hit_t_spec(s, o, d)), MAX_ORIGIN as int),
{
    let oc = oc_v(s, o);
    lemma_mul_bound(oc.x, d.x, 0x80_0000, 65536);
    lemma_mul_bound(oc.y, d.y, 0x80_0000, 65536);
    lemma_mul_bound(oc.z, d.z, 0x80_0000, 65536);
    lemma_div_mag_le(oc.x * d.x + oc.y * d.y + oc.z * d.z, SCALE as int, 0x180_0000);
    let t = hit_t_spec(s, o, d);
    let n = rad_sq_spec(s) - d_sq_spec(s, o, d);
    lemma_len_sq_nonneg(oc_v(s, o));
    lemma_isqrt_bounds(n);
    assert(0 <= t <= 0x180_0000);
    lemma_mul_bound(d.x, t, 65536, 0x180_0000);
    lemma_mul_bound(d.y, t, 65536, 0x180_0000);
    lemma_mul_bound(d.z, t, 65536, 0x180_0000);
    lemma_div_mag_le(d.x * t, SCALE as int, 0x180_0000);
    lemma_div_mag_le(d.y * t, SCALE as int, 0x180_0000);
    lemma_div_mag_le(d.z * t, SCALE as int, 0x180_0000);
}

/// A ray whose line misses the sphere — its closest approach to the
/// center exceeds the radius — reports no hit.
pub proof fn lemma_miss_no_hit(s: Sphere, o: V3, d: V3)
    requires
        d_sq_spec(s, o, d) > rad_sq_spec(s),
    ensures
        !sphere_hit(s, o, d),
{
}

/// A ray through the center: the two algebraic roots `tca - thc` and
/// `tca + thc` lie symmetric around `tca`, and the reported parameter
/// is the smaller (near-side) one.
pub proof fn lemma_through_center_near_root(s: Sphere, o: V3, d: V3)
    requires
        d_sq_spec(s, o, d) == 0,
    ensures
        thc_spec(s, o, d) >= 0,
        hit_t_spec(s, o, d) + (tca_spec(s, o, d) + thc_spec(s, o, d)) == 2 * tca_spec(s, o, d),
        hit_t_spec(s, o, d) <= tca_spec(s, o, d) + thc_spec(s, o, d),
        tca_spec(s, o, d) >= 0 ==> sphere_hit(s, o, d),
{
    lemma_sq_nonneg(s.radius as int);
    lemma_isqrt_bounds(rad_sq_spec(s));
}

/// A tangent ray (`d_sq == radius * radius`) has a zero half-chord, so
/// its single hit lies exactly at `tca`.
pub proof fn lemma_tangent_hit(s: Sphere, o: V3, d: V3)
    requires
        d_sq_spec(s, o, d) == rad_sq_spec(s),
        tca_spec(s, o, d) >= 0,
    ensures
        sphere_hit(s, o, d),
        thc_spec(s, o, d) == 0,
        hit_t_spec(s, o, d) == tca_spec(s, o, d),
{
    lemma_sq_nonneg(s.radius as int);
    assert(isqrt_spec(0) == 0) by {
        lemma_isqrt_bounds(0);
    }
}

impl Sphere {
    /// The entity's surface color.
    pub fn get_color(&self) -> (c: Rgba8)
        ensures
            c == self.color,
    {
        self.color
    }

    /// Geometric ray–sphere intersection. Projects the center onto the
    /// ray (`tca`), takes the squared distance from the center to the
    /// line (`d_sq`), and reports the near root `tca - thc` when the
    /// line comes within the radius. A center projecting behind the
    /// origin (`tca < 0`) is a miss, so rays starting inside a sphere
    /// report no hit. At most one hit is returned: the far root is
    /// never needed for visibility.
    pub fn intersection(&self, ray: Ray) -> (hits: Vec<Intersection>)
        requires
            wf_sphere(*self),
            wf_ray(ray),
        ensures
            hits@.len() <= 1,
            hits@.len() == 1 <==> sphere_hit(*self, ray.origin@, ray.direction@),
            sphere_hit(*self, ray.origin@, ray.direction@) ==> hits@[0].ray == ray,
            sphere_hit(*self, ray.origin@, ray.direction@) ==> hits@[0].t == hit_t_spec(
                *self,
                ray.origin@,
                ray.direction@,
            ),
    {
        let oc: Vec3 = self.center.sub(ray.origin);
        let tca: i64 = oc.dot(ray.direction);
        proof {
            assert(oc@ == oc_v(*self, ray.origin@));
            lemma_tca_mag(*self, ray.origin@, ray.direction@);
        }
        if tca < 0 {
            let hits: Vec<Intersection> = Vec::new();
            return hits;
        }
        let q_oc: i64 = oc.len_squared();
        proof {
            lemma_mul_bound(tca as int, tca as int, MAX_TCA as int, MAX_TCA as int);
        }
        let d_sq: i64 = q_oc - tca * tca;
        proof {
            lemma_mul_bound(self.radius as int, self.radius as int, MAX_SCENE as int, MAX_SCENE as int);
        }
        let rad_sq: i64 = self.radius * self.radius;
        if d_sq > rad_sq {
            let hits: Vec<Intersection> = Vec::new();
            return hits;
        }
        proof {
            lemma_isqrt_lt((rad_sq - d_sq) as int, MAX_THC as int);
        }
        let thc: i64 = isqrt(rad_sq - d_sq);
        let t: i64 = tca - thc;
        let mut hits: Vec<Intersection> = Vec::new();
        hits.push(Intersection { ray: ray, t: t });
        hits
    }
}

} // verus!
