//! The camera: maps a pixel coordinate to a world-space primary-ray
//! direction.
//!
//! The view rotation is precomputed once per camera, as the three
//! world-space axes of the camera frame: `z_axis` is the normalized
//! look direction, `x_axis` the normalized cross product of world up
//! (`+Y`) with it, and `y_axis` their cross product.

use vstd::prelude::*;

use crate::entities::MAX_SCENE;
use crate::fixed::div_pos;
use crate::fixed::lemma_mul_bound;
use crate::fixed::lemma_div_mag_le;
use crate::fixed::lemma_tdiv_bounds;
use crate::fixed::mag;
use crate::fixed::SCALE;
use crate::fixed::tdiv;
use crate::vec::add_v;
use crate::vec::cross_v;
use crate::vec::in_bounds;
use crate::vec::len_sq_v;
use crate::vec::lemma_norm_len_sq_upper;
use crate::vec::norm_v;
use crate::vec::scale_v;
use crate::vec::V3;
use crate::vec::Vec3;
use crate::vec::VEC_BOUND;

verus! {

/// The world up direction, `+Y` at unit length.
pub open spec fn up_v() -> V3 {
    V3 { x: 0, y: SCALE as int, z: 0 }
}

/// The fallback direction a degenerate camera frame hands out: the
/// camera-space forward axis at exactly unit length.
pub open spec fn forward_v() -> V3 {
    V3 { x: 0, y: 0, z: SCALE as int }
}

/// A camera which looks at the scene.
#[derive(Clone, Copy, Debug, PartialEq, Eq, Structural)]
pub struct Camera {
    pub position: Vec3,
    pub direction: Vec3,
    pub image_width: i32,
    pub image_height: i32,
    /// World-space camera right axis (precomputed rotation, column 1).
    pub x_axis: Vec3,
    /// World-space camera up axis (precomputed rotation, column 2).
    pub y_axis: Vec3,
    /// World-space camera forward axis (precomputed rotation, column 3).
    pub z_axis: Vec3,
}

/// Well-formed camera: positive image dimensions, position within the
/// scene bounds, and frame axes at the magnitudes construction gives
/// them.
pub open spec fn wf_camera(c: Camera) -> bool {
    &&& c.image_width >= 1
    &&& c.image_height >= 1
    &&& in_bounds(c.position@, MAX_SCENE as int)
    &&& in_bounds(c.x_axis@, SCALE as int)
    &&& in_bounds(c.y_axis@, 2 * (SCALE as int))
    &&& in_bounds(c.z_axis@, SCALE as int)
}

/// Horizontal camera-space coordinate of pixel column `x`: the cell
/// `[0, width)` mapped into `[-1, 1)` at scale `SCALE`.
pub open spec fn cam_u(c: Camera, x: int) -> int {
    tdiv(2 * (SCALE as int) * x, c.image_width as int) - SCALE as int
}

/// Vertical camera-space coordinate of pixel row `y`: as `cam_u`, but
/// negated because image rows grow downward while camera space grows
/// upward.
pub open spec fn cam_v(c: Camera, y: int) -> int {
    -(tdiv(2 * (SCALE as int) * y, c.image_height as int) - SCALE as int)
}

/// The camera-space point `(u, v, SCALE)` carried into world space by
/// the precomputed frame; the forward term needs no scaling since its
/// weight `SCALE` cancels.
pub open spec fn rotated_v(c: Camera, x: int, y: int) -> V3 {
    add_v(add_v(scale_v(c.x_axis@, cam_u(c, x)), scale_v(c.y_axis@, cam_v(c, y))), c.z_axis@)
}

/// The world-space direction of the primary ray through pixel
/// `(x, y)`: the rotated point, normalized. Only a frame so degraded
/// that the rotated point shrinks to within a few raw units of zero —
/// where normalization has nothing left to work with — falls back to
/// the camera-space forward axis.
pub open spec fn cam_dir_v(c: Camera, x: int, y: int) -> V3 {
    if len_sq_v(rotated_v(c, x, y)) >= 9 {
        norm_v(rotated_v(c, x, y))
    } else {
        forward_v()
    }
}

impl Camera {
    /// Builds a camera at `position` looking along `direction`,
    /// precomputing the view rotation. Returns `None` for the
    /// degenerate configurations normalization cannot handle: a
    /// zero-length look direction, or one parallel to the world up
    /// axis.
    pub fn new(position: Vec3, direction: Vec3, image_width: i32, image_height: i32) -> (r:
        Option<Camera>)
        requires
            in_bounds(position@, MAX_SCENE as int),
            in_bounds(direction@, VEC_BOUND as int),
            image_width >= 1,
            image_height >= 1,
        ensures
            r is None <==> (len_sq_v(direction@) == 0 || len_sq_v(
                cross_v(up_v(), norm_v(direction@)),
            ) == 0),
            r is Some ==> {
                let c = r->Some_0;
                &&& c.position == position
                &&& c.direction == direction
                &&& c.image_width == image_width
                &&& c.image_height == image_height
                &&& c.z_axis@ == norm_v(direction@)
                &&& c.x_axis@ == norm_v(cross_v(up_v(), norm_v(direction@)))
                &&& c.y_axis@ == cross_v(c.z_axis@, c.x_axis@)
                &&& wf_camera(c)
            },
    {
        let q_dir: i64 = direction.len_squared();
        if q_dir == 0 {
            return None;
        }
        let z_axis: Vec3 = direction.normalized();
        let up: Vec3 = Vec3 { x: 0, y: SCALE, z: 0 };
        let c: Vec3 = up.cross(z_axis);
        proof {
            assert(up@ == up_v());
            lemma_cross_comp_bound(up@, z_axis@, c@);
        }
        let q_c: i64 = c.len_squared();
        if q_c == 0 {
            return None;
        }
        let x_axis: Vec3 = c.normalized();
        let y_axis: Vec3 = z_axis.cross(x_axis);
        proof {
            lemma_cross_comp_bound(z_axis@, x_axis@, y_axis@);
        }
        Some(
            Camera {
                position: position,
                direction: direction,
                image_width: image_width,
                image_height: image_height,
                x_axis: x_axis,
                y_axis: y_axis,
                z_axis: z_axis,
            },
        )
    }

    /// Returns a vector pointing at the point on the image plane
    /// defined by `x` and `y`, in world space and at unit length.
    /// Camera space keeps a nominal 2-by-2 extent (`-1` to `1` across
    /// both width and height), so images that are not square stretch a
    /// little rather than letterbox.
    pub fn from_image_coords(&self, x: i32, y: i32) -> (r: Vec3)
        requires
            wf_camera(*self),
            0 <= x < self.image_width,
            0 <= y < self.image_height,
        ensures
            r@ == cam_dir_v(*self, x as int, y as int),
            in_bounds(r@, SCALE as int),
            len_sq_v(r@) <= 2 * (SCALE as int) * (SCALE as int),
    {
        let xs: i64 = 131072 * (x as i64);
        let ys: i64 = 131072 * (y as i64);
        proof {
            assert(xs == 2 * (SCALE as int) * (x as int));
            assert(ys == 2 * (SCALE as int) * (y as int));
            lemma_pixel_coord_bound(x as int, self.image_width as int);
            lemma_pixel_coord_bound(y as int, self.image_height as int);
        }
        let u: i64 = div_pos(xs, self.image_width as i64) - SCALE;
        let v: i64 = -(div_pos(ys, self.image_height as i64) - SCALE);
        let xs_v: Vec3 = self.x_axis.mul(u);
        let ys_v: Vec3 = self.y_axis.mul(v);
        proof {
            lemma_axis_scale_bound(self.x_axis@, u as int, xs_v@);
            lemma_axis_scale_bound(self.y_axis@, v as int, ys_v@);
        }
        let rotated: Vec3 = xs_v.add(ys_v).add(self.z_axis);
        proof {
            assert(rotated@ == rotated_v(*self, x as int, y as int));
        }
        let q: i64 = rotated.len_squared();
        if q >= 9 {
            proof {
                lemma_norm_len_sq_upper(rotated@);
            }
            rotated.normalized()
        } else {
            Vec3 { x: 0, y: 0, z: SCALE }
        }
    }
}

/// The primary-ray direction has unit length to within the fixed-point
/// resolution whenever the rotated pixel point reaches one unit square
/// — which the frame a camera is built with gives everywhere but in a
/// degenerate remnant, since its axes are themselves near unit.
/// Together with `from_image_coords` pinning its result to
/// `cam_dir_v`, a pure function of the camera and the pixel, this is
/// the direction contract of the camera: deterministic, and of unit
/// length.
pub proof fn lemma_camera_dir_unit(c: Camera, x: int, y: int)
    requires
        len_sq_v(rotated_v(c, x, y)) >= (SCALE as int) * (SCALE as int),
    ensures
        (SCALE as int) * (SCALE as int) - 4 * (SCALE as int) - 3 <= len_sq_v(cam_dir_v(c, x, y)),
        len_sq_v(cam_dir_v(c, x, y)) <= (SCALE as int) * (SCALE as int) + 2 * (SCALE as int),
{
    crate::vec::lemma_normalized_unit_window(rotated_v(c, x, y));
}

/// The scaled pixel coordinate `2 * SCALE * p / extent` lies in
/// `[0, 2 * SCALE)` for a pixel `p` inside the image.
proof fn lemma_pixel_coord_bound(p: int, extent: int)
    requires
        0 <= p < extent,
    ensures
        0 <= tdiv(2 * (SCALE as int) * p, extent) < 2 * (SCALE as int),
{
    let s2 = 2 * (SCALE as int);
    let q = tdiv(s2 * p, extent);
    lemma_tdiv_bounds(s2 * p, extent);
    assert(s2 * p >= 0) by (nonlinear_arith)
        requires
            s2 >= 0,
            p >= 0,
    ;
    assert(mag(q) * extent <= mag(s2 * p));
    assert(mag(s2 * p) == s2 * p);
    assert(s2 * p <= s2 * (extent - 1)) by (nonlinear_arith)
        requires
            s2 >= 0,
            p <= extent - 1,
    ;
    if q >= s2 {
        assert(q * extent >= s2 * extent) by (nonlinear_arith)
            requires
                q >= s2,
                extent >= 1,
        ;
        assert(s2 * extent == s2 * (extent - 1) + s2) by (nonlinear_arith);
        assert(false);
    }
}

/// Every component of a cross product of vectors bounded by `SCALE`
/// stays within `2 * SCALE`.
proof fn lemma_cross_comp_bound(a: V3, b: V3, c: V3)
    requires
        in_bounds(a, SCALE as int),
        in_bounds(b, SCALE as int),
        c == cross_v(a, b),
    ensures
        in_bounds(c, 2 * (SCALE as int)),
{
    let s = SCALE as int;
    lemma_mul_bound(a.y, b.z, s, s);
    lemma_mul_bound(a.z, b.y, s, s);
    lemma_mul_bound(a.z, b.x, s, s);
    lemma_mul_bound(a.x, b.z, s, s);
    lemma_mul_bound(a.x, b.y, s, s);
    lemma_mul_bound(a.y, b.x, s, s);
    lemma_tdiv_bounds(a.y * b.z - a.z * b.y, s);
    lemma_tdiv_bounds(a.z * b.x - a.x * b.z, s);
    lemma_tdiv_bounds(a.x * b.y - a.y * b.x, s);
}

/// Every component of a frame axis (within `2 * SCALE`) scaled by a
/// camera-space coordinate (within `2 * SCALE`) stays within
/// `4 * SCALE`.
proof fn lemma_axis_scale_bound(a: V3, k: int, r: V3)
    requires
        in_bounds(a, 131072),
        -131072 <= k <= 131072,
        r == scale_v(a, k),
    ensures
        in_bounds(r, 0x4_0000),
{
    lemma_mul_bound(a.x, k, 131072, 131072);
    lemma_mul_bound(a.y, k, 131072, 131072);
    lemma_mul_bound(a.z, k, 131072, 131072);
    lemma_div_mag_le(a.x * k, SCALE as int, 0x4_0000);
    lemma_div_mag_le(a.y * k, SCALE as int, 0x4_0000);
    lemma_div_mag_le(a.z * k, SCALE as int, 0x4_0000);
}

} // verus!
