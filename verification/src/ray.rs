//! Rays: an origin and a scaled direction.

use vstd::prelude::*;

use crate::fixed::SCALE;
use crate::vec::Vec3;
use crate::vec::in_bounds;
use crate::vec::len_sq_v;

verus! {

/// Largest component magnitude of a ray origin the intersection test
/// accepts; primary rays start at the camera and shadow rays at a hit
/// point, both of which stay well inside it.
pub const MAX_ORIGIN: i64 = 0x800_0000;

/// A ray in a scene.
#[derive(Clone, Copy, Debug, PartialEq, Eq, Structural)]
pub struct Ray {
    pub origin: Vec3,
    pub direction: Vec3,
}

/// Well-formed ray: the origin lies within the working bounds and the
/// direction is scaled the way every producer (camera and shadow-ray
/// construction) hands it out — components within `SCALE` and a squared
/// length of at most twice the unit square.
pub open spec fn wf_ray(r: Ray) -> bool {
    &&& in_bounds(r.origin@, MAX_ORIGIN as int)
    &&& in_bounds(r.direction@, SCALE as int)
    &&& len_sq_v(r.direction@) <= 2 * (SCALE as int) * (SCALE as int)
}

} // verus!
