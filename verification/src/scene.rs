//! The read-only scene aggregate: camera, entities, light.

use vstd::prelude::*;

use crate::camera::Camera;
use crate::camera::wf_camera;
use crate::entities::Light;
use crate::entities::Sphere;
use crate::entities::wf_light;
use crate::entities::wf_sphere;

verus! {

/// A scene: one camera, the entity list, and a single light, borrowed
/// for the duration of a render. The aggregate owns nothing and is
/// read only; entity order matters only for tie-breaking among equally
/// near hits.
pub struct Scene<'a> {
    pub camera: &'a Camera,
    pub entities: &'a Vec<Sphere>,
    pub light: &'a Light,
}

/// Well-formed scene: camera, light and every entity well-formed.
pub open spec fn wf_scene(s: &Scene) -> bool {
    &&& wf_camera(*s.camera)
    &&& wf_light(*s.light)
    &&& forall|i: int| 0 <= i < s.entities@.len() ==> wf_sphere(s.entities@[i])
}

} // verus!
