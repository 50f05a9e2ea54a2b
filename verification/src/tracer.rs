//! The tracer: nearest-hit selection among the entities, the shadow
//! test, and the final pixel color.

use vstd::prelude::*;

use crate::camera::cam_dir_v;
use crate::entities::hit_t_spec;
use crate::entities::lemma_hit_t_range;
use crate::entities::lemma_primary_hit_point_bound;
use crate::entities::sphere_hit;
use crate::entities::wf_sphere;
use crate::entities::Rgba8;
use crate::entities::Sphere;
use crate::entities::MAX_TCA;
use crate::fixed::div_pos;
use crate::fixed::lemma_div_mag_le;
use crate::fixed::lemma_mul_bound;
use crate::fixed::lemma_mul_nonneg;
use crate::fixed::SCALE;
use crate::fixed::tdiv;
use crate::intersection::point_at_v;
use crate::intersection::Intersection;
use crate::ray::wf_ray;
use crate::ray::Ray;
use crate::scene::wf_scene;
use crate::scene::Scene;
use crate::vec::len_sq_v;
use crate::vec::lemma_norm_len_sq_upper;
use crate::vec::norm_v;
use crate::vec::scale_v;
use crate::vec::sub_v;
use crate::vec::V3;
use crate::vec::Vec3;

verus! {

/// Does the sphere report a hit that is not behind the ray origin?
pub open spec fn visible_hit(s: Sphere, o: V3, d: V3) -> bool {
    &&& sphere_hit(s, o, d)
    &&& hit_t_spec(s, o, d) >= 0
}

/// The point where the visible hit lies.
pub open spec fn hit_point_v(s: Sphere, o: V3, d: V3) -> V3 {
    point_at_v(o, d, hit_t_spec(s, o, d))
}

/// Squared distance from the ray origin to the hit point.
pub open spec fn hit_dist_sq(s: Sphere, o: V3, d: V3) -> int {
    len_sq_v(sub_v(hit_point_v(s, o, d), o))
}

/// Index of the entity the scan keeps after examining the first `n`:
/// the first among them whose visible hit has minimal squared
/// distance, or `-1` when none of them is hit.
pub open spec fn best_idx_upto(o: V3, d: V3, es: Seq<Sphere>, n: int) -> int
    decreases n,
{
    if n <= 0 {
        -1
    } else {
        let prev = best_idx_upto(o, d, es, n - 1);
        if !visible_hit(es[n - 1], o, d) {
            prev
        } else if prev == -1 || hit_dist_sq(es[n - 1], o, d) < hit_dist_sq(es[prev], o, d) {
            n - 1
        } else {
            prev
        }
    }
}

/// Index of the entity whose visible hit the whole scan keeps.
pub open spec fn best_idx(o: V3, d: V3, es: Seq<Sphere>) -> int {
    best_idx_upto(o, d, es, es.len() as int)
}

/// The kept index is a real index with a visible hit (or `-1` exactly
/// when nothing is hit), its squared distance is minimal, and every
/// earlier entity with a visible hit is strictly farther: ties go to
/// the entity met first in iteration order.
pub proof fn lemma_best_idx_props(o: V3, d: V3, es: Seq<Sphere>, n: int)
    requires
        0 <= n <= es.len(),
    ensures
        ({
            let b = best_idx_upto(o, d, es, n);
            &&& (b == -1 ==> forall|j: int| 0 <= j < n ==> !visible_hit(es[j], o, d))
            &&& (b != -1 ==> {
                &&& 0 <= b < n
                &&& visible_hit(es[b], o, d)
                &&& forall|j: int|
                    0 <= j < n && visible_hit(es[j], o, d) ==> hit_dist_sq(es[b], o, d)
                        <= hit_dist_sq(es[j], o, d)
                &&& forall|j: int|
                    0 <= j < b && visible_hit(es[j], o, d) ==> hit_dist_sq(es[b], o, d)
                        < hit_dist_sq(es[j], o, d)
            })
        }),
    decreases n,
{
    if n > 0 {
        lemma_best_idx_props(o, d, es, n - 1);
    }
}

/// Index of the nearest visible (`t >= 0`) intersection in a list: the
/// first with minimal `t`, or `-1` when every element lies behind the
/// origin.
pub open spec fn closest_visible_upto(l: Seq<Intersection>, n: int) -> int
    decreases n,
{
    if n <= 0 {
        -1
    } else {
        let prev = closest_visible_upto(l, n - 1);
        if l[n - 1].t < 0 {
            prev
        } else if prev == -1 {
            n - 1
        } else if l[n - 1].t < l[prev].t {
            n - 1
        } else {
            prev
        }
    }
}

/// Index of the nearest visible intersection over the whole list.
pub open spec fn closest_visible(l: Seq<Intersection>) -> int {
    closest_visible_upto(l, l.len() as int)
}

/// Among the intersections one entity reports, keeps the nearest one
/// that is not behind the ray origin (`t >= 0`): hits behind the
/// origin matter for shadow rays, whose origin sits on a surface.
pub fn get_closest_visible_intersection(intersections: Vec<Intersection>) -> (r: Option<
    Intersection,
>)
    ensures
        closest_visible(intersections@) == -1 <==> r is None,
        closest_visible(intersections@) != -1 ==> r == Some(
            intersections@[closest_visible(intersections@)],
        ),
{
    let mut result: Option<Intersection> = None;
    let mut i: usize = 0;
    while i < intersections.len()
        invariant
            0 <= i <= intersections@.len(),
            closest_visible_upto(intersections@, i as int) == -1 <==> result is None,
            closest_visible_upto(intersections@, i as int) != -1 ==> result == Some(
                intersections@[closest_visible_upto(intersections@, i as int)],
            ),
        decreases intersections@.len() - i,
    {
        let x: Intersection = intersections[i];
        if x.t >= 0 {
            match result {
                None => {
                    result = Some(x);
                },
                Some(cur) => {
                    if x.t < cur.t {
                        result = Some(x);
                    }
                },
            }
        }
        i = i + 1;
    }
    result
}

/// An entity hit by a ray: the entity, the intersection kept for it,
/// and the squared distance from the ray origin to the hit point.
#[derive(Clone, Copy, Debug, PartialEq, Eq, Structural)]
pub struct IntersectingEntity {
    pub entity: Sphere,
    pub intersection: Intersection,
    pub distance_squared: i64,
}

/// Runs every entity's intersection test and keeps the one whose
/// visible hit point lies nearest the ray origin (squared distances
/// compare the same way as distances, and spare the square root). Ties
/// go to the entity met first. Returns `None` when the list is empty
/// or nothing is hit.
pub fn find_closest_intersecting_entity(ray: Ray, entities: &Vec<Sphere>) -> (r: Option<
    IntersectingEntity,
>)
    requires
        wf_ray(ray),
        forall|k: int| 0 <= k < entities@.len() ==> wf_sphere(entities@[k]),
    ensures
        ({
            let b = best_idx(ray.origin@, ray.direction@, entities@);
            &&& (b == -1 <==> r is None)
            &&& (b != -1 ==> {
                &&& r is Some
                &&& r->Some_0.entity == entities@[b]
                &&& r->Some_0.intersection.ray == ray
                &&& r->Some_0.intersection.t == hit_t_spec(entities@[b], ray.origin@, ray.direction@)
                &&& r->Some_0.distance_squared == hit_dist_sq(entities@[b], ray.origin@, ray.direction@)
            })
        }),
{
    let mut closest: Option<IntersectingEntity> = None;
    let mut i: usize = 0;
    while i < entities.len()
        invariant
            wf_ray(ray),
            forall|k: int| 0 <= k < entities@.len() ==> wf_sphere(entities@[k]),
            0 <= i <= entities@.len(),
            ({
                let b = best_idx_upto(ray.origin@, ray.direction@, entities@, i as int);
                &&& (b == -1 <==> closest is None)
                &&& (b != -1 ==> {
                    &&& closest is Some
                    &&& closest->Some_0.entity == entities@[b]
                    &&& closest->Some_0.intersection.ray == ray
                    &&& closest->Some_0.intersection.t == hit_t_spec(
                        entities@[b],
                        ray.origin@,
                        ray.direction@,
                    )
                    &&& closest->Some_0.distance_squared == hit_dist_sq(
                        entities@[b],
                        ray.origin@,
                        ray.direction@,
                    )
                })
            }),
        decreases entities@.len() - i,
    {
        let entity: Sphere = entities[i];
        let intersections: Vec<Intersection> = entity.intersection(ray);
        proof {
            assert(closest_visible_upto(intersections@, 0) == -1);
        }
        let closest_visible_hit: Option<Intersection> = get_closest_visible_intersection(
            intersections,
        );
        match closest_visible_hit {
            None => {
                proof {
                    assert(!visible_hit(entities@[i as int], ray.origin@, ray.direction@));
                }
            },
            Some(intersection) => {
                proof {
                    assert(visible_hit(entities@[i as int], ray.origin@, ray.direction@));
                    assert(intersection.t == hit_t_spec(
                        entities@[i as int],
                        ray.origin@,
                        ray.direction@,
                    ));
                    lemma_hit_t_range(entities@[i as int], ray.origin@, ray.direction@);
                    lemma_mul_bound(ray.direction@.x, intersection.t as int, 65536, MAX_TCA as int);
                    lemma_mul_bound(ray.direction@.y, intersection.t as int, 65536, MAX_TCA as int);
                    lemma_mul_bound(ray.direction@.z, intersection.t as int, 65536, MAX_TCA as int);
                    lemma_div_mag_le(
                        ray.direction@.x * (intersection.t as int),
                        SCALE as int,
                        MAX_TCA as int,
                    );
                    lemma_div_mag_le(
                        ray.direction@.y * (intersection.t as int),
                        SCALE as int,
                        MAX_TCA as int,
                    );
                    lemma_div_mag_le(
                        ray.direction@.z * (intersection.t as int),
                        SCALE as int,
                        MAX_TCA as int,
                    );
                }
                let ip: Vec3 = intersection.intersection_point();
                let diff: Vec3 = ip.sub(ray.origin);
                proof {
                    assert(diff@ == sub_v(
                        hit_point_v(entities@[i as int], ray.origin@, ray.direction@),
                        ray.origin@,
                    ));
                    assert(diff@ == scale_v(ray.direction@, intersection.t as int));
                }
                let distance_squared: i64 = diff.len_squared();
                match closest {
                    None => {
                        closest = Some(
                            IntersectingEntity {
                                entity: entity,
                                intersection: intersection,
                                distance_squared: distance_squared,
                            },
                        );
                    },
                    Some(current_closest) => {
                        if distance_squared < current_closest.distance_squared {
                            closest = Some(
                                IntersectingEntity {
                                    entity: entity,
                                    intersection: intersection,
                                    distance_squared: distance_squared,
                                },
                            );
                        }
                    },
                }
            },
        }
        i = i + 1;
    }
    closest
}

/// One channel scaled by the fixed-point brightness factor.
pub open spec fn scaled_channel(c: u8, b: int) -> int {
    tdiv(c * b, SCALE as int)
}

/// Scales the R, G and B channels by the light's brightness; the alpha
/// channel passes through unscaled, so a fully lit opaque surface
/// stays opaque at any brightness.
pub fn apply_brightness_to_color(color: Rgba8, brightness: i64) -> (r: Rgba8)
    requires
        0 <= brightness <= SCALE,
    ensures
        r.r == scaled_channel(color.r, brightness as int),
        r.g == scaled_channel(color.g, brightness as int),
        r.b == scaled_channel(color.b, brightness as int),
        r.a == color.a,
{
    proof {
        lemma_mul_bound(color.r as int, brightness as int, 255, 65536);
        lemma_mul_bound(color.g as int, brightness as int, 255, 65536);
        lemma_mul_bound(color.b as int, brightness as int, 255, 65536);
        lemma_mul_nonneg(color.r as int, brightness as int);
        lemma_mul_nonneg(color.g as int, brightness as int);
        lemma_mul_nonneg(color.b as int, brightness as int);
        lemma_div_mag_le((color.r as int) * (brightness as int), SCALE as int, 255);
        lemma_div_mag_le((color.g as int) * (brightness as int), SCALE as int, 255);
        lemma_div_mag_le((color.b as int) * (brightness as int), SCALE as int, 255);
    }
    let rr: i64 = div_pos((color.r as i64) * brightness, SCALE);
    let rg: i64 = div_pos((color.g as i64) * brightness, SCALE);
    let rb: i64 = div_pos((color.b as i64) * brightness, SCALE);
    Rgba8 { r: rr as u8, g: rg as u8, b: rb as u8, a: color.a }
}

/// Transparent black: the pixel where no entity is hit.
pub open spec fn transparent_v() -> Rgba8 {
    Rgba8 { r: 0, g: 0, b: 0, a: 0 }
}

/// Opaque black: the pixel whose surface point lies in shadow.
pub open spec fn shadow_black_v() -> Rgba8 {
    Rgba8 { r: 0, g: 0, b: 0, a: 255 }
}

/// The lit result: each color channel scaled by the brightness, alpha
/// passed through.
pub open spec fn lit_post(r: Rgba8, c: Rgba8, b: int) -> bool {
    &&& r.r == scaled_channel(c.r, b)
    &&& r.g == scaled_channel(c.g, b)
    &&& r.b == scaled_channel(c.b, b)
    &&& r.a == c.a
}

/// What `trace` returns for pixel `(x, y)`: transparent black when
/// nothing is hit; otherwise, for the entity kept by nearest-hit
/// selection, opaque black when the shadow ray from the hit point
/// toward the light strikes any entity, and the entity's color scaled
/// by the brightness when it does not. A light closer to the hit point
/// than the fixed-point resolution can resolve leaves the point lit.
pub open spec fn trace_post(sc: &Scene, x: int, y: int, r: Rgba8) -> bool {
    let o = sc.camera.position@;
    let d = cam_dir_v(*sc.camera, x, y);
    let es = sc.entities@;
    let b = best_idx(o, d, es);
    if es.len() == 0 {
        r == transparent_v()
    } else if b == -1 {
        r == transparent_v()
    } else {
        let s = es[b];
        let ip = hit_point_v(s, o, d);
        let tl = sub_v(sc.light.position@, ip);
        if len_sq_v(tl) < 9 {
            lit_post(r, s.color, sc.light.brightness as int)
        } else if best_idx(ip, norm_v(tl), es) != -1 {
            r == shadow_black_v()
        } else {
            lit_post(r, s.color, sc.light.brightness as int)
        }
    }
}

/// Traces the pixel `(canvas_x, canvas_y)`: builds the primary ray
/// from the camera, keeps the nearest visible hit among all entities,
/// casts one shadow ray from the hit point toward the light, and
/// returns the resulting color.
pub fn trace(scene: &Scene, canvas_x: i32, canvas_y: i32) -> (r: Rgba8)
    requires
        wf_scene(scene),
        0 <= canvas_x < scene.camera.image_width,
        0 <= canvas_y < scene.camera.image_height,
    ensures
        trace_post(scene, canvas_x as int, canvas_y as int, r),
        scene.entities@.len() == 0 ==> r == transparent_v(),
{
    if scene.entities.len() == 0 {
        return Rgba8 { r: 0, g: 0, b: 0, a: 0 };
    }
    let dir: Vec3 = scene.camera.from_image_coords(canvas_x, canvas_y);
    let camera_ray: Ray = Ray { origin: scene.camera.position, direction: dir };
    let intersecting_entity: Option<IntersectingEntity> = find_closest_intersecting_entity(
        camera_ray,
        &scene.entities,
    );
    match intersecting_entity {
        None => Rgba8 { r: 0, g: 0, b: 0, a: 0 },
        Some(ie) => {
            proof {
                let o = scene.camera.position@;
                let d = dir@;
                let es = scene.entities@;
                let b = best_idx(o, d, es);
                lemma_best_idx_props(o, d, es, es.len() as int);
                lemma_hit_t_range(es[b], o, d);
                lemma_primary_hit_point_bound(es[b], o, d);
            }
            let ip: Vec3 = ie.intersection.intersection_point();
            let to_light: Vec3 = scene.light.position.sub(ip);
            let q: i64 = to_light.len_squared();
            if q < 9 {
                return apply_brightness_to_color(ie.entity.get_color(), scene.light.brightness);
            }
            let shadow_dir: Vec3 = to_light.normalized();
            proof {
                lemma_norm_len_sq_upper(to_light@);
            }
            let shadow_ray: Ray = Ray { origin: ip, direction: shadow_dir };
            let shadow_hit: Option<IntersectingEntity> = find_closest_intersecting_entity(
                shadow_ray,
                &scene.entities,
            );
            match shadow_hit {
                None => apply_brightness_to_color(ie.entity.get_color(), scene.light.brightness),
                Some(_) => Rgba8 { r: 0, g: 0, b: 0, a: 255 },
            }
        },
    }
}

} // verus!
