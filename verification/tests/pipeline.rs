//! End-to-end tests of nearest-hit selection, shading and `trace`.
//! One world unit is 65536 raw units.

use raytracer::camera::Camera;
use raytracer::entities::Light;
use raytracer::entities::Rgba8;
use raytracer::entities::Sphere;
use raytracer::fixed::SCALE;
use raytracer::intersection::Intersection;
use raytracer::ray::Ray;
use raytracer::scene::Scene;
use raytracer::tracer::apply_brightness_to_color;
use raytracer::tracer::find_closest_intersecting_entity;
use raytracer::tracer::get_closest_visible_intersection;
use raytracer::tracer::trace;
use raytracer::vec::Vec3;

fn v(x: i64, y: i64, z: i64) -> Vec3 {
    Vec3 { x, y, z }
}

fn z_ray() -> Ray {
    Ray {
        origin: v(0, 0, 0),
        direction: v(0, 0, SCALE),
    }
}

fn rgba(r: u8, g: u8, b: u8, a: u8) -> Rgba8 {
    Rgba8 { r, g, b, a }
}

fn sphere(center: Vec3, radius: i64, color: Rgba8) -> Sphere {
    Sphere { center, radius, color }
}

fn forward_camera() -> Camera {
    Camera::new(v(0, 0, 0), v(0, 0, SCALE), 512, 512).unwrap()
}

#[test]
fn closest_visible_filters_negative_and_keeps_first_minimum() {
    let r = z_ray();
    let mk = |t: i64| Intersection { ray: r, t };
    assert!(get_closest_visible_intersection(vec![]).is_none());
    assert!(get_closest_visible_intersection(vec![mk(-1), mk(-5)]).is_none());
    let kept = get_closest_visible_intersection(vec![mk(5), mk(-3), mk(2), mk(2), mk(7)]).unwrap();
    assert_eq!(kept.t, 2);
}

#[test]
fn find_closest_picks_nearest_entity() {
    let near = sphere(v(0, 0, 5 * SCALE), SCALE / 2, rgba(1, 0, 0, 255));
    let far = sphere(v(0, 0, 10 * SCALE), SCALE / 2, rgba(2, 0, 0, 255));
    let entities = vec![far, near];
    let kept = find_closest_intersecting_entity(z_ray(), &entities).unwrap();
    assert_eq!(kept.entity.color.r, 1);
    assert_eq!(kept.intersection.t, 5 * SCALE - SCALE / 2);
}

#[test]
fn find_closest_breaks_ties_by_first_in_order() {
    let a = sphere(v(0, 0, 5 * SCALE), SCALE / 2, rgba(1, 0, 0, 255));
    let b = sphere(v(0, 0, 5 * SCALE), SCALE / 2, rgba(2, 0, 0, 255));
    let kept = find_closest_intersecting_entity(z_ray(), &vec![a, b]).unwrap();
    assert_eq!(kept.entity.color.r, 1);
}

#[test]
fn find_closest_none_when_nothing_is_hit() {
    let s = sphere(v(5 * SCALE, 0, 5 * SCALE), SCALE / 2, rgba(1, 0, 0, 255));
    assert!(find_closest_intersecting_entity(z_ray(), &vec![s]).is_none());
    assert!(find_closest_intersecting_entity(z_ray(), &vec![]).is_none());
}

// Brightness scaling: 0.5 on (200, 100, 50, 255) gives (100, 50, 25,
// 255), the alpha channel unscaled.
#[test]
fn brightness_scales_color_channels_only() {
    let c = apply_brightness_to_color(rgba(200, 100, 50, 255), SCALE / 2);
    assert_eq!((c.r, c.g, c.b, c.a), (100, 50, 25, 255));
}

#[test]
fn brightness_one_keeps_color_and_zero_blacks_it() {
    let c = apply_brightness_to_color(rgba(200, 100, 50, 137), SCALE);
    assert_eq!((c.r, c.g, c.b, c.a), (200, 100, 50, 137));
    let z = apply_brightness_to_color(rgba(200, 100, 50, 137), 0);
    assert_eq!((z.r, z.g, z.b, z.a), (0, 0, 0, 137));
}

// A scene with one sphere at (0, 0, 10), radius 0.5, the camera at the
// origin looking down +Z on a 512x512 image, the light at (0, 10, 0)
// at full brightness: the center pixel shows the sphere's own color
// (nothing else can shadow it), and a far corner pixel misses.
#[test]
fn single_sphere_center_pixel_lit_corner_transparent() {
    let color = rgba(10, 200, 30, 255);
    let camera = forward_camera();
    let entities = vec![sphere(v(0, 0, 10 * SCALE), SCALE / 2, color)];
    let light = Light { position: v(0, 10 * SCALE, 0), brightness: SCALE };
    let scene = Scene { camera: &camera, entities: &entities, light: &light };
    let center = trace(&scene, 256, 256);
    assert_eq!((center.r, center.g, center.b, center.a), (10, 200, 30, 255));
    let corner = trace(&scene, 0, 0);
    assert_eq!((corner.r, corner.g, corner.b, corner.a), (0, 0, 0, 0));
}

// An empty entity list gives transparent black at every pixel.
#[test]
fn empty_scene_every_pixel_transparent() {
    let camera = forward_camera();
    let entities = vec![];
    let light = Light { position: v(3 * SCALE, 10 * SCALE, -SCALE), brightness: SCALE / 3 };
    let scene = Scene { camera: &camera, entities: &entities, light: &light };
    for (x, y) in [(0, 0), (256, 256), (511, 511), (13, 400)] {
        let p = trace(&scene, x, y);
        assert_eq!((p.r, p.g, p.b, p.a), (0, 0, 0, 0));
    }
}

// A second sphere directly between the lit surface point and the light
// turns the pixel opaque black; without it the same pixel is lit.
#[test]
fn blocking_sphere_casts_hard_shadow() {
    let color = rgba(10, 200, 30, 255);
    let target = sphere(v(0, 0, 10 * SCALE), SCALE / 2, color);
    let blocker = sphere(
        v(0, 5 * SCALE, 9 * SCALE + SCALE / 4),
        SCALE / 2,
        rgba(200, 0, 0, 255),
    );
    let light = Light { position: v(0, 10 * SCALE, 9 * SCALE), brightness: SCALE };
    let camera = forward_camera();
    let blocked_entities = vec![target, blocker];
    let shadowed = Scene { camera: &camera, entities: &blocked_entities, light: &light };
    let p = trace(&shadowed, 256, 256);
    assert_eq!((p.r, p.g, p.b, p.a), (0, 0, 0, 255));
    let lone_entity = vec![target];
    let unblocked = Scene { camera: &camera, entities: &lone_entity, light: &light };
    let q = trace(&unblocked, 256, 256);
    assert_eq!((q.r, q.g, q.b, q.a), (10, 200, 30, 255));
}

// The shadow test is not clipped to the segment before the light: an
// entity on the shadow ray but beyond the light still darkens the
// pixel. This mirrors the adopted design, which leaves that
// imprecision in place.
#[test]
fn entity_beyond_light_still_casts_shadow() {
    let target = sphere(v(0, 0, 10 * SCALE), SCALE / 2, rgba(10, 200, 30, 255));
    let beyond = sphere(
        v(0, 20 * SCALE, 8 * SCALE + SCALE / 2),
        SCALE / 2,
        rgba(200, 0, 0, 255),
    );
    let light = Light { position: v(0, 10 * SCALE, 9 * SCALE), brightness: SCALE };
    let camera = forward_camera();
    let entities = vec![target, beyond];
    let scene = Scene { camera: &camera, entities: &entities, light: &light };
    let p = trace(&scene, 256, 256);
    assert_eq!((p.r, p.g, p.b, p.a), (0, 0, 0, 255));
}

// Half brightness on the single-sphere scene scales the hit color
// channel-wise, alpha unscaled.
#[test]
fn half_brightness_scales_traced_pixel() {
    let camera = forward_camera();
    let entities = vec![sphere(v(0, 0, 10 * SCALE), SCALE / 2, rgba(200, 100, 50, 255))];
    let light = Light { position: v(0, 10 * SCALE, 0), brightness: SCALE / 2 };
    let scene = Scene { camera: &camera, entities: &entities, light: &light };
    let p = trace(&scene, 256, 256);
    assert_eq!((p.r, p.g, p.b, p.a), (100, 50, 25, 255));
}
