//! Unit tests for the fixed-point scalar, vector, sphere and camera
//! layers. One world unit is 65536 raw units.

use raytracer::camera::Camera;
use raytracer::entities::Rgba8;
use raytracer::entities::Sphere;
use raytracer::fixed::div_pos;
use raytracer::fixed::isqrt;
use raytracer::fixed::SCALE;
use raytracer::intersection::Intersection;
use raytracer::ray::Ray;
use raytracer::vec::Vec3;

fn v(x: i64, y: i64, z: i64) -> Vec3 {
    Vec3 { x, y, z }
}

#[test]
fn it_works() {}

#[test]
fn isqrt_small_values() {
    assert_eq!(isqrt(0), 0);
    assert_eq!(isqrt(1), 1);
    assert_eq!(isqrt(3), 1);
    assert_eq!(isqrt(4), 2);
    assert_eq!(isqrt(15), 3);
    assert_eq!(isqrt(16), 4);
    assert_eq!(isqrt(1_073_741_824), 32768);
}

#[test]
fn isqrt_large_value() {
    let n: i64 = 0x4000_0000_0000_0000 - 1;
    let r = isqrt(n);
    assert!(r * r <= n);
    assert!((r + 1) * (r + 1) > n);
}

#[test]
fn div_pos_truncates_toward_zero() {
    assert_eq!(div_pos(7, 2), 3);
    assert_eq!(div_pos(-7, 2), -3);
    assert_eq!(div_pos(-1, 65536), 0);
    assert_eq!(div_pos(65537, 65536), 1);
}

#[test]
fn dot_product_exact() {
    let a = v(SCALE, 2 * SCALE, 3 * SCALE);
    let b = v(4 * SCALE, 5 * SCALE, 6 * SCALE);
    // (1*4 + 2*5 + 3*6) = 32 world units.
    assert_eq!(a.dot(b), 32 * SCALE);
}

#[test]
fn cross_product_exact() {
    let x = v(SCALE, 0, 0);
    let y = v(0, SCALE, 0);
    let c = x.cross(y);
    assert_eq!((c.x, c.y, c.z), (0, 0, SCALE));
    let anti = y.cross(x);
    assert_eq!((anti.x, anti.y, anti.z), (0, 0, -SCALE));
}

#[test]
fn add_sub_mul_div_exact() {
    let a = v(SCALE, -SCALE, 2 * SCALE);
    let b = v(3 * SCALE, SCALE, -SCALE);
    let s = a.add(b);
    assert_eq!((s.x, s.y, s.z), (4 * SCALE, 0, SCALE));
    let d = a.sub(b);
    assert_eq!((d.x, d.y, d.z), (-2 * SCALE, -2 * SCALE, 3 * SCALE));
    let m = a.mul(SCALE / 2);
    assert_eq!((m.x, m.y, m.z), (SCALE / 2, -SCALE / 2, SCALE));
    let q = a.div(2 * SCALE);
    assert_eq!((q.x, q.y, q.z), (SCALE / 2, -SCALE / 2, SCALE));
    let qn = v(SCALE, 0, -SCALE).div(-SCALE);
    assert_eq!((qn.x, qn.y, qn.z), (-SCALE, 0, SCALE));
}

#[test]
fn len_and_len_squared_exact() {
    // A 3-4-5 triangle: |(3, 4, 0)| == 5.
    let a = v(3 * SCALE, 4 * SCALE, 0);
    assert_eq!(a.len_squared(), 25 * SCALE * SCALE);
    assert_eq!(a.len(), 5 * SCALE);
}

// The normalize contract: for any non-zero vector (of at least unit
// length), the result has length one within the fixed-point tolerance.
#[test]
fn normalized_has_unit_length_within_tolerance() {
    let lo = SCALE * SCALE - 4 * SCALE - 3;
    let hi = SCALE * SCALE + 2 * SCALE;
    let samples = [
        v(3 * SCALE, 4 * SCALE, 0),
        v(SCALE, SCALE, SCALE),
        v(-7 * SCALE, 2 * SCALE, 9 * SCALE + 12345),
        v(0, 0, SCALE),
        v(100 * SCALE, -1, 3),
    ];
    for a in samples {
        let n = a.normalized();
        let q = n.len_squared();
        assert!(lo <= q && q <= hi, "length {q} outside [{lo}, {hi}]");
    }
    // The 3-4-5 case truncates each component toward zero, keeping
    // signs, and lands on an exactly representable length.
    let n = v(3 * SCALE, 4 * SCALE, 0).normalized();
    assert_eq!((n.x, n.y, n.z), (39321, 52428, 0));
    assert_eq!(n.len(), SCALE - 1);
    let m = v(-3 * SCALE, 4 * SCALE, 0).normalized();
    assert_eq!((m.x, m.y, m.z), (-39321, 52428, 0));
}

fn z_ray() -> Ray {
    Ray {
        origin: v(0, 0, 0),
        direction: v(0, 0, SCALE),
    }
}

fn plain_sphere(center: Vec3, radius: i64) -> Sphere {
    Sphere {
        center,
        radius,
        color: Rgba8 { r: 255, g: 255, b: 255, a: 255 },
    }
}

// A ray whose line passes the center farther than the radius misses.
#[test]
fn intersection_miss_reports_no_hit() {
    let s = plain_sphere(v(3 * SCALE, 0, 10 * SCALE), SCALE / 2);
    let hits = s.intersection(z_ray());
    assert_eq!(hits.len(), 0);
}

// A center projecting behind the origin is a policy miss, even though
// the line itself crosses the sphere.
#[test]
fn intersection_behind_origin_reports_no_hit() {
    let s = plain_sphere(v(0, 0, -10 * SCALE), SCALE / 2);
    let hits = s.intersection(z_ray());
    assert_eq!(hits.len(), 0);
}

// A ray through the center: roots are tca -/+ thc, and the reported
// hit is the near one.
#[test]
fn intersection_through_center_returns_near_root() {
    let s = plain_sphere(v(0, 0, 10 * SCALE), SCALE / 2);
    let hits = s.intersection(z_ray());
    assert_eq!(hits.len(), 1);
    let tca = 10 * SCALE;
    let thc = SCALE / 2;
    let near = tca - thc;
    let far = tca + thc;
    assert_eq!(hits[0].t, near);
    assert!(near < far);
    // The two roots are symmetric around tca.
    assert_eq!(near + far, 2 * tca);
}

// A tangent ray (d_sq == radius^2) yields exactly one hit at t == tca.
#[test]
fn intersection_tangent_hits_at_tca() {
    let s = plain_sphere(v(SCALE / 2, 0, 10 * SCALE), SCALE / 2);
    let hits = s.intersection(z_ray());
    assert_eq!(hits.len(), 1);
    assert_eq!(hits[0].t, 10 * SCALE);
}

#[test]
fn intersection_point_walks_the_ray() {
    let i = Intersection { ray: z_ray(), t: 3 * SCALE };
    let p = i.intersection_point();
    assert_eq!((p.x, p.y, p.z), (0, 0, 3 * SCALE));
}

#[test]
fn camera_new_rejects_degenerate_directions() {
    let pos = v(0, 0, 0);
    assert!(Camera::new(pos, v(0, 0, 0), 512, 512).is_none());
    // A look direction parallel to world up leaves no right axis.
    assert!(Camera::new(pos, v(0, SCALE, 0), 512, 512).is_none());
    assert!(Camera::new(pos, v(0, -3 * SCALE, 0), 512, 512).is_none());
}

#[test]
fn camera_new_builds_axis_frame() {
    let cam = Camera::new(v(0, 0, 0), v(0, 0, SCALE), 512, 512).unwrap();
    assert_eq!((cam.x_axis.x, cam.x_axis.y, cam.x_axis.z), (SCALE, 0, 0));
    assert_eq!((cam.y_axis.x, cam.y_axis.y, cam.y_axis.z), (0, SCALE, 0));
    assert_eq!((cam.z_axis.x, cam.z_axis.y, cam.z_axis.z), (0, 0, SCALE));
}

// Camera ray directions are deterministic and unit length.
#[test]
fn camera_ray_direction_deterministic_and_unit() {
    let cam = Camera::new(v(0, 0, 0), v(SCALE / 4, -SCALE / 8, SCALE), 640, 480).unwrap();
    let lo = SCALE * SCALE - 4 * SCALE - 3;
    let hi = SCALE * SCALE + 2 * SCALE;
    for (x, y) in [(0, 0), (17, 333), (639, 479), (320, 240)] {
        let a = cam.from_image_coords(x, y);
        let b = cam.from_image_coords(x, y);
        assert_eq!((a.x, a.y, a.z), (b.x, b.y, b.z));
        let q = a.len_squared();
        assert!(lo <= q && q <= hi, "length {q} outside [{lo}, {hi}]");
    }
}

#[test]
fn camera_center_pixel_looks_forward() {
    let cam = Camera::new(v(0, 0, 0), v(0, 0, SCALE), 512, 512).unwrap();
    let d = cam.from_image_coords(256, 256);
    assert_eq!((d.x, d.y, d.z), (0, 0, SCALE));
}

// For a tilted camera the center pixel's ray follows the normalized
// view direction, even though truncation leaves the rotated point a
// hair under one unit square.
#[test]
fn camera_tilted_center_pixel_follows_view_direction() {
    let cam = Camera::new(v(0, 0, 0), v(3 * SCALE, 4 * SCALE, 0), 512, 512).unwrap();
    // The frame's forward axis is the normalized look direction.
    assert_eq!(
        (cam.z_axis.x, cam.z_axis.y, cam.z_axis.z),
        (39321, 52428, 0)
    );
    let d = cam.from_image_coords(256, 256);
    assert_eq!((d.x, d.y, d.z), (39321, 52428, 0));
}
