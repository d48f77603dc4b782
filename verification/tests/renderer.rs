use ms3d::math::vec3d::{scalar_mul, ColorRGB, Vec3D};
use ms3d::math::ray::Ray;
use ms3d::num::SCALE;
use ms3d::objects::{Hittable, Moveable, Object, Origin, Scene, Sphere};
use ms3d::render::Camera;

const FAR: i64 = 100_000_000_000;

fn v(x: i64, y: i64, z: i64) -> Vec3D {
    Vec3D::new(x, y, z)
}

#[test]
fn vector_accessors() {
    let a = v(1, 2, 3);
    assert_eq!(a.x0(), 1);
    assert_eq!(a.x1(), 2);
    assert_eq!(a.x2(), 3);
    assert_eq!(a.x(), 1);
    assert_eq!(a.y(), 2);
    assert_eq!(a.z(), 3);
    assert_eq!(a.r(), 1);
    assert_eq!(a.g(), 2);
    assert_eq!(a.b(), 3);
    assert_eq!(a.bytes(), [1, 2, 3]);
    assert_eq!(Vec3D::zeros(), v(0, 0, 0));
    assert_eq!(Vec3D::black(), v(0, 0, 0));
    assert_eq!(Vec3D::white(), v(SCALE, SCALE, SCALE));
}

#[test]
fn vector_add_commutes() {
    let a = v(1_000_000, -2_000_000, 3_500_000);
    let b = v(-4_000_000, 5_000_000, 6_000_000);
    assert_eq!(a.add(b), b.add(a));
    assert_eq!(a.add(b), v(-3_000_000, 3_000_000, 9_500_000));
}

#[test]
fn vector_add_associates() {
    let a = v(1, 2, 3);
    let b = v(10, 20, 30);
    let c = v(100, 200, 300);
    assert_eq!(a.add(b).add(c), a.add(b.add(c)));
}

#[test]
fn vector_scalar_mul_commutes() {
    let a = v(1_000_000, -2_000_000, 3_000_000);
    let s = 500_000; // 0.5
    assert_eq!(a.mul(s), scalar_mul(s, a));
    assert_eq!(a.mul(s), v(500_000, -1_000_000, 1_500_000));
}

#[test]
fn vector_sub_neg_div() {
    let a = v(3_000_000, 2_000_000, 1_000_000);
    let b = v(1_000_000, 1_000_000, 1_000_000);
    assert_eq!(a.sub(b), v(2_000_000, 1_000_000, 0));
    assert_eq!(a.neg(), v(-3_000_000, -2_000_000, -1_000_000));
    assert_eq!(a.div(2_000_000), v(1_500_000, 1_000_000, 500_000));
    assert_eq!(a.div(-2_000_000), v(-1_500_000, -1_000_000, -500_000));
}

#[test]
fn vector_assign_ops() {
    let mut a = v(1_000_000, 0, 0);
    a.add_assign(v(0, 1_000_000, 0));
    assert_eq!(a, v(1_000_000, 1_000_000, 0));
    a.sub_assign(v(1_000_000, 0, 0));
    assert_eq!(a, v(0, 1_000_000, 0));
    a.mul_assign(2_000_000);
    assert_eq!(a, v(0, 2_000_000, 0));
    a.div_assign(4_000_000);
    assert_eq!(a, v(0, 500_000, 0));
}

#[test]
fn vector_dot_and_length() {
    let a = v(3_000_000, 4_000_000, 0);
    assert_eq!(a.length_squared(), 25_000_000); // 25.0
    assert_eq!(a.length(), 5_000_000); // 5.0
    let b = v(1_000_000, 0, 0);
    assert_eq!(a.dot(&b), 3_000_000);
}

#[test]
fn vector_cross_orthogonal_to_factors() {
    let a = v(1_000_000, 2_000_000, 3_000_000);
    let b = v(4_000_000, 5_000_000, 6_000_000);
    let c = a.cross(&b);
    assert_eq!(c, v(-3_000_000, 6_000_000, -3_000_000));
    // dot(a, cross(a, b)) == 0 (exactly, on these values)
    assert_eq!(a.dot(&c), 0);
    assert_eq!(b.dot(&c), 0);
}

#[test]
fn vector_unit_has_unit_length() {
    let a = v(0, 0, -5_000_000);
    let u = a.unit();
    assert_eq!(u, v(0, 0, -1_000_000));
    assert_eq!(u.length(), SCALE);
    let b = v(3_000_000, 4_000_000, 0);
    let ub = b.unit();
    assert_eq!(ub, v(600_000, 800_000, 0));
    assert_eq!(ub.length(), SCALE);
    // An oblique direction normalizes to unit length within four
    // millionths.
    let c = v(1_000_000, 1_000_000, 1_000_000);
    let uc = c.unit();
    assert!((SCALE - 4..=SCALE + 4).contains(&uc.length()));
}

#[test]
fn ray_at_zero_is_origin() {
    let origin = v(1_000_000, 2_000_000, 3_000_000);
    let ray = Ray::new(origin, v(5_000_000, -7_000_000, 11_000_000));
    assert_eq!(ray.at(0), origin);
    assert_eq!(ray.origin(), origin);
}

#[test]
fn ray_direction_normalized_on_construction() {
    let ray = Ray::new(v(0, 0, 0), v(0, 0, -3_000_000));
    assert_eq!(ray.dir(), v(0, 0, -1_000_000));
    let ray2 = Ray::new(v(0, 0, 0), v(3_000_000, 4_000_000, 0));
    assert_eq!(ray2.dir(), v(600_000, 800_000, 0));
    assert_eq!(ray2.dir().length(), SCALE);
}

#[test]
fn ray_at_walks_the_direction() {
    let ray = Ray::new(v(0, 0, 0), v(0, 0, -2_000_000));
    assert_eq!(ray.at(1_500_000), v(0, 0, -1_500_000));
}

#[test]
fn sphere_head_on_hit() {
    // Origin at distance 2.0 along the center direction, aimed at the
    // center, radius 0.5: hit at 2.0 - 0.5 = 1.5.
    let sphere = Sphere::new(0, 0, -2_000_000, 500_000);
    let ray = Ray::new(v(0, 0, 0), v(0, 0, -1_000_000));
    let rec = sphere.hit(ray, 0, FAR).expect("head-on ray must hit");
    assert_eq!(rec.dist, 1_500_000);
    assert!(rec.is_front);
    assert_eq!(rec.normal, v(0, 0, 1_000_000));
    assert_eq!(rec.color, rec.normal);
    assert_eq!(rec.point, v(0, 0, -1_500_000));
    // The normal points from the center toward the intersection point.
    let to_center = Vec3D::new(0, 0, -2_000_000).sub(rec.point);
    assert!(rec.normal.dot(&to_center) < 0);
}

#[test]
fn sphere_missed_by_offset_ray() {
    // Perpendicular offset 2.0 is greater than radius 0.5: no hit.
    let sphere = Sphere::new(0, 0, -2_000_000, 500_000);
    let ray = Ray::new(v(2_000_000, 0, 0), v(0, 0, -1_000_000));
    assert!(sphere.hit(ray, 0, FAR).is_none());
}

#[test]
fn sphere_behind_range_reports_no_hit() {
    // The near root lies behind dist_min; the far root is never tried.
    let sphere = Sphere::new(0, 0, -2_000_000, 500_000);
    let ray = Ray::new(v(0, 0, 0), v(0, 0, -1_000_000));
    assert!(sphere.hit(ray, 2_000_000, FAR).is_none());
}

#[test]
fn scene_reports_nearer_of_two_spheres() {
    let mut scene = Scene::new();
    scene.add(Object::Sphere(Sphere::new(0, 0, -5_000_000, 500_000)));
    scene.add(Object::Sphere(Sphere::new(0, 0, -2_000_000, 500_000)));
    let ray = Ray::new(v(0, 0, 0), v(0, 0, -1_000_000));
    let rec = scene.hit(ray, 0, FAR).expect("scene always reports a record");
    assert_eq!(rec.dist, 1_500_000);
    assert_eq!(rec.point, v(0, 0, -1_500_000));
}

#[test]
fn empty_scene_reports_background() {
    let scene = Scene::new();
    let ray = Ray::new(v(0, 0, 0), v(0, 0, -1_000_000));
    let rec = scene.hit(ray, 0, FAR).expect("scene always reports a record");
    assert_eq!(rec.dist, 0);
    assert!(rec.is_front);
    assert_eq!(rec.normal, v(0, 0, 0));
    assert_eq!(rec.point, v(0, 0, 0));
    // Horizontal ray: halfway between white and the sky color.
    assert_eq!(rec.color, v(600_000, 700_000, 600_000));
    // A ray straight up shows the pure sky color.
    let up = Ray::new(v(0, 0, 0), v(0, 5_000_000, 0));
    let rec_up = scene.hit(up, 0, FAR).unwrap();
    assert_eq!(rec_up.color, v(200_000, 400_000, 200_000));
    assert_eq!(rec_up.dist, 0);
}

#[test]
fn camera_default_dimensions() {
    let cam = Camera::with_default_dimensions(640, 480);
    assert_eq!(cam.viewport_width, 640);
    assert_eq!(cam.viewport_height, 480);
    assert_eq!(cam.width, 2_000_000);
    assert_eq!(cam.height, 1_500_000);
    assert_eq!(cam.focal_length, 1_000_000);
    assert_eq!(cam.origin, v(0, 0, 0));
    assert_eq!(cam.dir, v(0, 0, -1_000_000));
}

#[test]
fn camera_look_at_normalizes() {
    let mut cam = Camera::with_default_dimensions(64, 64);
    cam.look_at(v(0, -7_000_000, 0));
    assert_eq!(cam.dir, v(0, -1_000_000, 0));
    cam.look_at(v(3_000_000, 4_000_000, 0));
    assert_eq!(cam.dir, v(600_000, 800_000, 0));
}

#[test]
fn render_single_sample_is_reproducible() {
    let cam = Camera::with_default_dimensions(2, 2);
    let mut scene = Scene::new();
    scene.add(Object::Sphere(Sphere::new(0, 0, -1_500_000, 500_000)));
    let first = cam.render_single_sample(&scene);
    let second = cam.render_single_sample(&scene);
    assert_eq!(first.len(), 4);
    assert_eq!(first, second);
}

#[test]
fn render_grid_size_matches_viewport() {
    let cam = Camera::with_default_dimensions(4, 3);
    let mut scene = Scene::new();
    scene.add(Object::Sphere(Sphere::new(0, 0, -1_500_000, 500_000)));
    let out = cam.render(&scene);
    assert_eq!(out.len(), 12);
}

#[test]
fn render_center_pixel_shows_normal_corners_show_background() {
    // Camera at the origin looking down -z over a 2x2-unit viewport;
    // a single sphere of radius 0.5 sits 1.5 units straight ahead.
    let cam = Camera::with_default_dimensions(3, 3);
    let mut scene = Scene::new();
    scene.add(Object::Sphere(Sphere::new(0, 0, -1_500_000, 500_000)));
    let lit = cam.render_single_sample(&scene);
    let empty = Scene::new();
    let bg = cam.render_single_sample(&empty);
    assert_eq!(lit.len(), 9);
    // The center pixel reports the surface normal nearest the camera:
    // (0, 0, 1).
    assert_eq!(lit[4], v(0, 0, 1_000_000));
    // The corner pixels miss the sphere and show the background
    // gradient.
    for idx in [0usize, 2, 6, 8] {
        assert_eq!(lit[idx], bg[idx]);
        assert_ne!(lit[idx], lit[4]);
    }
}

#[test]
fn origin_moves() {
    let mut o = Origin::new(1, 2, 3);
    assert_eq!(o.location(), v(1, 2, 3));
    o.move_to(v(5, 5, 5));
    assert_eq!(o.location(), v(5, 5, 5));
    o.move_by(1, -1, 2);
    assert_eq!(o.location(), v(6, 4, 7));
    let c = Origin::at_center();
    assert_eq!(c.location(), v(0, 0, 0));
}

#[test]
fn colors_average_over_samples() {
    // With an empty scene every jittered sample sees the same
    // background for a horizontal ray, so the random render and the
    // deterministic one agree on rays whose direction jitter cannot
    // change the vertical component sign... use a 1x1 viewport and
    // compare grid sizes instead of exact colors.
    let cam = Camera::with_default_dimensions(1, 1);
    let scene = Scene::new();
    let out = cam.render(&scene);
    assert_eq!(out.len(), 1);
    let one: ColorRGB = out[0];
    // Every channel of a background average stays within [0, 2].
    for ch in [one.x(), one.y(), one.z()] {
        assert!((0..=2_000_000).contains(&ch));
    }
}
