use rand::rngs::StdRng;
use rand::SeedableRng;
use raytrace::fixed::{floor_div, isqrt, SCALE};
use raytrace::hittable::{Hittable, T_MIN};
use raytrace::material::{CommonMat, Diffuse};
use raytrace::objects::{HitList, Sphere, WorldBuilder};
use raytrace::ray::Ray;
use raytrace::vec3::{Vec3, COORD_MAX};

fn v(x: f64, y: f64, z: f64) -> Vec3 {
    let s = SCALE as f64;
    Vec3::new((x * s).round() as i64, (y * s).round() as i64, (z * s).round() as i64)
}

fn gray() -> CommonMat {
    CommonMat::from(Diffuse::new(Vec3::mid_gray()))
}

fn length(a: &Vec3) -> f64 {
    let s = SCALE as f64;
    ((a.x as f64 / s).powi(2) + (a.y as f64 / s).powi(2) + (a.z as f64 / s).powi(2)).sqrt()
}

#[test]
fn floor_division_rounds_down() {
    assert_eq!(floor_div(7, 2), 3);
    assert_eq!(floor_div(-7, 2), -4);
    assert_eq!(floor_div(-6, 2), -3);
    assert_eq!(floor_div(0, 5), 0);
}

#[test]
fn integer_square_root() {
    assert_eq!(isqrt(0), 0);
    assert_eq!(isqrt(1), 1);
    assert_eq!(isqrt(15), 3);
    assert_eq!(isqrt(16), 4);
    assert_eq!(isqrt(1_000_000_000_000), 1_000_000);
    let big: i128 = 0x7fff_ffff_ffff_ffff_ffff_ffff_ffff_ffff;
    let r = isqrt(big);
    assert!(r * r <= big);
    assert!((r + 1).checked_mul(r + 1).map_or(true, |q| q > big));
}

#[test]
fn vector_products() {
    let a = v(1.0, 2.0, 3.0);
    let b = v(4.0, -5.0, 6.0);
    assert_eq!(a.dot(&b), 12 * (SCALE as i128) * (SCALE as i128));
    let x = v(1.0, 0.0, 0.0);
    let y = v(0.0, 1.0, 0.0);
    assert_eq!(x.cross(&y), v(0.0, 0.0, 1.0));
    assert_eq!(y.cross(&x), v(0.0, 0.0, -1.0));
    assert_eq!(a.scale(SCALE / 2), v(0.5, 1.0, 1.5));
    assert_eq!(v(3.0, 0.0, 4.0).unit(), v(0.6, 0.0, 0.8));
    assert_eq!(Vec3::new(0, 0, 0).unit(), Vec3::new(0, 0, 0));
    assert_eq!(a.add(&b), v(5.0, -3.0, 9.0));
    assert_eq!(a.sub(&b), v(-3.0, 7.0, -3.0));
    assert_eq!(a.neg(), v(-1.0, -2.0, -3.0));
    assert_eq!(a.mul(&v(0.5, 0.5, 2.0)), v(0.5, 1.0, 6.0));
}

#[test]
fn ray_point_at_parameter() {
    let r = Ray::new(v(1.0, 0.0, 0.0), v(0.0, 2.0, 0.0));
    assert_eq!(r.at(SCALE * 3 / 2), Some(v(1.0, 3.0, 0.0)));
    assert_eq!(*r.origin(), v(1.0, 0.0, 0.0));
    assert_eq!(*r.dir(), v(0.0, 2.0, 0.0));
    assert_eq!(r.at(i64::MAX), None);
}

#[test]
fn ray_from_outside_takes_entry_root() {
    let sphere = Sphere::new(v(0.0, 0.0, -5.0), SCALE, gray());
    let ray = Ray::new(v(0.0, 0.0, 0.0), v(0.0, 0.0, -1.0));
    let c = sphere.intersect(&ray, T_MIN, i64::MAX).expect("the ray meets the sphere");
    assert_eq!(c.t, 4 * SCALE);
    assert_eq!(c.point, v(0.0, 0.0, -4.0));
    assert_eq!(c.normal, v(0.0, 0.0, 1.0));
    assert!(c.front_face);
    // Past the entry point, the exit root is taken.
    let c = sphere.intersect(&ray, 5 * SCALE, i64::MAX).expect("the exit point remains");
    assert_eq!(c.t, 6 * SCALE);
    assert!(!c.front_face);
    // Both roots outside the bounds.
    assert!(sphere.intersect(&ray, T_MIN, 3 * SCALE).is_none());
}

#[test]
fn ray_from_inside_sees_back_face() {
    let sphere = Sphere::new(v(0.0, 0.0, 0.0), SCALE, gray());
    let ray = Ray::new(v(0.0, 0.0, 0.0), v(1.0, 0.0, 0.0));
    let c = sphere.intersect(&ray, T_MIN, i64::MAX).expect("the ray leaves the sphere");
    assert_eq!(c.t, SCALE);
    assert!(!c.front_face);
    assert_eq!(c.normal, v(-1.0, 0.0, 0.0));
}

#[test]
fn missing_ray_and_degenerate_sphere() {
    let sphere = Sphere::new(v(0.0, 0.0, -5.0), SCALE, gray());
    let ray = Ray::new(v(0.0, 0.0, 0.0), v(0.0, 1.0, 0.0));
    assert!(sphere.intersect(&ray, T_MIN, i64::MAX).is_none());
    let point = Sphere::new(v(0.0, 0.0, -5.0), 0, gray());
    let ray = Ray::new(v(0.0, 0.0, 0.0), v(0.0, 0.0, -1.0));
    assert!(point.intersect(&ray, T_MIN, i64::MAX).is_none());
    // A tangent ray has a zero discriminant: no hit.
    let ray = Ray::new(v(1.0, 0.0, 0.0), v(0.0, 0.0, -1.0));
    assert!(sphere.intersect(&ray, T_MIN, i64::MAX).is_none());
}

#[test]
fn negative_radius_turns_normals_inward() {
    let sphere = Sphere::new(v(0.0, 0.0, -5.0), -SCALE, gray());
    let ray = Ray::new(v(0.0, 0.0, 0.0), v(0.0, 0.0, -1.0));
    let c = sphere.intersect(&ray, T_MIN, i64::MAX).expect("same surface");
    assert_eq!(c.t, 4 * SCALE);
    assert!(!c.front_face);
    assert_eq!(c.normal, v(0.0, 0.0, 1.0));
}

#[test]
fn normals_are_unit_and_face_the_ray() {
    let mut rng = StdRng::seed_from_u64(7);
    let sphere = Sphere::new(v(0.3, -0.2, -3.0), SCALE * 7 / 10, gray());
    for i in 0..200i64 {
        let dx = (i % 20 - 10) * SCALE / 40;
        let dy = (i / 20 - 5) * SCALE / 30;
        let ray = Ray::new(v(0.0, 0.0, 0.0), Vec3::new(dx, dy, -SCALE));
        if let Some(h) = sphere.hit(&ray, T_MIN, i64::MAX, &mut rng) {
            assert!((length(&h.normal) - 1.0).abs() < 1e-4);
            assert!(ray.dir.dot(&h.normal) <= 0);
            assert!(h.t > T_MIN);
        }
    }
}

#[test]
fn nearest_sphere_wins() {
    let far = Sphere::new(v(0.0, 0.0, -10.0), SCALE, gray());
    let near = Sphere::new(v(0.0, 0.0, -4.0), SCALE, gray());
    let list = HitList::new(vec![far, near]);
    let ray = Ray::new(v(0.0, 0.0, 0.0), v(0.0, 0.0, -1.0));
    let (i, c) = list.nearest(&ray, T_MIN, i64::MAX).expect("two spheres ahead");
    assert_eq!(i, 1);
    assert_eq!(c.t, 3 * SCALE);
    let mut rng = StdRng::seed_from_u64(1);
    let h = list.hit(&ray, T_MIN, i64::MAX, &mut rng).expect("hit");
    assert_eq!(h.t, 3 * SCALE);
    assert!(h.scatter.is_some());
}

#[test]
fn equal_parameters_keep_the_first_sphere() {
    let a = Sphere::new(v(0.0, 0.0, -4.0), SCALE, gray());
    let b = Sphere::new(v(0.0, 0.0, -4.0), SCALE, gray());
    let list = HitList::new(vec![a, b]);
    let ray = Ray::new(v(0.0, 0.0, 0.0), v(0.0, 0.0, -1.0));
    let (i, _) = list.nearest(&ray, T_MIN, i64::MAX).expect("hit");
    assert_eq!(i, 0);
}

#[test]
fn empty_world_is_never_hit() {
    let list = HitList::empty();
    let ray = Ray::new(v(0.0, 0.0, 0.0), v(0.0, 0.0, -1.0));
    assert!(list.nearest(&ray, T_MIN, i64::MAX).is_none());
}

#[test]
fn builders_collect_spheres_in_order() {
    let mut list = HitList::empty();
    list.add(Sphere::new(v(0.0, 0.0, -2.0), SCALE, gray()));
    assert_eq!(list.objects.len(), 1);
    let mut builder = WorldBuilder::new();
    builder
        .add(Sphere::new(v(0.0, 0.0, -2.0), SCALE, gray()))
        .add(Sphere::new(v(0.0, 0.0, -6.0), 2 * SCALE, gray()));
    let world = builder.build();
    assert_eq!(world.objects.len(), 2);
    assert_eq!(world.objects[1].radius, 2 * SCALE);
    assert_eq!(builder.build().objects.len(), 0);
}

#[test]
fn contacts_beyond_the_representable_box_are_dropped() {
    let sphere = Sphere::new(Vec3::new(COORD_MAX, 0, 0), COORD_MAX / 2, gray());
    let ray = Ray::new(Vec3::new(0, 0, 0), Vec3::new(SCALE, 0, 0));
    let entry = sphere.intersect(&ray, T_MIN, i64::MAX).expect("the entry point lies in the box");
    assert!((entry.t - COORD_MAX / 2).abs() <= 2);
    // Past the entry only the exit remains, and it lies outside the box.
    assert!(sphere.intersect(&ray, COORD_MAX, i64::MAX).is_none());
}
