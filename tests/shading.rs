use rand::rngs::StdRng;
use rand::SeedableRng;
use raytrace::fixed::SCALE;
use raytrace::hittable::T_MIN;
use raytrace::material::{reflect, refract, CommonMat, Dielectric, Diffuse, Material, Metal, IOR_MAX, IOR_MIN};
use raytrace::objects::{HitList, Sphere};
use raytrace::random::{
    ball_candidate, disc_candidate, random_fraction, random_in_unit_disc, random_in_unit_sphere,
    random_unit,
};
use raytrace::ray::Ray;
use raytrace::vec3::Vec3;

fn v(x: f64, y: f64, z: f64) -> Vec3 {
    let s = SCALE as f64;
    Vec3::new((x * s).round() as i64, (y * s).round() as i64, (z * s).round() as i64)
}

fn in_unit_range(c: &Vec3) -> bool {
    [c.x, c.y, c.z].iter().all(|&k| 0 <= k && k <= SCALE)
}

#[test]
fn attenuation_stays_in_unit_range() {
    let mut rng = StdRng::seed_from_u64(11);
    let materials = [
        CommonMat::from(Diffuse::new(v(0.5, 0.9, 1.0))),
        CommonMat::from(Metal::new(v(0.8, 0.6, 0.2), SCALE / 3)),
        CommonMat::from(Metal::default()),
        CommonMat::from(Dielectric::new(3 * SCALE / 2)),
        CommonMat::from(Diffuse::default()),
    ];
    let normal = v(0.0, 1.0, 0.0);
    for m in materials.iter() {
        for i in 0..100i64 {
            let ray = Ray::new(v(0.0, 1.0, 0.0), Vec3::new(i * SCALE / 100 - SCALE / 2, -SCALE, SCALE / 7));
            for front in [true, false] {
                if let Some(s) = m.scatter(&ray, normal, front, &mut rng) {
                    assert!(in_unit_range(&s.attenuation));
                }
            }
        }
    }
}

#[test]
fn sharp_metal_is_a_mirror() {
    let metal = Metal::new(v(0.9, 0.9, 0.9), 0);
    let normal = v(0.0, 1.0, 0.0);
    let dir = v(3.0, -4.0, 0.0);
    let offset = v(0.0, 0.0, 1.0);
    let s = metal.scatter_toward(dir, normal, offset).expect("reflected above the surface");
    assert_eq!(s.scattered, v(3.0, 4.0, 0.0));
    assert_eq!(s.attenuation, v(0.9, 0.9, 0.9));
    // Angle of incidence equals angle of reflection.
    assert_eq!(s.scattered.dot(&normal), -dir.dot(&normal));
    let mut rng = StdRng::seed_from_u64(3);
    let ray = Ray::new(v(0.0, 1.0, 0.0), dir);
    let s = metal.scatter(&ray, normal, true, &mut rng).expect("a mirror never absorbs here");
    assert_eq!(s.scattered, v(3.0, 4.0, 0.0));
    // The length of the incoming direction is kept.
    let s = metal.scatter_toward(v(0.0, -2.0, 0.0), normal, offset).expect("reflected");
    assert_eq!(s.scattered, v(0.0, 2.0, 0.0));
}

#[test]
fn fuzz_adds_to_the_reflected_direction() {
    let metal = Metal::new(v(0.9, 0.9, 0.9), SCALE);
    let normal = v(0.0, 1.0, 0.0);
    let s = metal.scatter_toward(v(0.0, -2.0, 0.0), normal, v(1.0, 0.0, 0.0)).expect("reflected");
    assert_eq!(s.scattered, v(1.0, 2.0, 0.0));
}

#[test]
fn fuzzy_metal_pushed_into_surface_absorbs() {
    let metal = Metal::new(v(0.9, 0.9, 0.9), SCALE);
    let normal = v(0.0, 1.0, 0.0);
    // Grazing reflection pushed down by the fuzz.
    let s = metal.scatter_toward(v(1.0, -0.1, 0.0), normal, v(0.0, -1.0, 0.0));
    assert!(s.is_none());
}

#[test]
fn reflect_and_refract_formulas() {
    assert_eq!(reflect(v(0.6, -0.8, 0.0), v(0.0, 1.0, 0.0)), v(0.6, 0.8, 0.0));
    // Straight through at normal incidence, whatever the ratio.
    assert_eq!(refract(v(0.0, -1.0, 0.0), v(0.0, 1.0, 0.0), 2 * SCALE / 3), v(0.0, -1.0, 0.0));
    // Same index on both sides: the direction is kept.
    let r = refract(v(0.6, -0.8, 0.0), v(0.0, 1.0, 0.0), SCALE);
    assert_eq!(r, v(0.6, -0.8, 0.0));
}

#[test]
fn schlick_at_normal_incidence() {
    let ratio = SCALE * SCALE / (3 * SCALE / 2);
    let r = Dielectric::reflectance(SCALE, ratio);
    assert_eq!(r, 40_000);
    assert!(((r as f64) / (SCALE as f64) - 0.04).abs() < 1e-4);
    // At grazing incidence everything reflects.
    assert_eq!(Dielectric::reflectance(0, ratio), SCALE);
}

#[test]
fn dielectric_total_internal_reflection() {
    let glass = Dielectric::new(3 * SCALE / 2);
    let normal = v(0.0, 1.0, 0.0);
    // From inside the glass at 60 degrees: 1.5 * sin(60) > 1.
    let dir = v(0.866025, -0.5, 0.0);
    let s = glass.scatter_toward(dir, normal, false, SCALE - 1);
    assert_eq!(s.attenuation, v(1.0, 1.0, 1.0));
    assert!(s.scattered.y > 0);
    // Entering at normal incidence with a draw above the reflectance: refracted straight on.
    let s = glass.scatter_toward(v(0.0, -1.0, 0.0), normal, true, SCALE / 2);
    assert_eq!(s.scattered, v(0.0, -1.0, 0.0));
    // The same with a draw under the reflectance: reflected.
    let s = glass.scatter_toward(v(0.0, -1.0, 0.0), normal, true, 10);
    assert_eq!(s.scattered, v(0.0, 1.0, 0.0));
}

#[test]
fn diffuse_direction_and_degenerate_fallback() {
    let d = Diffuse::new(v(0.25, 0.5, 0.75));
    let normal = v(0.0, 1.0, 0.0);
    let s = d.scatter_toward(normal, v(1.0, 0.0, 0.0));
    assert_eq!(s.scattered, v(1.0, 1.0, 0.0));
    assert_eq!(s.attenuation, v(0.25, 0.5, 0.75));
    let s = d.scatter_toward(normal, v(0.0, -1.0, 0.0));
    assert_eq!(s.scattered, normal);
}

#[test]
fn random_draws_stay_in_range() {
    let mut rng = StdRng::seed_from_u64(5);
    let mut seen = std::collections::BTreeSet::new();
    for _ in 0..1000 {
        let f = random_fraction(&mut rng);
        assert!(0 <= f && f < SCALE);
        seen.insert(f);
        let p = random_in_unit_sphere(&mut rng);
        let n = p.mag_sq();
        assert!(n > 0 && n <= (SCALE as i128) * (SCALE as i128));
        let d = random_in_unit_disc(&mut rng);
        assert_eq!(d.z, 0);
        assert!(d.mag_sq() <= (SCALE as i128) * (SCALE as i128));
        let u = random_unit(&mut rng);
        let len = (u.mag_sq() as f64).sqrt() / SCALE as f64;
        assert!((len - 1.0).abs() < 1e-4);
    }
    assert!(seen.len() > 900);
}

#[test]
fn no_bounces_gives_black() {
    let mut rng = StdRng::seed_from_u64(2);
    let world = HitList::new(vec![Sphere::new(v(0.0, 0.0, -1.0), SCALE / 2, CommonMat::from(Diffuse::default()))]);
    for dir in [v(0.0, 0.0, -1.0), v(0.0, 1.0, 0.0)] {
        let ray = Ray::new(v(0.0, 0.0, 0.0), dir);
        assert_eq!(ray.compute_color(&world, 0, &mut rng), Vec3::black());
    }
}

#[test]
fn background_gradient() {
    let up = Ray::new(v(0.0, 0.0, 0.0), v(0.0, 1.0, 0.0));
    assert_eq!(up.bg_color(), v(0.5, 0.7, 1.0));
    let down = Ray::new(v(0.0, 0.0, 0.0), v(0.0, -1.0, 0.0));
    assert_eq!(down.bg_color(), v(1.0, 1.0, 1.0));
    let level = Ray::new(v(0.0, 0.0, 0.0), v(1.0, 0.0, 0.0));
    assert_eq!(level.bg_color(), v(0.75, 0.85, 1.0));
}

#[test]
fn escaping_ray_takes_sky_colour() {
    let mut rng = StdRng::seed_from_u64(2);
    let ray = Ray::new(v(0.0, 0.0, 0.0), v(0.0, 1.0, 0.0));
    assert_eq!(ray.compute_color(&HitList::empty(), 3, &mut rng), v(0.5, 0.7, 1.0));
}

#[test]
fn mirror_bounce_filters_sky() {
    let mut rng = StdRng::seed_from_u64(2);
    let floor = Sphere::new(v(0.0, -1000.0, 0.0), 999 * SCALE, CommonMat::from(Metal::new(v(0.5, 0.5, 0.5), 0)));
    let world = HitList::new(vec![floor]);
    let ray = Ray::new(v(0.0, 1.0, 0.0), v(0.0, -1.0, 0.0));
    // Down onto the mirror, back up into the sky: the sky colour straight up, halved.
    assert_eq!(ray.compute_color(&world, 5, &mut rng), v(0.25, 0.35, 0.5));
    // With a single bounce allowed the path is cut off: black.
    assert_eq!(ray.compute_color(&world, 1, &mut rng), Vec3::black());
}

#[test]
fn sampling_candidates_accept_exactly_the_ball() {
    assert_eq!(ball_candidate(SCALE, 0, 0), Some(Vec3::new(SCALE, 0, 0)));
    assert_eq!(ball_candidate(0, 0, 0), None);
    assert_eq!(ball_candidate(SCALE, 1, 0), None);
    assert_eq!(ball_candidate(SCALE / 2, -SCALE / 2, SCALE / 2), Some(Vec3::new(SCALE / 2, -SCALE / 2, SCALE / 2)));
    assert_eq!(ball_candidate(SCALE, SCALE, SCALE), None);
    assert_eq!(disc_candidate(0, 0), Some(Vec3::new(0, 0, 0)));
    assert_eq!(disc_candidate(0, -SCALE), Some(Vec3::new(0, -SCALE, 0)));
    assert_eq!(disc_candidate(SCALE, SCALE), None);
}

#[test]
fn reflection_of_long_directions() {
    assert_eq!(reflect(v(3.0, -40.0, 7.0), v(0.0, 1.0, 0.0)), v(3.0, 40.0, 7.0));
    // A metal that would send the ray beyond the representable box absorbs it.
    let metal = Metal::new(v(0.5, 0.5, 0.5), 0);
    let huge = Vec3::new(0, -raytrace::vec3::COORD_MAX, raytrace::vec3::COORD_MAX);
    let tilted = v(0.0, 0.6, 0.8);
    assert!(metal.scatter_toward(huge, tilted, v(1.0, 0.0, 0.0)).is_none());
}

#[test]
fn extreme_refractive_indices() {
    let normal = v(0.0, 1.0, 0.0);
    for ior in [IOR_MIN, IOR_MAX] {
        let glass = Dielectric::new(ior);
        for front in [true, false] {
            let s = glass.scatter_toward(v(0.6, -0.8, 0.0), normal, front, SCALE / 2);
            assert_eq!(s.attenuation, v(1.0, 1.0, 1.0));
        }
    }
}
