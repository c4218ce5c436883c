use rand::rngs::StdRng;
use rand::SeedableRng;
use raytrace::camera::Camera;
use raytrace::color::{self, to_rgb};
use raytrace::fixed::SCALE;
use raytrace::hittable::T_MIN;
use raytrace::material::{CommonMat, Diffuse};
use raytrace::objects::{HitList, Sphere};
use raytrace::render::{
    pixel_from_sum, render_pixel, render_row, single_thread_render, viewport_coordinate, Image,
    Render, RenderBuilder, Scene,
};
use raytrace::vec3::Vec3;

fn v(x: f64, y: f64, z: f64) -> Vec3 {
    let s = SCALE as f64;
    Vec3::new((x * s).round() as i64, (y * s).round() as i64, (z * s).round() as i64)
}

fn small_scene(width: usize, height: usize, samples: usize) -> Scene {
    let world = HitList::new(vec![Sphere::new(
        v(0.0, 0.0, -1.0),
        SCALE / 2,
        CommonMat::from(Diffuse::new(v(0.5, 0.5, 0.5))),
    )]);
    let camera = Camera::new(v(0.0, 0.0, 0.0), v(0.0, 0.0, -1.0), v(0.0, 1.0, 0.0), 2 * SCALE, 2 * SCALE, 0, SCALE);
    let config = Render::new(2 * SCALE, width, height, samples, 5);
    Scene::new(world, camera, config)
}

#[test]
fn centre_ray_hits_and_corner_ray_sees_sky() {
    let scene = small_scene(8, 4, 1);
    let mut rng = StdRng::seed_from_u64(9);
    let centre = scene.camera.get_ray(SCALE / 2, SCALE / 2, &mut rng);
    assert_eq!(centre.dir, v(0.0, 0.0, -1.0));
    let (_, c) = scene.world.nearest(&centre, T_MIN, i64::MAX).expect("the centre ray hits the sphere");
    assert_eq!(c.t, SCALE / 2);
    assert_eq!(c.point, v(0.0, 0.0, -0.5));
    let corner = scene.camera.get_ray(0, 0, &mut rng);
    assert_eq!(corner.dir, v(-2.0, -1.0, -1.0));
    assert!(scene.world.nearest(&corner, T_MIN, i64::MAX).is_none());
    let seen = corner.compute_color(&scene.world, 5, &mut rng);
    assert_eq!(seen, corner.bg_color());
}

#[test]
fn seeded_render_is_reproducible() {
    let scene = small_scene(12, 6, 4);
    let a = single_thread_render(&scene, &mut StdRng::seed_from_u64(42));
    let b = single_thread_render(&scene, &mut StdRng::seed_from_u64(42));
    assert_eq!(a.data, b.data);
    assert_eq!(a.data.len(), 12 * 6 * 3);
    let rows: Vec<u8> = (0..6).flat_map(|y| render_row(&scene, y, &mut StdRng::seed_from_u64(7))).collect();
    let again: Vec<u8> = (0..6).flat_map(|y| render_row(&scene, y, &mut StdRng::seed_from_u64(7))).collect();
    assert_eq!(rows, again);
    assert_eq!(rows.len(), 12 * 6 * 3);
}

#[test]
fn more_samples_shrink_the_error() {
    // The spread over many seeds of a pixel on the sphere, at two sample counts.
    fn spread(samples: usize) -> f64 {
        let scene = small_scene(16, 8, samples);
        let values: Vec<f64> = (0..40u64)
            .map(|seed| render_pixel(&scene, 7, 3, &mut StdRng::seed_from_u64(seed))[0] as f64)
            .collect();
        let mean = values.iter().sum::<f64>() / values.len() as f64;
        (values.iter().map(|x| (x - mean).powi(2)).sum::<f64>() / values.len() as f64).sqrt()
    }
    assert!(spread(64) < spread(1));
}

#[test]
fn sky_pixel_colour() {
    // Nothing in the scene: the top-left pixel of a one-sample render looks up and left.
    let camera = Camera::new(v(0.0, 0.0, 0.0), v(0.0, 0.0, -1.0), v(0.0, 1.0, 0.0), 2 * SCALE, SCALE, 0, SCALE);
    let scene = Scene::new(HitList::empty(), camera, Render::new(SCALE, 2, 2, 1, 5));
    let p = render_pixel(&scene, 0, 0, &mut StdRng::seed_from_u64(1));
    // Blue stays at full intensity; the sky is never darker than its zenith.
    assert_eq!(p[2], 255);
    assert!(p[0] >= 181 && p[1] >= 214);
}

#[test]
fn pixel_mean_gamma_and_quantization() {
    assert_eq!(pixel_from_sum(v(1.0, 0.0, 0.25), 1), [255, 0, 128]);
    assert_eq!(pixel_from_sum(v(2.0, 1.0, 0.5), 2), [255, 181, 128]);
    assert_eq!(to_rgb(v(2.0, -1.0, 0.5)), [255, 0, 128]);
    assert_eq!(v(0.999, 0.5, 0.0).r(), 255);
    assert_eq!(v(0.999, 0.5, 0.0).g(), 128);
    assert_eq!(v(0.999, 0.5, 0.0).b(), 0);
    assert_eq!(v(0.25, 1.0, -1.0).sqrt(), v(0.5, 1.0, 0.0));
}

#[test]
fn viewport_coordinates_span_the_image() {
    assert_eq!(viewport_coordinate(0, 5, 0), 0);
    assert_eq!(viewport_coordinate(4, 5, 0), SCALE);
    assert_eq!(viewport_coordinate(2, 5, SCALE / 2), 5 * SCALE / 8);
    assert_eq!(viewport_coordinate(0, 1, SCALE / 4), SCALE / 4);
}

#[test]
fn image_pixels_are_interleaved() {
    let mut img = Image::new(3, 2);
    assert_eq!(img.data, vec![0u8; 18]);
    img.set_pixel(2, 1, [1, 2, 3]);
    assert_eq!(&img.data[15..18], &[1, 2, 3]);
    img.set_pixel(0, 0, [9, 8, 7]);
    assert_eq!(&img.data[0..3], &[9, 8, 7]);
    assert_eq!(img.data.iter().filter(|&&b| b != 0).count(), 6);
}

#[test]
fn render_settings() {
    let d = Render::default();
    assert_eq!((d.width, d.height, d.samples_per_pixel, d.max_bounces), (480, 854, 10, 5));
    let r = Render::with_ratio(3 * SCALE / 2, 720);
    assert_eq!((r.width, r.height), (1080, 720));
    let r = Render::with_ratio(SCALE * 16 / 9, 9);
    assert_eq!(r.width, 16);
    let r = RenderBuilder::new().with_ratio(3 * SCALE / 2, 720).with_samples(100).with_max_bounces(10).build();
    assert_eq!((r.width, r.height, r.samples_per_pixel, r.max_bounces, r.aspect_ratio), (1080, 720, 100, 10, 1_500_000));
    let r = RenderBuilder::new().with_dimensions(400, 200).build();
    assert_eq!((r.width, r.height, r.aspect_ratio), (400, 200, 2 * SCALE));
}

#[test]
fn colour_helpers() {
    assert_eq!(color::white(), v(1.0, 1.0, 1.0));
    assert_eq!(color::black(), v(0.0, 0.0, 0.0));
    assert_eq!(color::mid_gray(), v(0.5, 0.5, 0.5));
    assert_eq!(color::red(), v(1.0, 0.0, 0.0));
    assert_eq!(color::green(), v(0.0, 1.0, 0.0));
    assert_eq!(color::blue(), v(0.0, 0.0, 1.0));
    assert_eq!(color::new(1, 2, 3), Vec3::new(1, 2, 3));
    assert_eq!(color::lerp(color::white(), color::black(), SCALE / 4), v(0.75, 0.75, 0.75));
    let c = color::random(&mut StdRng::seed_from_u64(4));
    assert!([c.x, c.y, c.z].iter().all(|&k| 0 <= k && k < SCALE));
}

#[test]
fn centre_ray_of_focused_camera_points_at_target() {
    let vh = (2.0 * (10.0f64).to_radians().tan() * SCALE as f64).round() as i64;
    let camera = Camera::new(v(13.0, 2.0, 3.0), v(0.0, 0.0, 0.0), v(0.0, 1.0, 0.0), vh, 3 * SCALE / 2, 0, 10 * SCALE);
    let ray = camera.get_ray(SCALE / 2, SCALE / 2, &mut StdRng::seed_from_u64(3));
    assert_eq!(ray.origin, v(13.0, 2.0, 3.0));
    let norm = (13.0f64 * 13.0 + 4.0 + 9.0).sqrt();
    let expected = [-13.0 / norm * 10.0, -2.0 / norm * 10.0, -3.0 / norm * 10.0];
    let got = [ray.dir.x, ray.dir.y, ray.dir.z].map(|k| k as f64 / SCALE as f64);
    for i in 0..3 {
        assert!((got[i] - expected[i]).abs() < 1e-4, "{:?} vs {:?}", got, expected);
    }
}
