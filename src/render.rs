use vstd::prelude::*;
use rand::rngs::StdRng;
use crate::fixed::SCALE;
use crate::vec3::{Vec3, Color, V3, add3, gamma, quantize, quantize_channel};
use crate::objects::HitList;
use crate::camera::Camera;
use crate::random::{random_fraction, in_unit_disc};
use crate::ray::{Ray, traces_to};

verus! {

/// Largest image width or height.
pub const MAX_DIM: usize = 16_384;

/// Largest number of samples per pixel.
pub const MAX_SAMPLES: usize = 1_000_000;

/// Everything a render reads: the spheres, the camera and the settings.
pub struct Scene {
    pub world: HitList,
    pub camera: Camera,
    pub config: Render,
}

impl Scene {
    pub fn new(world: HitList, camera: Camera, config: Render) -> (r: Scene)
        ensures
            r.world.objects@ == world.objects@,
            r.camera == camera,
            r.config == config,
    {
        Self { world, camera, config }
    }

    /// Spheres, camera and settings each in their ranges.
    pub open spec fn wf(&self) -> bool {
        self.world.wf() && self.camera.wf() && self.config.wf()
    }
}

/// Render settings; `aspect_ratio` is fixed point.
#[derive(Debug, Clone, Copy, PartialEq, Eq, Structural)]
pub struct Render {
    pub aspect_ratio: i64,
    pub width: usize,
    pub height: usize,
    pub samples_per_pixel: usize,
    pub max_bounces: usize,
}

/// `ceil(height * aspect_ratio)`, the width that goes with a height and an aspect ratio.
pub open spec fn width_for(aspect_ratio: int, height: int) -> int {
    (height * aspect_ratio + SCALE - 1) / (SCALE as int)
}

fn width_for_ratio(aspect_ratio: i64, height: usize) -> (r: usize)
    requires
        0 <= aspect_ratio <= 1000 * SCALE,
        height <= MAX_DIM,
    ensures
        r as int == width_for(aspect_ratio as int, height as int),
{
    proof {
        assert(0 <= (height as int) * (aspect_ratio as int) <= MAX_DIM * 1000 * SCALE) by (nonlinear_arith)
            requires 0 <= aspect_ratio <= 1000 * SCALE, 0 <= height <= MAX_DIM;
    }
    let n = height as i128 * aspect_ratio as i128 + (SCALE as i128 - 1);
    proof {
        vstd::arithmetic::div_mod::lemma_div_pos_is_pos(n as int, SCALE as int);
        vstd::arithmetic::div_mod::lemma_div_is_ordered_by_denominator(n as int, 1, SCALE as int);
    }
    (n / SCALE as i128) as usize
}

impl Render {
    pub fn new(aspect_ratio: i64, width: usize, height: usize, samples_per_pixel: usize, max_bounces: usize) -> (r: Self)
        ensures
            r == (Render { aspect_ratio, width, height, samples_per_pixel, max_bounces }),
    {
        Self { aspect_ratio, width, height, samples_per_pixel, max_bounces }
    }

    /// Settings for an image `height` pixels high and as wide as `aspect_ratio` asks
    /// (rounded up), with the default sampling.
    pub fn with_ratio(aspect_ratio: i64, height: usize) -> (r: Self)
        requires
            0 <= aspect_ratio <= 1000 * SCALE,
            height <= MAX_DIM,
        ensures
            r.aspect_ratio == aspect_ratio,
            r.height == height,
            r.width as int == width_for(aspect_ratio as int, height as int),
            r.samples_per_pixel == 10,
            r.max_bounces == 5,
    {
        let d = Self::default();
        Self {
            aspect_ratio,
            width: width_for_ratio(aspect_ratio, height),
            height,
            samples_per_pixel: d.samples_per_pixel,
            max_bounces: d.max_bounces,
        }
    }

    /// Dimensions and sample count within their limits.
    pub open spec fn wf(&self) -> bool {
        &&& 0 < self.width <= MAX_DIM
        &&& 0 < self.height <= MAX_DIM
        &&& 0 < self.samples_per_pixel <= MAX_SAMPLES
    }
}

impl Default for Render {
    fn default() -> (r: Self)
        ensures
            r == (Render {
                aspect_ratio: 1_777_777,
                width: 480,
                height: 854,
                samples_per_pixel: 10,
                max_bounces: 5,
            }),
    {
        Render { aspect_ratio: 1_777_777, width: 480, height: 854, samples_per_pixel: 10, max_bounces: 5 }
    }
}

/// Builds `Render` settings step by step from the defaults.
pub struct RenderBuilder {
    render: Render,
}

impl RenderBuilder {
    /// The settings built so far.
    pub closed spec fn settings(&self) -> Render {
        self.render
    }

    pub fn new() -> (r: Self)
        ensures
            r.settings() == (Render {
                aspect_ratio: 1_777_777,
                width: 480,
                height: 854,
                samples_per_pixel: 10,
                max_bounces: 5,
            }),
    {
        Self { render: Render::default() }
    }

    pub fn build(&mut self) -> (r: Render)
        ensures
            r == old(self).settings(),
            final(self).settings() == old(self).settings(),
    {
        self.render
    }

    pub fn with_ratio(&mut self, aspect_ratio: i64, height: usize) -> (r: &mut Self)
        requires
            0 <= aspect_ratio <= 1000 * SCALE,
            height <= MAX_DIM,
        ensures
            final(r).settings() == final(self).settings(),
            (*r).settings() == (Render {
                aspect_ratio,
                height,
                width: width_for(aspect_ratio as int, height as int) as usize,
                ..old(self).settings()
            }),
    {
        self.render.width = width_for_ratio(aspect_ratio, height);
        self.render.height = height;
        self.render.aspect_ratio = aspect_ratio;
        self
    }

    pub fn with_samples(&mut self, samples_per_pixel: usize) -> (r: &mut Self)
        ensures
            final(r).settings() == final(self).settings(),
            (*r).settings() == (Render { samples_per_pixel, ..old(self).settings() }),
    {
        self.render.samples_per_pixel = samples_per_pixel;
        self
    }

    pub fn with_max_bounces(&mut self, max_bounces: usize) -> (r: &mut Self)
        ensures
            final(r).settings() == final(self).settings(),
            (*r).settings() == (Render { max_bounces, ..old(self).settings() }),
    {
        self.render.max_bounces = max_bounces;
        self
    }

    /// Sets the dimensions, and the aspect ratio that follows from them (rounded down).
    pub fn with_dimensions(&mut self, width: usize, heigth: usize) -> (r: &mut Self)
        requires
            width <= MAX_DIM,
            0 < heigth,
        ensures
            final(r).settings() == final(self).settings(),
            (*r).settings() == (Render {
                width,
                height: heigth,
                aspect_ratio: (width * SCALE / (heigth as int)) as i64,
                ..old(self).settings()
            }),
    {
        proof {
            assert(0 <= (width as int) * SCALE <= MAX_DIM * SCALE) by (nonlinear_arith)
                requires width <= MAX_DIM;
            vstd::arithmetic::div_mod::lemma_div_pos_is_pos(width * SCALE, heigth as int);
            vstd::arithmetic::div_mod::lemma_div_is_ordered_by_denominator(width * SCALE, 1, heigth as int);
        }
        self.render.width = width;
        self.render.height = heigth;
        self.render.aspect_ratio = ((width as i128 * SCALE as i128) / heigth as i128) as i64;
        self
    }
}

/// Viewport coordinate, fixed point, of column `x` of `n` with jitter `xi` in `[0, 1)`:
/// `(x + xi) / (n - 1)`, where a single column divides by one.
pub open spec fn viewport_coord(x: int, n: int, xi: int) -> int {
    (x * SCALE + xi) / (if n > 1 { n - 1 } else { 1 })
}

/// The row of the viewport, counted from the bottom, that image row `y` of `height` shows.
pub open spec fn flip_row(y: int, height: int) -> int {
    height - 1 - y
}

/// The channels of a pixel whose samples add up to `sum` over `samples` samples: the mean,
/// gamma-encoded and quantized.
pub open spec fn pixel_channel(sum: int, samples: int) -> int {
    quantize(gamma(sum / samples))
}

/// The pixel that `samples` samples adding up to `sum` give.
pub open spec fn pixel_of(sum: V3, samples: int) -> Seq<u8> {
    seq![
        pixel_channel(sum.0, samples) as u8,
        pixel_channel(sum.1, samples) as u8,
        pixel_channel(sum.2, samples) as u8,
    ]
}

/// Viewport coordinate of a column or row.
pub fn viewport_coordinate(x: usize, n: usize, xi: i64) -> (r: i64)
    requires
        x < n <= MAX_DIM,
        0 <= xi < SCALE,
    ensures
        r as int == viewport_coord(x as int, n as int, xi as int),
        0 <= r <= 2 * SCALE,
{
    let d: usize = if n > 1 { n - 1 } else { 1 };
    proof {
        let xs = x as int * SCALE + xi;
        assert(0 <= xs < (x as int + 1) * SCALE) by (nonlinear_arith)
            requires 0 <= xi < SCALE, x >= 0, xs == x as int * SCALE + xi;
        assert(xs <= 2 * SCALE * d) by (nonlinear_arith)
            requires 0 <= xs < (x as int + 1) * SCALE, x < n, d == (if n > 1 { n - 1 } else { 1 }), x >= 0;
        vstd::arithmetic::div_mod::lemma_div_pos_is_pos(xs, d as int);
        crate::fixed::lemma_div_abs(xs, d as int, 2 * SCALE);
    }
    ((x as i64 * SCALE + xi) / d as i64) as i64
}

/// The pixel that samples adding up to `sum` give: the mean colour, gamma-encoded and
/// quantized to 8 bits per channel.
pub fn pixel_from_sum(sum: Color, samples: usize) -> (r: [u8; 3])
    requires
        0 < samples <= MAX_SAMPLES,
        0 <= sum.x && 0 <= sum.y && 0 <= sum.z,
    ensures
        r@ == pixel_of(sum@, samples as int),
{
    let n = samples as i64;
    let mean = Vec3::new(sum.x / n, sum.y / n, sum.z / n);
    let g = mean.sqrt();
    [quantize_channel(g.x), quantize_channel(g.y), quantize_channel(g.z)]
}

/// `c` is a colour that one sample of pixel `(x, y)` can give: the camera ray through a
/// point of the pixel's square (jittered by `xi` across and `eta` up) leaving the lens at a
/// point `d` of the unit disc, traced through the world.
pub open spec fn sample_of(scene: Scene, x: int, y: int, c: V3) -> bool {
    exists|xi: int, eta: int, d: V3, ray: Ray|
        #![trigger scene.camera.ray_spec(
            viewport_coord(x, scene.config.width as int, xi),
            viewport_coord(flip_row(y, scene.config.height as int), scene.config.height as int, eta),
            d,
        ), traces_to(scene.world, ray, scene.config.max_bounces as nat, (SCALE as int, SCALE as int, SCALE as int), c)]
        {
            &&& 0 <= xi < SCALE
            &&& 0 <= eta < SCALE
            &&& in_unit_disc(d)
            &&& (ray.origin@, ray.dir@) == scene.camera.ray_spec(
                viewport_coord(x, scene.config.width as int, xi),
                viewport_coord(flip_row(y, scene.config.height as int), scene.config.height as int, eta),
                d,
            )
            &&& traces_to(
                scene.world,
                ray,
                scene.config.max_bounces as nat,
                (SCALE as int, SCALE as int, SCALE as int),
                c,
            )
        }
}

/// Component-wise sum of colours.
pub open spec fn sum_colors(cs: Seq<V3>) -> V3
    decreases cs.len(),
{
    if cs.len() == 0 {
        (0, 0, 0)
    } else {
        add3(sum_colors(cs.drop_last()), cs.last())
    }
}

/// `p` is an RGB triple that pixel `(x, y)` can take: the pixel of the sum of
/// `samples_per_pixel` sample colours.
pub open spec fn pixel_outcome(scene: Scene, x: int, y: int, p: Seq<u8>) -> bool {
    exists|cs: Seq<V3>|
        {
            &&& cs.len() == scene.config.samples_per_pixel
            &&& forall|j: int| 0 <= j < cs.len() ==> sample_of(scene, x, y, #[trigger] cs[j])
            &&& p == pixel_of(sum_colors(cs), scene.config.samples_per_pixel as int)
        }
}

/// A pixel of the scene: `samples_per_pixel` rays through random points of the pixel's
/// square, each traced with `compute_color`, averaged, gamma-encoded and quantized. Row 0
/// is the top of the image.
pub fn render_pixel(scene: &Scene, x: usize, y: usize, rng: &mut StdRng) -> (r: [u8; 3])
    requires
        scene.wf(),
        x < scene.config.width,
        y < scene.config.height,
    ensures
        pixel_outcome(*scene, x as int, y as int, r@),
{
    let config = &scene.config;
    let row = config.height - 1 - y;
    let mut sum = Vec3::black();
    let ghost mut cs: Seq<V3> = seq![];
    let mut i: usize = 0;
    while i < config.samples_per_pixel
        invariant
            scene.wf(),
            config == &scene.config,
            x < config.width,
            y < config.height,
            row == flip_row(y as int, config.height as int),
            i <= config.samples_per_pixel,
            0 <= sum.x <= i * SCALE,
            0 <= sum.y <= i * SCALE,
            0 <= sum.z <= i * SCALE,
            cs.len() == i,
            sum@ == sum_colors(cs),
            forall|j: int| 0 <= j < cs.len() ==> sample_of(*scene, x as int, y as int, #[trigger] cs[j]),
        decreases config.samples_per_pixel - i,
    {
        let xi = random_fraction(rng);
        let eta = random_fraction(rng);
        let u = viewport_coordinate(x, config.width, xi);
        let v = viewport_coordinate(row, config.height, eta);
        let ray = scene.camera.get_ray(u, v, rng);
        let c = ray.compute_color(&scene.world, config.max_bounces, rng);
        proof {
            let d = choose|d: V3| in_unit_disc(d) && (ray.origin@, ray.dir@) == scene.camera.ray_spec(u as int, v as int, d);
            assert(traces_to(scene.world, ray, config.max_bounces as nat, (SCALE as int, SCALE as int, SCALE as int), c@));
            assert(sample_of(*scene, x as int, y as int, c@));
            assert((i + 1) * SCALE == i * SCALE + SCALE) by (nonlinear_arith);
            assert(i * SCALE <= MAX_SAMPLES * SCALE) by (nonlinear_arith)
                requires i <= MAX_SAMPLES;
        }
        sum = Vec3::new(sum.x + c.x, sum.y + c.y, sum.z + c.z);
        proof {
            let old_cs = cs;
            cs = cs.push(c@);
            assert(cs.drop_last() =~= old_cs);
        }
        i = i + 1;
    }
    pixel_from_sum(sum, config.samples_per_pixel)
}

/// An image as interleaved 8-bit RGB: the pixel `(x, y)` takes the three bytes from
/// `(y * width + x) * 3`.
pub struct Image {
    pub width: usize,
    pub height: usize,
    pub data: Vec<u8>,
}

/// Offset of the first byte of pixel `(x, y)` in an image `width` pixels wide.
pub open spec fn pixel_offset(x: int, y: int, width: int) -> int {
    (y * width + x) * 3
}

/// Bounds of pixel offsets: the three bytes of a pixel lie inside the buffer.
pub proof fn lemma_pixel_offset(x: int, y: int, width: int, height: int)
    requires
        0 <= x < width,
        0 <= y < height,
    ensures
        0 <= pixel_offset(x, y, width),
        pixel_offset(x, y, width) + 3 <= width * height * 3,
{
    assert(0 <= (y * width + x) * 3 && (y * width + x) * 3 + 3 <= width * height * 3) by (nonlinear_arith)
        requires 0 <= x < width, 0 <= y < height;
}

impl Image {
    /// One RGB triple per pixel.
    pub open spec fn wf(&self) -> bool {
        &&& self.width <= MAX_DIM
        &&& self.height <= MAX_DIM
        &&& self.data@.len() == self.width * self.height * 3
    }

    /// A black image.
    pub fn new(width: usize, height: usize) -> (r: Image)
        requires
            width <= MAX_DIM,
            height <= MAX_DIM,
        ensures
            r.wf(),
            r.width == width,
            r.height == height,
            forall|i: int| 0 <= i < r.data@.len() ==> r.data@[i] == 0,
    {
        proof {
            assert(width * height * 3 <= MAX_DIM * MAX_DIM * 3) by (nonlinear_arith)
                requires width <= MAX_DIM, height <= MAX_DIM;
        }
        let n = width * height * 3;
        let mut data: Vec<u8> = Vec::with_capacity(n);
        let mut i: usize = 0;
        while i < n
            invariant
                i <= n,
                data@.len() == i,
                forall|j: int| 0 <= j < i ==> data@[j] == 0,
            decreases n - i,
        {
            data.push(0);
            i = i + 1;
        }
        Image { width, height, data }
    }

    /// Writes pixel `(x, y)`; every other byte stays.
    pub fn set_pixel(&mut self, x: usize, y: usize, rgb: [u8; 3])
        requires
            old(self).wf(),
            x < old(self).width,
            y < old(self).height,
        ensures
            final(self).wf(),
            final(self).width == old(self).width,
            final(self).height == old(self).height,
            final(self).data@ == old(self).data@.update(
                pixel_offset(x as int, y as int, old(self).width as int),
                rgb@[0],
            ).update(pixel_offset(x as int, y as int, old(self).width as int) + 1, rgb@[1]).update(
                pixel_offset(x as int, y as int, old(self).width as int) + 2,
                rgb@[2],
            ),
    {
        proof {
            lemma_pixel_offset(x as int, y as int, self.width as int, self.height as int);
            assert(self.width * self.height * 3 <= MAX_DIM * MAX_DIM * 3) by (nonlinear_arith)
                requires self.width <= MAX_DIM, self.height <= MAX_DIM;
            assert(y * self.width <= y * self.width + x);
        }
        let offset = (y * self.width + x) * 3;
        self.data.set(offset, rgb[0]);
        self.data.set(offset + 1, rgb[1]);
        self.data.set(offset + 2, rgb[2]);
    }
}

/// One row of the image, top row first: `3 * width` bytes.
pub fn render_row(scene: &Scene, y: usize, rng: &mut StdRng) -> (r: Vec<u8>)
    requires
        scene.wf(),
        y < scene.config.height,
    ensures
        r@.len() == 3 * scene.config.width,
        forall|x: int|
            0 <= x < scene.config.width ==> pixel_outcome(*scene, x, y as int, #[trigger] r@.subrange(3 * x, 3 * x + 3)),
{
    let mut row: Vec<u8> = Vec::new();
    let mut x: usize = 0;
    while x < scene.config.width
        invariant
            scene.wf(),
            y < scene.config.height,
            x <= scene.config.width,
            row@.len() == 3 * x,
            forall|k: int|
                0 <= k < x ==> pixel_outcome(*scene, k, y as int, #[trigger] row@.subrange(3 * k, 3 * k + 3)),
        decreases scene.config.width - x,
    {
        let p = render_pixel(scene, x, y, rng);
        let ghost before = row@;
        row.push(p[0]);
        row.push(p[1]);
        row.push(p[2]);
        proof {
            assert forall|k: int| 0 <= k < x + 1 implies pixel_outcome(*scene, k, y as int, #[trigger] row@.subrange(3 * k, 3 * k + 3)) by {
                if k < x {
                    assert(row@.subrange(3 * k, 3 * k + 3) =~= before.subrange(3 * k, 3 * k + 3));
                } else {
                    assert(row@.subrange(3 * k, 3 * k + 3) =~= p@);
                }
            }
        }
        x = x + 1;
    }
    row
}

/// The bytes of pixel `(x, y)` in a buffer of an image `width` pixels wide.
pub open spec fn pixel_bytes(data: Seq<u8>, x: int, y: int, width: int) -> Seq<u8> {
    data.subrange(pixel_offset(x, y, width), pixel_offset(x, y, width) + 3)
}

/// Distinct pixels occupy disjoint bytes.
proof fn lemma_pixels_disjoint(x: int, y: int, k: int, l: int, width: int)
    requires
        0 <= x < width,
        0 <= k < width,
        0 <= y,
        0 <= l,
        x != k || y != l,
    ensures
        pixel_offset(x, y, width) + 3 <= pixel_offset(k, l, width) || pixel_offset(k, l, width) + 3
            <= pixel_offset(x, y, width),
{
    if y == l {
    } else if y < l {
        assert(y * width + x < l * width + k) by (nonlinear_arith)
            requires y < l, 0 <= x < width, 0 <= k;
    } else {
        assert(l * width + k < y * width + x) by (nonlinear_arith)
            requires l < y, 0 <= k < width, 0 <= x;
    }
}

/// The whole image, pixel by pixel, from one random stream: every pixel takes an outcome
/// of `render_pixel`.
pub fn single_thread_render(scene: &Scene, rng: &mut StdRng) -> (r: Image)
    requires
        scene.wf(),
    ensures
        r.wf(),
        r.width == scene.config.width,
        r.height == scene.config.height,
        forall|x: int, y: int|
            0 <= x < r.width && 0 <= y < r.height ==> pixel_outcome(
                *scene,
                x,
                y,
                #[trigger] pixel_bytes(r.data@, x, y, r.width as int),
            ),
{
    let mut img = Image::new(scene.config.width, scene.config.height);
    let ghost w = scene.config.width as int;
    let mut y: usize = 0;
    while y < scene.config.height
        invariant
            scene.wf(),
            img.wf(),
            img.width == scene.config.width,
            img.height == scene.config.height,
            w == img.width,
            y <= scene.config.height,
            forall|k: int, l: int|
                0 <= k < w && 0 <= l < y ==> pixel_outcome(*scene, k, l, #[trigger] pixel_bytes(img.data@, k, l, w)),
        decreases scene.config.height - y,
    {
        let mut x: usize = 0;
        while x < scene.config.width
            invariant
                scene.wf(),
                img.wf(),
                img.width == scene.config.width,
                img.height == scene.config.height,
                w == img.width,
                y < scene.config.height,
                x <= scene.config.width,
                forall|k: int, l: int|
                    0 <= k < w && 0 <= l <= y && (l < y || k < x) ==> pixel_outcome(
                        *scene,
                        k,
                        l,
                        #[trigger] pixel_bytes(img.data@, k, l, w),
                    ),
            decreases scene.config.width - x,
        {
            let p = render_pixel(scene, x, y, rng);
            let ghost before = img.data@;
            img.set_pixel(x, y, p);
            proof {
                lemma_pixel_offset(x as int, y as int, w, img.height as int);
                assert forall|k: int, l: int|
                    0 <= k < w && 0 <= l <= y && (l < y || k < x + 1) implies pixel_outcome(
                        *scene,
                        k,
                        l,
                        #[trigger] pixel_bytes(img.data@, k, l, w),
                    ) by {
                    lemma_pixel_offset(k, l, w, img.height as int);
                    if k == x && l == y {
                        assert(pixel_bytes(img.data@, k, l, w) =~= p@);
                    } else {
                        lemma_pixels_disjoint(x as int, y as int, k, l, w);
                        assert(pixel_bytes(img.data@, k, l, w) =~= pixel_bytes(before, k, l, w));
                    }
                }
            }
            x = x + 1;
        }
        y = y + 1;
    }
    img
}

} // verus!
