use vstd::prelude::*;
use rand::rngs::StdRng;
use crate::fixed::{SCALE, lemma_mul_abs, lemma_div_abs};
use crate::vec3::{
    Vec3, Point3, V3, bounded3, add3, sub3, scale3, cross3, unit3, fmul, lemma_scale3_bound,
};
use crate::ray::Ray;
use crate::random::{random_in_unit_disc, in_unit_disc};

verus! {

/// Largest magnitude of a coordinate of the camera's position, target and up vector.
pub const CAMERA_MAX: i64 = 1_000_000_000;

/// The product of two fixed-point numbers in `[0, 16]`.
fn fmul_small(a: i64, b: i64) -> (r: i64)
    requires
        0 <= a <= 16 * SCALE,
        0 <= b <= 16 * SCALE,
    ensures
        r as int == fmul(a as int, b as int),
        0 <= r <= 256 * SCALE,
{
    proof {
        assert(0 <= (a as int) * (b as int) <= 256 * SCALE * SCALE) by (nonlinear_arith)
            requires 0 <= a <= 16 * SCALE, 0 <= b <= 16 * SCALE;
        lemma_div_abs(a as int * b as int, SCALE as int, 256 * SCALE);
        vstd::arithmetic::div_mod::lemma_div_pos_is_pos(a as int * b as int, SCALE as int);
    }
    ((a as i128 * b as i128) / (SCALE as i128)) as i64
}

/// A thin-lens camera: rays leave a disc of radius `lens_radius` around `origin` and pass
/// through the focus plane, spanned from `lower_left_corner` by `horizontal` and `vertical`.
#[derive(Debug, Clone, Copy)]
pub struct Camera {
    pub origin: Point3,
    pub horizontal: Vec3,
    pub vertical: Vec3,
    pub lower_left_corner: Point3,
    pub u: Vec3,
    pub v: Vec3,
    pub w: Vec3,
    pub lens_radius: i64,
}

/// The ray of a camera through viewport coordinates `(s, t)`, given a point `disc` of the
/// unit lens disc.
pub open spec fn ray_through(
    origin: V3,
    horizontal: V3,
    vertical: V3,
    lower_left: V3,
    u: V3,
    v: V3,
    lens_radius: int,
    s: int,
    t: int,
    disc: V3,
) -> (V3, V3) {
    let rd = scale3(disc, lens_radius);
    let offset = add3(scale3(u, rd.0), scale3(v, rd.1));
    let target = add3(add3(lower_left, scale3(horizontal, s)), scale3(vertical, t));
    (add3(origin, offset), sub3(sub3(target, origin), offset))
}

impl Camera {
    /// The ranges the fields keep, which make every ray of the camera well formed.
    pub open spec fn wf(&self) -> bool {
        &&& bounded3(self.origin@, CAMERA_MAX as int)
        &&& bounded3(self.u@, SCALE as int)
        &&& bounded3(self.v@, 2 * SCALE)
        &&& bounded3(self.w@, SCALE as int)
        &&& bounded3(self.horizontal@, 4096 * SCALE)
        &&& bounded3(self.vertical@, 8192 * SCALE)
        &&& bounded3(self.lower_left_corner@, 16 * CAMERA_MAX)
        &&& 0 <= self.lens_radius <= 8 * SCALE
    }

    /// The camera at `look_from` facing `look_at`, with `vup` up, a viewport
    /// `viewport_height` high (twice the tangent of half the vertical field of view) and
    /// `aspect_ratio` times as wide, a lens of diameter `aperture`, and sharp focus at
    /// distance `focus_dist`.
    pub fn new(
        look_from: Vec3,
        look_at: Vec3,
        vup: Vec3,
        viewport_height: i64,
        aspect_ratio: i64,
        aperture: i64,
        focus_dist: i64,
    ) -> (r: Camera)
        requires
            bounded3(look_from@, CAMERA_MAX as int),
            bounded3(look_at@, CAMERA_MAX as int),
            bounded3(vup@, CAMERA_MAX as int),
            0 <= viewport_height <= 16 * SCALE,
            0 <= aspect_ratio <= 16 * SCALE,
            0 <= aperture <= 16 * SCALE,
            0 <= focus_dist <= 4096 * SCALE,
            fmul(fmul(aspect_ratio as int, viewport_height as int), focus_dist as int) <= 4096 * SCALE,
            fmul(viewport_height as int, focus_dist as int) <= 4096 * SCALE,
        ensures
            r.wf(),
            r.origin == look_from,
            r.w@ == unit3(sub3(look_from@, look_at@)),
            r.u@ == unit3(cross3(vup@, r.w@)),
            r.v@ == cross3(r.w@, r.u@),
            r.horizontal@ == scale3(r.u@, fmul(fmul(aspect_ratio as int, viewport_height as int), focus_dist as int)),
            r.vertical@ == scale3(r.v@, fmul(viewport_height as int, focus_dist as int)),
            r.lower_left_corner@ == sub3(
                sub3(sub3(look_from@, scale3(r.horizontal@, SCALE / 2)), scale3(r.vertical@, SCALE / 2)),
                scale3(r.w@, focus_dist as int),
            ),
            r.lens_radius == aperture / 2,
    {
        let viewport_width = fmul_small(aspect_ratio, viewport_height);
        let w = look_from.sub(&look_at).unit();
        let u = vup.cross(&w).unit();
        let v = w.cross(&u);
        proof {
            lemma_cross_unit_bound(w@, u@);
        }
        proof {
            assert(0 <= (viewport_width as int) * (focus_dist as int) <= 256 * 4096 * SCALE * SCALE) by (nonlinear_arith)
                requires 0 <= viewport_width <= 256 * SCALE, 0 <= focus_dist <= 4096 * SCALE;
            vstd::arithmetic::div_mod::lemma_div_pos_is_pos(viewport_width as int * focus_dist as int, SCALE as int);
            assert(0 <= (viewport_height as int) * (focus_dist as int) <= 16 * 4096 * SCALE * SCALE) by (nonlinear_arith)
                requires 0 <= viewport_height <= 16 * SCALE, 0 <= focus_dist <= 4096 * SCALE;
            vstd::arithmetic::div_mod::lemma_div_pos_is_pos(viewport_height as int * focus_dist as int, SCALE as int);
        }
        let hw = (viewport_width as i128 * focus_dist as i128 / SCALE as i128) as i64;
        let vf = (viewport_height as i128 * focus_dist as i128 / SCALE as i128) as i64;
        let horizontal = u.scale_short(hw);
        let vertical = v.scale_short(vf);
        proof {
            assert((SCALE as int) * (4096 * SCALE) <= (4096 * SCALE) * SCALE) by (nonlinear_arith);
            lemma_scale3_bound(u@, hw as int, SCALE as int, 4096 * SCALE, 4096 * SCALE);
            assert((2 * SCALE) * (4096 * SCALE) <= (8192 * SCALE) * SCALE) by (nonlinear_arith);
            lemma_scale3_bound(v@, vf as int, 2 * SCALE, 4096 * SCALE, 8192 * SCALE);
            assert((4096 * SCALE) * (SCALE / 2) <= (2048 * SCALE) * SCALE) by (nonlinear_arith);
            lemma_scale3_bound(horizontal@, SCALE / 2, 4096 * SCALE, SCALE / 2, 2048 * SCALE);
            assert((8192 * SCALE) * (SCALE / 2) <= (4096 * SCALE) * SCALE) by (nonlinear_arith);
            lemma_scale3_bound(vertical@, SCALE / 2, 8192 * SCALE, SCALE / 2, 4096 * SCALE);
            lemma_scale3_bound(w@, focus_dist as int, SCALE as int, 4096 * SCALE, 4096 * SCALE);
        }
        let half_h = horizontal.scale(SCALE / 2);
        let half_v = vertical.scale(SCALE / 2);
        let depth = w.scale_short(focus_dist);
        let lower_left_corner = look_from.sub(&half_h).sub(&half_v).sub(&depth);
        Camera {
            origin: look_from,
            horizontal,
            vertical,
            lower_left_corner,
            u,
            v,
            w,
            lens_radius: aperture / 2,
        }
    }

    /// The ray through viewport coordinates `(s, t)`, each from 0 to 1 across the viewport
    /// (up to 2 accepted), leaving a random point of the lens.
    pub fn get_ray(&self, s: i64, t: i64, rng: &mut StdRng) -> (r: Ray)
        requires
            self.wf(),
            0 <= s <= 2 * SCALE,
            0 <= t <= 2 * SCALE,
        ensures
            r.wf(),
            exists|d: V3| in_unit_disc(d) && (r.origin@, r.dir@) == self.ray_spec(s as int, t as int, d),
    {
        let disc = random_in_unit_disc(rng);
        self.ray_toward(s, t, disc)
    }

    pub open spec fn ray_spec(&self, s: int, t: int, disc: V3) -> (V3, V3) {
        ray_through(
            self.origin@,
            self.horizontal@,
            self.vertical@,
            self.lower_left_corner@,
            self.u@,
            self.v@,
            self.lens_radius as int,
            s,
            t,
            disc,
        )
    }

    /// The ray through viewport coordinates `(s, t)` leaving the lens at `disc`, a point of
    /// the unit disc.
    pub fn ray_toward(&self, s: i64, t: i64, disc: Vec3) -> (r: Ray)
        requires
            self.wf(),
            0 <= s <= 2 * SCALE,
            0 <= t <= 2 * SCALE,
            bounded3(disc@, SCALE as int),
        ensures
            r.wf(),
            (r.origin@, r.dir@) == self.ray_spec(s as int, t as int, disc@),
    {
        proof {
            assert((SCALE as int) * (8 * SCALE) <= (8 * SCALE) * SCALE) by (nonlinear_arith);
            lemma_scale3_bound(disc@, self.lens_radius as int, SCALE as int, 8 * SCALE, 8 * SCALE);
        }
        let rd = disc.scale(self.lens_radius);
        proof {
            lemma_scale3_bound(self.u@, rd.x as int, SCALE as int, 8 * SCALE, 8 * SCALE);
            assert((2 * SCALE) * (8 * SCALE) <= (16 * SCALE) * SCALE) by (nonlinear_arith);
            lemma_scale3_bound(self.v@, rd.y as int, 2 * SCALE, 8 * SCALE, 16 * SCALE);
            assert((4096 * SCALE) * (2 * SCALE) <= (8192 * SCALE) * SCALE) by (nonlinear_arith);
            lemma_scale3_bound(self.horizontal@, s as int, 4096 * SCALE, 2 * SCALE, 8192 * SCALE);
            assert((8192 * SCALE) * (2 * SCALE) <= (16384 * SCALE) * SCALE) by (nonlinear_arith);
            lemma_scale3_bound(self.vertical@, t as int, 8192 * SCALE, 2 * SCALE, 16384 * SCALE);
        }
        let offset = self.u.scale_short(rd.x).add(&self.v.scale_short(rd.y));
        let across = self.horizontal.scale(s);
        let up = self.vertical.scale(t);
        let target = self.lower_left_corner.add(&across).add(&up);
        let origin = self.origin.add(&offset);
        let dir = target.sub(&self.origin).sub(&offset);
        Ray::new(origin, dir)
    }
}

/// The cross product of two vectors of at most unit components has components of at
/// most two.
proof fn lemma_cross_unit_bound(a: V3, b: V3)
    requires
        bounded3(a, SCALE as int),
        bounded3(b, SCALE as int),
    ensures
        bounded3(cross3(a, b), 2 * SCALE),
{
    let s = SCALE as int;
    lemma_mul_abs(a.0, b.1, s, s);
    lemma_mul_abs(a.0, b.2, s, s);
    lemma_mul_abs(a.1, b.0, s, s);
    lemma_mul_abs(a.1, b.2, s, s);
    lemma_mul_abs(a.2, b.0, s, s);
    lemma_mul_abs(a.2, b.1, s, s);
    assert(2 * s * s == (2 * s) * s) by (nonlinear_arith);
    lemma_div_abs(a.1 * b.2 - a.2 * b.1, s, 2 * s);
    lemma_div_abs(a.2 * b.0 - a.0 * b.2, s, 2 * s);
    lemma_div_abs(a.0 * b.1 - a.1 * b.0, s, 2 * s);
}

} // verus!
