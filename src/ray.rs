use vstd::prelude::*;
use crate::fixed::{SCALE, floor_div, lemma_mul_abs, lemma_div_abs};
use rand::rngs::StdRng;
use crate::vec3::{Vec3, Point3, Color, V3, COORD_MAX, bounded3, add3, scale3, fmul, mul3, unit3, dot3};
use crate::material::{Material, color_ok};
use crate::objects::{HitList, nearest_spec};
use crate::hittable::{Hit, Hittable, T_MIN};

verus! {

/// A half-line: the points `origin + t * dir` for `t >= 0`.
#[derive(Debug, Clone, Copy)]
pub struct Ray {
    pub dir: Vec3,
    pub origin: Point3,
}

/// The point at parameter `t` (fixed-point) along the ray from `o` in direction `d`.
pub open spec fn at3(o: V3, d: V3, t: int) -> V3 {
    add3(o, scale3(d, t))
}

/// Height of a direction on the background gradient: 0 straight down, `SCALE` straight up.
pub open spec fn gradient_height(d: V3) -> int {
    (unit3(d).1 + SCALE) / 2
}

/// The colour of the sky seen along direction `d`: white at the bottom, blending linearly
/// into light blue `(0.5, 0.7, 1.0)` at the top.
pub open spec fn background3(d: V3) -> V3 {
    let t = gradient_height(d);
    (
        SCALE + fmul(SCALE / 2 - SCALE, t),
        SCALE + fmul(7 * SCALE / 10 - SCALE, t),
        SCALE + fmul(SCALE - SCALE, t),
    )
}

/// `c` is a colour that tracing `ray` through `world` with `depth` bounces left can give,
/// when the colour filtered so far is `acc`: black once the bounces run out; `acc` times
/// the sky colour if the ray meets nothing; black if the surface it meets absorbs it; else
/// what the scattered ray gives, from the hit point, with `acc` filtered by the surface.
pub open spec fn traces_to(world: HitList, ray: Ray, depth: nat, acc: V3, c: V3) -> bool
    decreases depth,
{
    if depth == 0 {
        c == (0int, 0int, 0int)
    } else {
        exists|h: Option<Hit>|
            #![trigger world.hits_as(ray, T_MIN as int, i64::MAX as int, h)]
            world.hits_as(ray, T_MIN as int, i64::MAX as int, h) && match h {
                None => c == mul3(acc, background3(ray.dir@)),
                Some(hit) => match hit.scatter {
                    None => c == (0int, 0int, 0int),
                    Some(s) => traces_to(
                        world,
                        Ray { dir: s.scattered, origin: hit.point },
                        (depth - 1) as nat,
                        mul3(acc, s.attenuation@),
                        c,
                    ),
                },
            }
    }
}

/// The sky straight up is light blue `(0.5, 0.7, 1.0)`, straight down white.
pub proof fn lemma_background_vertical(y: int)
    requires
        y != 0,
    ensures
        y > 0 ==> background3((0, y, 0)) == (SCALE / 2, 7 * SCALE / 10, SCALE as int),
        y < 0 ==> background3((0, y, 0)) == (SCALE as int, SCALE as int, SCALE as int),
{
    let s = SCALE as int;
    let m = if y > 0 { y } else { -y };
    let e = if y > 0 { s } else { -s };
    assert(dot3((0, y, 0), (0, y, 0)) == m * m) by (nonlinear_arith)
        requires m == y || m == -y;
    assert(crate::fixed::is_root(m * m, m)) by (nonlinear_arith)
        requires m > 0;
    crate::fixed::lemma_root(m * m, m);
    assert(y * s == m * e) by (nonlinear_arith)
        requires m == (if y > 0 { y } else { -y }), e == (if y > 0 { s } else { -s });
    vstd::arithmetic::div_mod::lemma_fundamental_div_mod_converse(y * s, m, e, 0);
    assert(y * SCALE == y * s);
    assert(unit3((0, y, 0)) == (0int, e, 0int));
    let t = (e + s) / 2;
    if y > 0 {
        assert(t == s);
        vstd::arithmetic::div_mod::lemma_fundamental_div_mod_converse((s / 2 - s) * s, s, s / 2 - s, 0);
        vstd::arithmetic::div_mod::lemma_fundamental_div_mod_converse((7 * s / 10 - s) * s, s, 7 * s / 10 - s, 0);
        assert((s - s) * s == 0);
    } else {
        assert(t == 0);
    }
}

/// Filtering a colour of `[0, 1]` by another keeps it in `[0, 1]`.
pub proof fn lemma_filter_ok(c: V3, f: V3)
    requires
        color_ok(c),
        color_ok(f),
    ensures
        color_ok(mul3(c, f)),
{
    lemma_fmul_unit(c.0, f.0);
    lemma_fmul_unit(c.1, f.1);
    lemma_fmul_unit(c.2, f.2);
}

proof fn lemma_fmul_one(b: int)
    ensures
        fmul(SCALE as int, b) == b,
{
    assert(SCALE * b == (SCALE as int) * b);
    vstd::arithmetic::div_mod::lemma_fundamental_div_mod_converse(SCALE * b, SCALE as int, b, 0);
}

proof fn lemma_fmul_unit(a: int, b: int)
    requires
        0 <= a <= SCALE,
        0 <= b <= SCALE,
    ensures
        0 <= fmul(a, b) <= SCALE,
{
    assert(0 <= a * b <= SCALE * SCALE) by (nonlinear_arith)
        requires 0 <= a <= SCALE, 0 <= b <= SCALE;
    lemma_div_abs(a * b, SCALE as int, SCALE as int);
    vstd::arithmetic::div_mod::lemma_div_pos_is_pos(a * b, SCALE as int);
}

impl Ray {
    /// Origin and direction lie in the representable box.
    pub open spec fn wf(&self) -> bool {
        self.dir.wf() && self.origin.wf()
    }

    pub fn new(origin: Point3, dir: Vec3) -> (r: Ray)
        ensures
            r.origin == origin,
            r.dir == dir,
    {
        Ray { dir, origin }
    }

    pub fn dir(&self) -> (r: &Vec3)
        ensures
            *r == self.dir,
    {
        &self.dir
    }

    pub fn origin(&self) -> (r: &Point3)
        ensures
            *r == self.origin,
    {
        &self.origin
    }

    /// The point at parameter `t`, or `None` where it leaves the representable box.
    pub fn at(&self, t: i64) -> (r: Option<Point3>)
        requires
            self.wf(),
        ensures
            r is Some <==> bounded3(at3(self.origin@, self.dir@, t as int), COORD_MAX as int),
            r matches Some(p) ==> p@ == at3(self.origin@, self.dir@, t as int),
    {
        proof {
            let c = COORD_MAX as int;
            let tm = 0x8000_0000_0000_0000int;
            lemma_mul_abs(self.dir.x as int, t as int, c, tm);
            lemma_mul_abs(self.dir.y as int, t as int, c, tm);
            lemma_mul_abs(self.dir.z as int, t as int, c, tm);
            lemma_div_abs(self.dir.x * t, SCALE as int, c * tm);
            lemma_div_abs(self.dir.y * t, SCALE as int, c * tm);
            lemma_div_abs(self.dir.z * t, SCALE as int, c * tm);
        }
        let s = SCALE as i128;
        let x = self.origin.x as i128 + floor_div(self.dir.x as i128 * t as i128, s);
        let y = self.origin.y as i128 + floor_div(self.dir.y as i128 * t as i128, s);
        let z = self.origin.z as i128 + floor_div(self.dir.z as i128 * t as i128, s);
        let m = COORD_MAX as i128;
        if -m <= x && x <= m && -m <= y && y <= m && -m <= z && z <= m {
            Some(Vec3 { x: x as i64, y: y as i64, z: z as i64 })
        } else {
            None
        }
    }

    /// The colour seen along this ray: it bounces from surface to surface, each bounce
    /// filtering the colour, until it escapes to the sky (the colour so far times the sky
    /// colour) or is absorbed (black). A path still bouncing after `max_depth` bounces
    /// contributes black.
    pub fn compute_color(&self, world: &HitList, max_depth: usize, rng: &mut StdRng) -> (r: Color)
        requires
            self.wf(),
            world.wf(),
        ensures
            traces_to(*world, *self, max_depth as nat, (SCALE as int, SCALE as int, SCALE as int), r@),
            color_ok(r@),
            max_depth == 0 ==> r@ == (0int, 0int, 0int),
            max_depth > 0 && nearest_spec(world.objects@, *self, T_MIN as int, i64::MAX as int) is None
                ==> r@ == background3(self.dir@),
    {
        let ghost white: V3 = (SCALE as int, SCALE as int, SCALE as int);
        let mut ray = *self;
        let mut color = Vec3::white();
        let mut depth: usize = 0;
        while depth < max_depth
            invariant
                white == (SCALE as int, SCALE as int, SCALE as int),
                ray.wf(),
                world.wf(),
                color_ok(color@),
                depth <= max_depth,
                depth == 0 ==> ray == *self && color@ == white,
                nearest_spec(world.objects@, *self, T_MIN as int, i64::MAX as int) is None ==> depth
                    == 0,
                forall|c: V3|
                    #[trigger] traces_to(*world, ray, (max_depth - depth) as nat, color@, c)
                        ==> traces_to(*world, *self, max_depth as nat, white, c),
            decreases max_depth - depth,
        {
            let ghost k: nat = (max_depth - depth) as nat;
            let found = world.hit(&ray, T_MIN, i64::MAX, rng);
            match found {
                None => {
                    let sky = ray.bg_color();
                    proof {
                        lemma_filter_ok(color@, sky@);
                        lemma_fmul_one(sky.x as int);
                        lemma_fmul_one(sky.y as int);
                        lemma_fmul_one(sky.z as int);
                        assert(traces_to(*world, ray, (max_depth - depth) as nat, color@, mul3(color@, sky@)));
                    }
                    return color.mul(&sky);
                },
                Some(h) => {
                    match h.scatter {
                        None => {
                            proof {
                                assert(traces_to(*world, ray, (max_depth - depth) as nat, color@, (0int, 0int, 0int)));
                            }
                            return Vec3::black();
                        },
                        Some(s) => {
                            proof {
                                lemma_filter_ok(color@, s.attenuation@);
                            }
                            let next = Ray::new(h.point, s.scattered);
                            let filtered = color.mul(&s.attenuation);
                            proof {
                                assert forall|c: V3|
                                    #[trigger] traces_to(*world, next, (max_depth - (depth + 1)) as nat, filtered@, c)
                                        implies traces_to(*world, *self, max_depth as nat, white, c) by {
                                    assert((max_depth - (depth + 1)) as nat == (k - 1) as nat);
                                    assert(traces_to(*world, ray, k, color@, c));
                                    assert(traces_to(*world, ray, (max_depth - depth) as nat, color@, c));
                                }
                            }
                            ray = next;
                            color = filtered;
                        },
                    }
                },
            }
            depth = depth + 1;
        }
        proof {
            assert(traces_to(*world, ray, (max_depth - depth) as nat, color@, (0int, 0int, 0int)));
        }
        Vec3::black()
    }

    /// The sky colour in the direction of this ray.
    pub fn bg_color(&self) -> (r: Color)
        requires
            self.dir.wf(),
        ensures
            r@ == background3(self.dir@),
            bounded3(r@, SCALE as int),
            SCALE / 2 <= r.x <= SCALE,
            7 * SCALE / 10 <= r.y <= SCALE,
            r.z == SCALE,
    {
        let dir = self.dir.unit();
        let t = (dir.y + SCALE) / 2;
        proof {
            let ti = t as int;
            assert(0 <= ti <= SCALE);
            lemma_fmul_blend(SCALE / 2 - SCALE, ti);
            lemma_fmul_blend(7 * SCALE / 10 - SCALE, ti);
        }
        let white = Vec3::white();
        let sky = Vec3::new(SCALE / 2, 7 * SCALE / 10, SCALE);
        Vec3::lerp(white, sky, t)
    }
}

/// `fmul(-k, t)` with `0 <= t <= SCALE` and `0 <= k <= SCALE` lies in `[-k, 0]`.
proof fn lemma_fmul_blend(a: int, t: int)
    requires
        -SCALE <= a <= 0,
        0 <= t <= SCALE,
    ensures
        a <= fmul(a, t) <= 0,
{
    assert(a * SCALE <= a * t <= 0) by (nonlinear_arith)
        requires -SCALE <= a <= 0, 0 <= t <= SCALE;
    lemma_div_abs(a * t, SCALE as int, -a);
    assert(a * t / (SCALE as int) <= 0) by {
        vstd::arithmetic::div_mod::lemma_div_is_ordered(a * t, 0, SCALE as int);
    }
    vstd::arithmetic::div_mod::lemma_div_is_ordered(a * SCALE, a * t, SCALE as int);
    vstd::arithmetic::div_mod::lemma_fundamental_div_mod_converse(a * SCALE, SCALE as int, a, 0);
}

} // verus!
