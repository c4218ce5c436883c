use vstd::prelude::*;
use rand::rngs::StdRng;
use crate::fixed::{SCALE, SCALE_SQ, abs_le, floor_div, isqrt, root, lemma_mul_abs, lemma_div_abs};
use crate::vec3::{
    Vec3, Color, V3, COORD_MAX, bounded3, add3, sub3, neg3, dot3, scale3, unit3, lemma_scale3_bound,
    lemma_dot3_bound,
};
use crate::ray::Ray;
use crate::random::{random_unit, random_fraction, in_unit_ball};

verus! {

/// Smallest refractive index (about `0.000245`): the ratio of indices across a surface,
/// and with it the refracted direction, must stay within the representable range.
pub const IOR_MIN: i64 = 245;

/// Largest refractive index (4096), for the same reason.
pub const IOR_MAX: i64 = 4_096_000_000;

/// Squared length (in units of `SCALE * SCALE`) under which a diffuse direction counts as
/// degenerate: `1e-8` world units squared.
pub const DEGENERATE_SQ: i128 = 10_000;

/// Every channel of a colour lies in `[0, 1]`.
pub open spec fn color_ok(c: V3) -> bool {
    0 <= c.0 <= SCALE && 0 <= c.1 <= SCALE && 0 <= c.2 <= SCALE
}

/// Mirror image of `v` about the plane with unit normal `n`: `v - 2 (v . n) n`.
pub open spec fn reflect3(v: V3, n: V3) -> V3 {
    sub3(v, scale3(n, 2 * (dot3(v, n) / (SCALE as int))))
}

/// Cosine of the angle between `-u` and `n`, capped at one.
pub open spec fn cos3(u: V3, n: V3) -> int {
    let c = dot3(neg3(u), n) / (SCALE as int);
    if c < SCALE { c } else { SCALE as int }
}

/// Snell's law in vector form for the unit direction `u`, unit normal `n` and ratio of
/// refractive indices `ratio`; a negative radicand is taken as zero.
pub open spec fn refract3(u: V3, n: V3, ratio: int) -> V3 {
    let perp = scale3(add3(u, scale3(n, cos3(u, n))), ratio);
    let rad = SCALE * SCALE - dot3(perp, perp);
    let par = scale3(neg3(n), root(if rad > 0 { rad } else { 0 }));
    add3(perp, par)
}

/// Reflectance at normal incidence for the index ratio `ratio`: `((1 - ratio) / (1 + ratio))^2`.
pub open spec fn schlick_r0(ratio: int) -> int {
    let s = SCALE as int;
    let q = (s - ratio) * s / (s + ratio);
    q * q / s
}

/// Schlick's approximation of the reflectance at cosine `cos` for the index ratio `ratio`.
pub open spec fn schlick(cos: int, ratio: int) -> int {
    let s = SCALE as int;
    let r0 = schlick_r0(ratio);
    let x = s - cos;
    let p = x * x * x * x * x / (s * s * s * s);
    r0 + (s - r0) * p / s
}

/// Direction scattered by a diffuse surface with normal `n`, given a random unit vector `u`.
pub open spec fn diffuse_dir(n: V3, u: V3) -> V3 {
    let d = add3(n, u);
    if dot3(d, d) < DEGENERATE_SQ { n } else { d }
}

/// Direction of a fuzzy mirror reflection of `dir` about `n`, given a random unit vector `u`:
/// the reflection of `dir` itself plus `fuzz * u`.
pub open spec fn metal_dir(dir: V3, n: V3, u: V3, fuzz: int) -> V3 {
    add3(reflect3(dir, n), scale3(u, fuzz))
}

/// A metal re-emits the blurred reflection `m` where it leaves the surface (`m . n >= 0`)
/// and stays in the representable box; otherwise the ray is absorbed.
pub open spec fn metal_keeps(m: V3, n: V3) -> bool {
    dot3(m, n) >= 0 && bounded3(m, COORD_MAX as int)
}

/// Ratio of the refractive indices across a dielectric surface of index `ior`.
pub open spec fn ior_ratio(ior: int, front: bool) -> int {
    if front { SCALE * SCALE / ior } else { ior }
}

/// Sine from cosine; a negative radicand is taken as zero.
pub open spec fn sin_of(cos: int) -> int {
    let rad = SCALE * SCALE - cos * cos;
    root(if rad > 0 { rad } else { 0 })
}

/// Refraction is impossible: total internal reflection.
pub open spec fn must_reflect(ratio: int, sin: int) -> bool {
    ratio * sin > SCALE * SCALE
}

/// Direction leaving a dielectric surface, given a uniform draw `xi` in `[0, SCALE)`.
pub open spec fn dielectric_dir(dir: V3, n: V3, front: bool, ior: int, xi: int) -> V3 {
    let u = unit3(dir);
    let ratio = ior_ratio(ior, front);
    let c = cos3(u, n);
    if must_reflect(ratio, sin_of(c)) || schlick(c, ratio) > xi {
        reflect3(u, n)
    } else {
        refract3(u, n, ratio)
    }
}

/// At normal incidence (`cos = 1`) Schlick's approximation is exactly the base reflectance.
pub proof fn lemma_schlick_normal_incidence(ratio: int)
    ensures
        schlick(SCALE as int, ratio) == schlick_r0(ratio),
{
    let s = SCALE as int;
    assert(0int * 0 * 0 * 0 * 0 == 0);
    assert((s - schlick_r0(ratio)) * 0 == 0);
}

/// Mirror reflection of `incident` about the plane with unit normal `normal`.
pub fn reflect(incident: Vec3, normal: Vec3) -> (r: Vec3)
    requires
        incident.wf(),
        bounded3(normal@, SCALE as int),
    ensures
        r@ == reflect3(incident@, normal@),
        bounded3(r@, 7 * COORD_MAX),
        bounded3(incident@, SCALE as int) ==> bounded3(r@, 7 * SCALE),
{
    let d = incident.dot(&normal);
    proof {
        lemma_dot3_bound(incident@, normal@, COORD_MAX as int, SCALE as int);
        assert(3 * COORD_MAX * SCALE == (3 * COORD_MAX) * SCALE) by (nonlinear_arith);
        lemma_div_abs(d as int, SCALE as int, 3 * COORD_MAX);
        if bounded3(incident@, SCALE as int) {
            lemma_dot3_bound(incident@, normal@, SCALE as int, SCALE as int);
            lemma_div_abs(d as int, SCALE as int, 3 * SCALE);
        }
    }
    let k = floor_div(d, SCALE as i128) as i64;
    proof {
        assert((SCALE as int) * (6 * COORD_MAX) <= (6 * COORD_MAX) * SCALE) by (nonlinear_arith);
        lemma_scale3_bound(normal@, 2 * k, SCALE as int, 6 * COORD_MAX, 6 * COORD_MAX);
        if bounded3(incident@, SCALE as int) {
            assert((SCALE as int) * (6 * SCALE) <= (6 * SCALE) * SCALE) by (nonlinear_arith);
            lemma_scale3_bound(normal@, 2 * k, SCALE as int, 6 * SCALE, 6 * SCALE);
        }
    }
    let m = normal.scale_wide_factor(2 * k);
    incident.sub(&m)
}

/// Refraction of the unit direction `incident` through the surface with unit normal `normal`.
pub fn refract(incident: Vec3, normal: Vec3, ior_ratio: i64) -> (r: Vec3)
    requires
        bounded3(incident@, SCALE as int),
        bounded3(normal@, SCALE as int),
        0 < ior_ratio <= 4096 * SCALE,
    ensures
        r@ == refract3(incident@, normal@, ior_ratio as int),
        bounded3(r@, 16385 * SCALE),
{
    let back = incident.neg();
    let d = back.dot(&normal);
    proof {
        lemma_dot3_bound(back@, normal@, SCALE as int, SCALE as int);
        lemma_div_abs(d as int, SCALE as int, 3 * SCALE);
    }
    let c0 = floor_div(d, SCALE as i128) as i64;
    let cos_theta = if c0 < SCALE { c0 } else { SCALE };
    proof {
        assert((SCALE as int) * (3 * SCALE) <= (3 * SCALE) * SCALE) by (nonlinear_arith);
        lemma_scale3_bound(normal@, cos_theta as int, SCALE as int, 3 * SCALE, 3 * SCALE);
    }
    let t = incident.add(&normal.scale(cos_theta));
    let perp = t.scale_short(ior_ratio);
    proof {
        assert((4 * SCALE) * (4096 * SCALE) <= (16384 * SCALE) * SCALE) by (nonlinear_arith);
        lemma_scale3_bound(t@, ior_ratio as int, 4 * SCALE, 4096 * SCALE, 16384 * SCALE);
    }
    let m = perp.mag_sq();
    let rad = SCALE_SQ - m;
    let root_rad = isqrt(if rad > 0 { rad } else { 0 });
    proof {
        assert(root_rad <= SCALE) by (nonlinear_arith)
            requires root_rad * root_rad <= (if rad > 0 { rad } else { 0 }), rad <= SCALE_SQ, root_rad >= 0;
        assert((SCALE as int) * (SCALE as int) <= (SCALE as int) * SCALE) by (nonlinear_arith);
        lemma_scale3_bound(neg3(normal@), root_rad as int, SCALE as int, SCALE as int, SCALE as int);
    }
    let par = normal.neg().scale(root_rad as i64);
    perp.add(&par)
}

/// What a surface re-emits: a colour filter and the direction of the new ray.
#[derive(Debug, Clone, Copy)]
pub struct Scatter {
    pub attenuation: Color,
    pub scattered: Vec3,
}

impl Scatter {
    pub fn new(attenuation: Color, scattered: Vec3) -> (r: Scatter)
        ensures
            r.attenuation == attenuation,
            r.scattered == scattered,
    {
        Self { attenuation, scattered }
    }

    /// Filter colour within `[0, 1]` and a direction of bounded length.
    pub open spec fn valid(&self) -> bool {
        color_ok(self.attenuation@) && bounded3(self.scattered@, COORD_MAX as int)
    }
}

/// A surface model: whether an incoming ray is absorbed, or re-emitted with which filter.
pub trait Material {
    /// The material's parameters lie in their ranges.
    spec fn valid(&self) -> bool;

    /// `r` is a possible outcome of scattering a ray with direction `dir` at a surface
    /// with normal `normal`, hit from the outside when `front`.
    spec fn scatters_as(&self, dir: V3, normal: V3, front: bool, r: Option<Scatter>) -> bool;

    /// Scatter `ray`, which hit a surface with unit normal `normal` (opposing the ray) from
    /// the outside when `is_front`. Any re-emitted colour lies in `[0, 1]`.
    fn scatter(&self, ray: &Ray, normal: Vec3, is_front: bool, rng: &mut StdRng) -> (r: Option<
        Scatter,
    >)
        requires
            self.valid(),
            ray.wf(),
            bounded3(normal@, SCALE as int),
        ensures
            r matches Some(s) ==> s.valid(),
            self.scatters_as(ray.dir@, normal@, is_front, r),
    ;
}

/// Lambertian surface: re-emits in a random direction around the normal, filtered by `albedo`.
#[derive(Debug, Clone, Copy)]
pub struct Diffuse {
    pub albedo: Color,
}

impl Diffuse {
    pub fn new(albedo: Color) -> (r: Diffuse)
        ensures
            r.albedo == albedo,
    {
        Diffuse { albedo }
    }

    /// The scatter for the random unit vector `offset`.
    pub fn scatter_toward(&self, normal: Vec3, offset: Vec3) -> (r: Scatter)
        requires
            bounded3(normal@, SCALE as int),
            bounded3(offset@, SCALE as int),
        ensures
            r.attenuation == self.albedo,
            r.scattered@ == diffuse_dir(normal@, offset@),
            bounded3(r.scattered@, 2 * SCALE),
    {
        let d = normal.add(&offset);
        let scatter_dir = if d.mag_sq() < DEGENERATE_SQ { normal } else { d };
        Scatter::new(self.albedo, scatter_dir)
    }
}

impl Default for Diffuse {
    /// A mid-gray diffuse surface.
    fn default() -> (r: Diffuse)
        ensures
            r.albedo@ == (SCALE / 2, SCALE / 2, SCALE / 2),
    {
        Diffuse::new(Vec3::mid_gray())
    }
}

impl Material for Diffuse {
    open spec fn valid(&self) -> bool {
        color_ok(self.albedo@)
    }

    /// Always re-emitted, filtered by the albedo, towards the normal plus a random unit vector.
    open spec fn scatters_as(&self, dir: V3, normal: V3, front: bool, r: Option<Scatter>) -> bool {
        exists|p: V3|
            #![trigger unit3(p)]
            in_unit_ball(p) && (r matches Some(s) && s.attenuation == self.albedo && s.scattered@
                == diffuse_dir(normal, unit3(p)))
    }

    fn scatter(&self, ray: &Ray, normal: Vec3, is_front: bool, rng: &mut StdRng) -> (r: Option<
        Scatter,
    >) {
        let offset = random_unit(rng);
        let ghost p = choose|p: V3| in_unit_ball(p) && offset@ == unit3(p);
        let r = Some(self.scatter_toward(normal, offset));
        assert(in_unit_ball(p) && (r matches Some(s) && s.attenuation == self.albedo && s.scattered@
            == diffuse_dir(normal@, unit3(p))));
        r
    }
}

/// Mirror-like surface; `fuzzy` in `[0, 1]` blurs the reflection.
#[derive(Debug, Clone, Copy)]
pub struct Metal {
    pub albedo: Color,
    pub fuzzy: i64,
}

impl Metal {
    pub fn new(albedo: Color, fuzzy: i64) -> (r: Metal)
        ensures
            r.albedo == albedo,
            r.fuzzy == fuzzy,
    {
        Self { albedo, fuzzy }
    }

    /// The scatter of a ray with direction `dir` for the random unit vector `offset`:
    /// absorbed where the blurred reflection points into the surface, or is too long to
    /// represent.
    pub fn scatter_toward(&self, dir: Vec3, normal: Vec3, offset: Vec3) -> (r: Option<Scatter>)
        requires
            0 <= self.fuzzy <= SCALE,
            dir.wf(),
            bounded3(normal@, SCALE as int),
            bounded3(offset@, SCALE as int),
        ensures
            r is Some <==> metal_keeps(metal_dir(dir@, normal@, offset@, self.fuzzy as int), normal@),
            r matches Some(s) ==> s.attenuation == self.albedo && s.scattered@ == metal_dir(
                dir@,
                normal@,
                offset@,
                self.fuzzy as int,
            ),
    {
        let m = reflect(dir, normal);
        proof {
            assert((SCALE as int) * (SCALE as int) <= (SCALE as int) * SCALE) by (nonlinear_arith);
            lemma_scale3_bound(offset@, self.fuzzy as int, SCALE as int, SCALE as int, SCALE as int);
        }
        let reflected = m.add(&offset.scale(self.fuzzy));
        let c = COORD_MAX;
        let inside = -c <= reflected.x && reflected.x <= c && -c <= reflected.y && reflected.y <= c
            && -c <= reflected.z && reflected.z <= c;
        if inside && reflected.dot(&normal) >= 0 {
            Some(Scatter::new(self.albedo, reflected))
        } else {
            None
        }
    }
}

impl Default for Metal {
    /// A perfect white mirror.
    fn default() -> (r: Metal)
        ensures
            r.albedo@ == (SCALE as int, SCALE as int, SCALE as int),
            r.fuzzy == 0,
    {
        Metal::new(Vec3::white(), 0)
    }
}

/// Without fuzz a metal is a perfect mirror: the scattered direction is the exact mirror
/// image of the incoming direction about the normal, whatever the random vector.
pub proof fn lemma_sharp_metal_mirrors(dir: V3, n: V3, u: V3)
    ensures
        metal_dir(dir, n, u, 0) == reflect3(dir, n),
{
    assert(scale3(u, 0) == (0int, 0int, 0int));
}

/// Reflection about the horizontal plane (normal straight up) keeps the horizontal
/// components and negates the vertical one, so the angle to the normal is kept:
/// `reflected . n == -(incident . n)`.
pub proof fn lemma_reflect_level(v: V3)
    ensures
        reflect3(v, (0, SCALE as int, 0)) == (v.0, -v.1, v.2),
        dot3(reflect3(v, (0, SCALE as int, 0)), (0, SCALE as int, 0)) == -dot3(v, (0, SCALE as int, 0)),
{
    let s = SCALE as int;
    let n: V3 = (0, s, 0);
    assert(dot3(v, n) == v.1 * s) by (nonlinear_arith)
        requires n == (0int, s, 0int);
    assert(v.1 * s == s * v.1) by (nonlinear_arith);
    vstd::arithmetic::div_mod::lemma_fundamental_div_mod_converse(v.1 * s, s, v.1, 0);
    assert(s * (2 * v.1) == s * (2 * v.1) + 0);
    vstd::arithmetic::div_mod::lemma_fundamental_div_mod_converse(s * (2 * v.1), s, 2 * v.1, 0);
    assert(scale3(n, 2 * v.1) == (0int, 2 * v.1, 0int));
    assert(dot3((v.0, -v.1, v.2), n) == -(v.1 * s)) by (nonlinear_arith)
        requires n == (0int, s, 0int);
}

proof fn lemma_reflect_component(v: int, n: int, k: int) -> (sigma: int)
    ensures
        0 <= sigma < SCALE,
        SCALE * ((v - (n * k) / (SCALE as int)) * n) == SCALE * (v * n) - k * (n * n) + sigma * n,
{
    let s = SCALE as int;
    vstd::arithmetic::div_mod::lemma_fundamental_div_mod(n * k, s);
    vstd::arithmetic::div_mod::lemma_mod_bound(n * k, s);
    let q = (n * k) / s;
    let sigma = (n * k) % s;
    assert(s * ((v - q) * n) == s * (v * n) - k * (n * n) + sigma * n) by (nonlinear_arith)
        requires n * k == s * q + sigma;
    sigma
}

/// The angle of reflection equals the angle of incidence, up to rounding: for a normal of
/// length one up to rounding (as every hit reports), the reflection's component along the
/// normal is the incident's negated, within `5 SCALE + 2 (|v . n| + SCALE)(8 SCALE + 4) / SCALE^2`
/// (in units of `SCALE^2`; about `6e-5` for a unit incident direction).
pub proof fn lemma_reflect_keeps_angle(v: V3, n: V3)
    requires
        bounded3(n, SCALE as int),
        SCALE * SCALE - 6 * SCALE <= dot3(n, n) <= SCALE * SCALE + 8 * SCALE + 4,
    ensures
        abs_le(
            SCALE * SCALE * (dot3(reflect3(v, n), n) + dot3(v, n)),
            5 * SCALE * SCALE * SCALE + 2 * ((if dot3(v, n) >= 0 { dot3(v, n) } else { -dot3(v, n) }) + SCALE) * (8 * SCALE + 4),
        ),
{
    let s = SCALE as int;
    let d = dot3(v, n);
    vstd::arithmetic::div_mod::lemma_fundamental_div_mod(d, s);
    vstd::arithmetic::div_mod::lemma_mod_bound(d, s);
    let f = d / s;
    let rho = d % s;
    let k = 2 * f;
    let s0 = lemma_reflect_component(v.0, n.0, k);
    let s1 = lemma_reflect_component(v.1, n.1, k);
    let s2 = lemma_reflect_component(v.2, n.2, k);
    let r = reflect3(v, n);
    assert(r == (v.0 - (n.0 * k) / s, v.1 - (n.1 * k) / s, v.2 - (n.2 * k) / s));
    let nn = dot3(n, n);
    let e = s0 * n.0 + s1 * n.1 + s2 * n.2;
    let rn = dot3(r, n);
    vstd::arithmetic::mul::lemma_mul_is_distributive_add(s, r.0 * n.0, r.1 * n.1);
    vstd::arithmetic::mul::lemma_mul_is_distributive_add(s, r.0 * n.0 + r.1 * n.1, r.2 * n.2);
    vstd::arithmetic::mul::lemma_mul_is_distributive_add(s, v.0 * n.0, v.1 * n.1);
    vstd::arithmetic::mul::lemma_mul_is_distributive_add(s, v.0 * n.0 + v.1 * n.1, v.2 * n.2);
    vstd::arithmetic::mul::lemma_mul_is_distributive_add(k, n.0 * n.0, n.1 * n.1);
    vstd::arithmetic::mul::lemma_mul_is_distributive_add(k, n.0 * n.0 + n.1 * n.1, n.2 * n.2);
    assert(s * rn == s * d - k * nn + e);
    let delta = nn - s * s;
    assert(s * (s * rn) == s * (s * d) - s * (k * nn) + s * e) by (nonlinear_arith)
        requires s * rn == s * d - k * nn + e;
    assert(s * k == 2 * (d - rho)) by (nonlinear_arith)
        requires k == 2 * f, d == s * f + rho;
    assert(s * (k * nn) == 2 * (d - rho) * (s * s) + 2 * (d - rho) * delta) by (nonlinear_arith)
        requires s * k == 2 * (d - rho), nn == s * s + delta;
    assert(s * (s * rn) == s * s * rn && s * (s * d) == s * s * d) by (nonlinear_arith);
    assert(2 * (d - rho) * (s * s) == 2 * d * s * s - 2 * rho * s * s) by (nonlinear_arith);
    assert(s * s * (rn + d) == s * s * rn + s * s * d) by (nonlinear_arith);
    assert(s * s * (rn + d) == 2 * rho * s * s - 2 * (d - rho) * delta + s * e);
    assert(abs_le(e, 3 * s * s)) by (nonlinear_arith)
        requires
            e == s0 * n.0 + s1 * n.1 + s2 * n.2,
            0 <= s0 < s, 0 <= s1 < s, 0 <= s2 < s,
            -s <= n.0 <= s, -s <= n.1 <= s, -s <= n.2 <= s;
    let ad = if d >= 0 { d } else { -d };
    assert(abs_le(2 * (d - rho) * delta, 2 * (ad + s) * (8 * s + 4))) by (nonlinear_arith)
        requires
            0 <= rho < s,
            -6 * s <= delta <= 8 * s + 4,
            ad == (if d >= 0 { d } else { -d }),
            s > 0;
    assert(abs_le(s * e, 3 * s * s * s)) by (nonlinear_arith)
        requires abs_le(e, 3 * s * s), s > 0;
    assert(0 <= 2 * rho * s * s <= 2 * s * s * s) by (nonlinear_arith)
        requires 0 <= rho < s, s > 0;
}

impl Material for Metal {
    open spec fn valid(&self) -> bool {
        color_ok(self.albedo@) && 0 <= self.fuzzy <= SCALE
    }

    /// The mirror reflection blurred by `fuzzy` times a random unit vector, filtered by the
    /// albedo; absorbed where that points into the surface.
    open spec fn scatters_as(&self, dir: V3, normal: V3, front: bool, r: Option<Scatter>) -> bool {
        exists|p: V3|
            #![trigger unit3(p)]
            {
                let m = metal_dir(dir, normal, unit3(p), self.fuzzy as int);
                &&& in_unit_ball(p)
                &&& r is Some <==> metal_keeps(m, normal)
                &&& r matches Some(s) ==> s.attenuation == self.albedo && s.scattered@ == m
            }
    }

    fn scatter(&self, ray: &Ray, normal: Vec3, is_front: bool, rng: &mut StdRng) -> (r: Option<
        Scatter,
    >) {
        let offset = random_unit(rng);
        let ghost p = choose|p: V3| in_unit_ball(p) && offset@ == unit3(p);
        let r = self.scatter_toward(ray.dir, normal, offset);
        assert(unit3(p) == offset@);
        r
    }
}

/// Transparent surface (glass, water) with refractive index `ior`; absorbs no colour.
#[derive(Debug, Clone, Copy)]
pub struct Dielectric {
    pub ior: i64,
}

impl Dielectric {
    pub fn new(ior: i64) -> (r: Dielectric)
        ensures
            r.ior == ior,
    {
        Self { ior }
    }

    /// Schlick's approximation of the reflectance.
    pub fn reflectance(cos: i64, ior_ratio: i64) -> (r: i64)
        requires
            -3 * SCALE <= cos <= SCALE,
            0 < ior_ratio <= 4096 * SCALE,
        ensures
            r as int == schlick(cos as int, ior_ratio as int),
    {
        let s = SCALE as i128;
        let ratio = ior_ratio as i128;
        let q = floor_div((s - ratio) * s, s + ratio);
        proof {
            let si = s as int;
            let ri = ratio as int;
            assert(abs_le((si - ri) * si, si * (si + ri))) by (nonlinear_arith)
                requires si == SCALE, 0 < ri <= 4096 * SCALE;
            assert(si * (si + ri) == SCALE * (si + ri));
            lemma_div_abs((si - ri) * si, si + ri, si);
            lemma_mul_abs(q as int, q as int, si, si);
            assert(q * q >= 0) by (nonlinear_arith);
            lemma_div_abs(q * q, si, si);
        }
        let r0 = floor_div(q * q, s);
        let x = s - cos as i128;
        proof {
            let xi = x as int;
            assert(0 <= xi <= 4 * SCALE);
            assert(0 <= xi * xi * xi * xi * xi <= 1024 * SCALE * SCALE * SCALE * SCALE * SCALE)
                by (nonlinear_arith)
                requires 0 <= xi <= 4 * SCALE;
        }
        proof {
            assert(0 <= x * x <= 16 * SCALE * SCALE) by (nonlinear_arith)
                requires 0 <= x <= 4 * SCALE;
        }
        let x2 = x * x;
        proof {
            assert(0 <= x2 * x <= 64 * SCALE * SCALE * SCALE) by (nonlinear_arith)
                requires 0 <= x <= 4 * SCALE, 0 <= x2 <= 16 * SCALE * SCALE;
        }
        let x3 = x2 * x;
        proof {
            assert(0 <= x3 * x <= 256 * SCALE * SCALE * SCALE * SCALE) by (nonlinear_arith)
                requires 0 <= x <= 4 * SCALE, 0 <= x3 <= 64 * SCALE * SCALE * SCALE;
        }
        let x4 = x3 * x;
        proof {
            assert(0 <= x4 <= 256 * SCALE * SCALE * SCALE * SCALE) by (nonlinear_arith)
                requires 0 <= x <= 4 * SCALE, 0 <= x3 <= 64 * SCALE * SCALE * SCALE, x4 == x3 * x;
            assert(x * x * x * x * x == x4 * x) by (nonlinear_arith)
                requires x4 == x3 * x, x3 == x2 * x, x2 == x * x;
        }
        let x5 = x4 * x;
        let p = x5 / (s * s * s * s);
        proof {
            let pi = p as int;
            assert(0 <= pi <= 1024 * SCALE) by (nonlinear_arith)
                requires pi == (x5 as int) / (SCALE * SCALE * SCALE * SCALE),
                    0 <= x5 <= 1024 * SCALE * SCALE * SCALE * SCALE * SCALE;
            assert(0 <= (s - r0) * pi <= 1025 * SCALE * SCALE) by (nonlinear_arith)
                requires 0 <= pi <= 1024 * SCALE, 0 <= r0 <= SCALE, s == SCALE;
        }
        let t = (s - r0) * p / s;
        (r0 + t) as i64
    }

    /// The scatter of a ray with direction `dir` for the uniform draw `draw` in `[0, 1)`:
    /// reflected where refraction is impossible or the draw falls under the reflectance,
    /// refracted otherwise.
    pub fn scatter_toward(&self, dir: Vec3, normal: Vec3, is_front: bool, draw: i64) -> (r: Scatter)
        requires
            IOR_MIN <= self.ior <= IOR_MAX,
            dir.wf(),
            bounded3(normal@, SCALE as int),
            0 <= draw < SCALE,
        ensures
            r.attenuation@ == (SCALE as int, SCALE as int, SCALE as int),
            r.scattered@ == dielectric_dir(dir@, normal@, is_front, self.ior as int, draw as int),
            bounded3(r.scattered@, 16385 * SCALE),
    {
        let ior_ratio = if is_front { (SCALE_SQ / self.ior as i128) as i64 } else { self.ior };
        proof {
            if is_front {
                vstd::arithmetic::div_mod::lemma_div_is_ordered_by_denominator(
                    SCALE_SQ as int,
                    IOR_MIN as int,
                    self.ior as int,
                );
                vstd::arithmetic::div_mod::lemma_div_is_ordered_by_denominator(
                    SCALE_SQ as int,
                    self.ior as int,
                    IOR_MAX as int,
                );
                vstd::arithmetic::div_mod::lemma_fundamental_div_mod_converse(
                    SCALE_SQ as int,
                    IOR_MIN as int,
                    4_081_632_653,
                    15,
                );
                vstd::arithmetic::div_mod::lemma_fundamental_div_mod_converse(
                    SCALE_SQ as int,
                    IOR_MAX as int,
                    244,
                    576_000_000,
                );
            }
        }
        let u = dir.unit();
        let back = u.neg();
        let d = back.dot(&normal);
        proof {
            lemma_dot3_bound(back@, normal@, SCALE as int, SCALE as int);
            lemma_div_abs(d as int, SCALE as int, 3 * SCALE);
        }
        let c0 = floor_div(d, SCALE as i128) as i64;
        let cos_theta = if c0 < SCALE { c0 } else { SCALE };
        proof {
            let ci = cos_theta as int;
            assert(0 <= ci * ci <= 9 * SCALE * SCALE) by (nonlinear_arith)
                requires -3 * SCALE <= ci <= 3 * SCALE;
        }
        let rad = SCALE_SQ - (cos_theta as i128) * (cos_theta as i128);
        let sin_theta = isqrt(if rad > 0 { rad } else { 0 });
        proof {
            assert(sin_theta <= SCALE) by (nonlinear_arith)
                requires sin_theta * sin_theta <= (if rad > 0 { rad } else { 0 }), rad <= SCALE_SQ, sin_theta >= 0;
        }
        proof {
            assert(0 <= (ior_ratio as int) * (sin_theta as int) <= 4096 * SCALE * SCALE) by (nonlinear_arith)
                requires 0 < ior_ratio <= 4096 * SCALE, 0 <= sin_theta <= SCALE;
        }
        let tir = (ior_ratio as i128) * sin_theta > SCALE_SQ;
        let reflectance = Dielectric::reflectance(cos_theta, ior_ratio);
        let scattered = if tir || reflectance > draw {
            reflect(u, normal)
        } else {
            refract(u, normal, ior_ratio)
        };
        Scatter::new(Vec3::white(), scattered)
    }
}

impl Material for Dielectric {
    open spec fn valid(&self) -> bool {
        IOR_MIN <= self.ior <= IOR_MAX
    }

    /// Always re-emitted, unfiltered, reflected or refracted as a uniform draw decides.
    open spec fn scatters_as(&self, dir: V3, normal: V3, front: bool, r: Option<Scatter>) -> bool {
        exists|xi: int|
            #![trigger dielectric_dir(dir, normal, front, self.ior as int, xi)]
            0 <= xi < SCALE && (r matches Some(s) && s.attenuation@ == (
                SCALE as int,
                SCALE as int,
                SCALE as int,
            ) && s.scattered@ == dielectric_dir(dir, normal, front, self.ior as int, xi))
    }

    fn scatter(&self, ray: &Ray, normal: Vec3, is_front: bool, rng: &mut StdRng) -> (r: Option<
        Scatter,
    >) {
        let draw = random_fraction(rng);
        let r = Some(self.scatter_toward(ray.dir, normal, is_front, draw));
        assert(r matches Some(s) && s.scattered@ == dielectric_dir(ray.dir@, normal@, is_front, self.ior as int, draw as int));
        r
    }
}

/// The materials a scene can use.
#[derive(Debug, Clone, Copy)]
pub enum CommonMat {
    Diffuse(Diffuse),
    Metal(Metal),
    Dielectric(Dielectric),
}

impl Material for CommonMat {
    open spec fn valid(&self) -> bool {
        match self {
            CommonMat::Diffuse(m) => m.valid(),
            CommonMat::Metal(m) => m.valid(),
            CommonMat::Dielectric(m) => m.valid(),
        }
    }

    open spec fn scatters_as(&self, dir: V3, normal: V3, front: bool, r: Option<Scatter>) -> bool {
        match self {
            CommonMat::Diffuse(m) => m.scatters_as(dir, normal, front, r),
            CommonMat::Metal(m) => m.scatters_as(dir, normal, front, r),
            CommonMat::Dielectric(m) => m.scatters_as(dir, normal, front, r),
        }
    }

    fn scatter(&self, ray: &Ray, normal: Vec3, is_front: bool, rng: &mut StdRng) -> (r: Option<
        Scatter,
    >) {
        match self {
            CommonMat::Diffuse(mat) => mat.scatter(ray, normal, is_front, rng),
            CommonMat::Metal(mat) => mat.scatter(ray, normal, is_front, rng),
            CommonMat::Dielectric(mat) => mat.scatter(ray, normal, is_front, rng),
        }
    }
}

impl From<Diffuse> for CommonMat {
    fn from(v: Diffuse) -> (r: CommonMat) {
        CommonMat::Diffuse(v)
    }
}

impl vstd::std_specs::convert::FromSpecImpl<Diffuse> for CommonMat {
    open spec fn obeys_from_spec() -> bool {
        true
    }

    open spec fn from_spec(v: Diffuse) -> CommonMat {
        CommonMat::Diffuse(v)
    }
}

impl From<Metal> for CommonMat {
    fn from(v: Metal) -> (r: CommonMat) {
        CommonMat::Metal(v)
    }
}

impl vstd::std_specs::convert::FromSpecImpl<Metal> for CommonMat {
    open spec fn obeys_from_spec() -> bool {
        true
    }

    open spec fn from_spec(v: Metal) -> CommonMat {
        CommonMat::Metal(v)
    }
}

impl From<Dielectric> for CommonMat {
    fn from(v: Dielectric) -> (r: CommonMat) {
        CommonMat::Dielectric(v)
    }
}

impl vstd::std_specs::convert::FromSpecImpl<Dielectric> for CommonMat {
    open spec fn obeys_from_spec() -> bool {
        true
    }

    open spec fn from_spec(v: Dielectric) -> CommonMat {
        CommonMat::Dielectric(v)
    }
}

} // verus!
