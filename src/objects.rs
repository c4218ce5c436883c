use vstd::prelude::*;
use rand::rngs::StdRng;
use crate::fixed::{SCALE, abs_le, floor_div, isqrt, root, lemma_mul_abs, lemma_div_abs};
use crate::vec3::{
    Point3, V3, COORD_MAX, bounded3, sub3, neg3, dot3, unit3, magnify3, NORMAL_GAIN, lemma_dot3_bound,
    lemma_magnified_unit_length,
};
use crate::ray::{Ray, at3};
use crate::hittable::{Contact, ContactV, Hit, Hittable, T_MIN, faces};
use crate::material::{CommonMat, Material};

verus! {

/// The two roots `(near, far)` of `|o + t d - center|^2 = radius^2`, in fixed point and
/// rounded down, where the discriminant is positive.
pub open spec fn sphere_roots(center: V3, radius: int, o: V3, d: V3) -> Option<(int, int)> {
    let s = SCALE as int;
    let oc = sub3(o, center);
    let a = dot3(d, d) / s;
    let half_b = dot3(oc, d) / s;
    let c = (dot3(oc, oc) - radius * radius) / s;
    let disc = half_b * half_b - a * c;
    if radius == 0 || a <= 0 || disc <= 0 {
        None
    } else {
        let sq = root(disc);
        Some(((-half_b - sq) * s / a, (-half_b + sq) * s / a))
    }
}

/// The near root if it lies in `(t_min, t_max)`, else the far one if it does.
pub open spec fn pick_root(roots: Option<(int, int)>, t_min: int, t_max: int) -> Option<int> {
    match roots {
        None => None,
        Some((near, far)) => if t_min < near < t_max {
            Some(near)
        } else if t_min < far < t_max {
            Some(far)
        } else {
            None
        },
    }
}

/// Unit normal pointing out of the sphere at `p`; a negative radius turns it inward.
pub open spec fn outward3(center: V3, radius: int, p: V3) -> V3 {
    if radius > 0 {
        unit3(magnify3(sub3(p, center)))
    } else {
        unit3(magnify3(sub3(center, p)))
    }
}

/// The contact of the ray `(o, d)` with the sphere at parameter `t`: the normal is turned
/// against the ray, and `front_face` tells whether that kept it outward.
pub open spec fn contact_at(center: V3, radius: int, o: V3, d: V3, t: int) -> ContactV {
    let p = at3(o, d, t);
    let out = outward3(center, radius, p);
    let front = dot3(d, out) < 0;
    (t, p, if front { out } else { neg3(out) }, front)
}

/// The sphere's contact with the ray `(o, d)` within `(t_min, t_max)`; none where the
/// point would leave the representable box, or would fall on the centre (a sphere so small
/// that it has no normal).
pub open spec fn sphere_contact(center: V3, radius: int, o: V3, d: V3, t_min: int, t_max: int) -> Option<ContactV> {
    match pick_root(sphere_roots(center, radius, o, d), t_min, t_max) {
        None => None,
        Some(t) => if bounded3(at3(o, d, t), COORD_MAX as int) && at3(o, d, t) != center {
            Some(contact_at(center, radius, o, d, t))
        } else {
            None
        },
    }
}

/// A contact lies strictly inside the bounds, in the representable box, and its normal has
/// length one up to rounding and opposes the ray: the outward normal on the front face, its
/// negation otherwise.
pub proof fn lemma_contact_faces(center: V3, radius: int, o: V3, d: V3, t_min: int, t_max: int)
    ensures
        sphere_contact(center, radius, o, d, t_min, t_max) matches Some(c) ==> {
            &&& t_min < c.0 < t_max
            &&& bounded3(c.1, COORD_MAX as int)
            &&& faces(c, d)
            &&& c.3 ==> c.2 == outward3(center, radius, c.1)
            &&& !c.3 ==> c.2 == neg3(outward3(center, radius, c.1))
        },
{
    if let Some(c) = sphere_contact(center, radius, o, d, t_min, t_max) {
        let p = c.1;
        let x = if radius > 0 { sub3(p, center) } else { sub3(center, p) };
        let out = outward3(center, radius, p);
        assert(x != (0int, 0int, 0int));
        crate::vec3::lemma_unit3_bound(magnify3(x));
        lemma_magnified_unit_length(x);
        assert(dot3(d, neg3(out)) == -dot3(d, out)) by (nonlinear_arith);
        assert(dot3(neg3(out), neg3(out)) == dot3(out, out)) by (nonlinear_arith);
    }
}

proof fn lemma_axis_roots(dist: int, r: int)
    requires
        0 <= dist <= COORD_MAX,
        0 < r <= COORD_MAX,
        (dist * dist - r * r) % (SCALE as int) == 0,
    ensures
        sphere_roots((0, 0, -dist), r, (0, 0, 0), (0, 0, -SCALE)) == Some((dist - r, dist + r)),
{
    let s = SCALE as int;
    let d: V3 = (0, 0, -s);
    let oc = sub3((0, 0, 0), (0, 0, -dist));
    assert(oc == (0int, 0int, dist));
    assert(dot3(d, d) == s * s) by (nonlinear_arith)
        requires d == (0int, 0int, -s);
    assert(dot3(oc, d) == -dist * s) by (nonlinear_arith)
        requires d == (0int, 0int, -s), oc == (0int, 0int, dist);
    assert(dot3(oc, oc) == dist * dist) by (nonlinear_arith)
        requires oc == (0int, 0int, dist);
    assert(-dist * s == s * (-dist)) by (nonlinear_arith);
    assert((dist - r) * s == s * (dist - r)) by (nonlinear_arith);
    assert((dist + r) * s == s * (dist + r)) by (nonlinear_arith);
    vstd::arithmetic::div_mod::lemma_fundamental_div_mod_converse(s * s, s, s, 0);
    vstd::arithmetic::div_mod::lemma_fundamental_div_mod_converse(-dist * s, s, -dist, 0);
    let k = (dist * dist - r * r) / s;
    vstd::arithmetic::div_mod::lemma_fundamental_div_mod(dist * dist - r * r, s);
    assert(s * k == dist * dist - r * r);
    let disc = (-dist) * (-dist) - s * k;
    assert(disc == r * r) by (nonlinear_arith)
        requires s * k == dist * dist - r * r, disc == (-dist) * (-dist) - s * k;
    assert(r * r > 0) by (nonlinear_arith)
        requires r > 0;
    assert(crate::fixed::is_root(r * r, r)) by (nonlinear_arith)
        requires r > 0;
    crate::fixed::lemma_root(r * r, r);
    vstd::arithmetic::div_mod::lemma_fundamental_div_mod_converse((dist - r) * s, s, dist - r, 0);
    vstd::arithmetic::div_mod::lemma_fundamental_div_mod_converse((dist + r) * s, s, dist + r, 0);
}

proof fn lemma_axis_point(t: int)
    ensures
        at3((0, 0, 0), (0, 0, -SCALE), t) == (0int, 0int, -t),
{
    let s = SCALE as int;
    assert(-s * t == s * (-t)) by (nonlinear_arith);
    assert((0 * t) / s == 0);
    vstd::arithmetic::div_mod::lemma_fundamental_div_mod_converse(-s * t, s, -t, 0);
    assert(-SCALE * t == -s * t);
}

/// A ray from the origin straight down the `-z` axis towards a sphere of radius `r` whose
/// centre lies `dist` ahead (with `dist^2 - r^2` a whole number of fixed-point units, so
/// that no rounding occurs) enters it at `t = dist - r`, leaves it at `t = dist + r`, and
/// reports the entry: front face, normal pointing back along the axis.
pub proof fn lemma_axis_ray_from_outside(dist: int, r: int)
    requires
        0 < r,
        dist - r > T_MIN,
        dist <= COORD_MAX / 2,
        (dist * dist - r * r) % (SCALE as int) == 0,
    ensures
        sphere_roots((0, 0, -dist), r, (0, 0, 0), (0, 0, -SCALE)) == Some((dist - r, dist + r)),
        sphere_contact((0, 0, -dist), r, (0, 0, 0), (0, 0, -SCALE), T_MIN as int, i64::MAX as int)
            == Some((dist - r, (0int, 0int, -(dist - r)), (0int, 0int, SCALE as int), true)),
{
    lemma_axis_roots(dist, r);
    lemma_axis_point(dist - r);
    let x: V3 = (0, 0, r);
    assert(sub3((0, 0, -(dist - r)), (0, 0, -dist)) == x);
    let g = NORMAL_GAIN as int;
    assert(r * g > 0) by (nonlinear_arith)
        requires r > 0, g > 0;
    assert(magnify3(x) == (0int, 0int, r * g));
    lemma_unit_of_axis(r * g);
    assert(dot3((0, 0, -SCALE), (0, 0, SCALE as int)) < 0) by (nonlinear_arith);
}

/// A ray from inside a sphere of radius `r`, leaving the origin straight down the `-z` axis
/// with the centre `dist < r` ahead (and `dist^2 - r^2` a whole number of fixed-point units),
/// meets the back of the sphere at `t = dist + r` (where that lies past `T_MIN`): not the
/// front face, and the normal is
/// the outward normal negated.
pub proof fn lemma_axis_ray_from_inside(dist: int, r: int)
    requires
        0 <= dist < r,
        dist + r > T_MIN,
        r <= COORD_MAX / 2,
        (dist * dist - r * r) % (SCALE as int) == 0,
    ensures
        sphere_contact((0, 0, -dist), r, (0, 0, 0), (0, 0, -SCALE), T_MIN as int, i64::MAX as int)
            == Some((dist + r, (0int, 0int, -(dist + r)), (0int, 0int, SCALE as int), false)),
        outward3((0, 0, -dist), r, (0, 0, -(dist + r))) == (0int, 0int, -SCALE),
{
    lemma_axis_roots(dist, r);
    lemma_axis_point(dist + r);
    let x: V3 = (0, 0, -r);
    assert(sub3((0, 0, -(dist + r)), (0, 0, -dist)) == x);
    let g = NORMAL_GAIN as int;
    assert((-r) * g < 0) by (nonlinear_arith)
        requires r > 0, g > 0;
    assert(magnify3(x) == (0int, 0int, (-r) * g));
    lemma_unit_of_axis((-r) * g);
    assert(dot3((0, 0, -SCALE), (0, 0, -SCALE)) > 0) by (nonlinear_arith);
    assert(neg3((0, 0, -SCALE)) == (0int, 0int, SCALE as int));
}

/// The unit vector of `(0, 0, z)` for `z != 0` is `(0, 0, SCALE)` with the sign of `z`.
proof fn lemma_unit_of_axis(z: int)
    requires
        z != 0,
    ensures
        unit3((0, 0, z)) == (0int, 0int, if z > 0 { SCALE as int } else { -SCALE }),
{
    let s = SCALE as int;
    let m = if z > 0 { z } else { -z };
    assert(dot3((0, 0, z), (0, 0, z)) == m * m) by (nonlinear_arith)
        requires m == z || m == -z;
    assert(crate::fixed::is_root(m * m, m)) by (nonlinear_arith)
        requires m > 0;
    crate::fixed::lemma_root(m * m, m);
    vstd::arithmetic::div_mod::lemma_fundamental_div_mod_converse(z * s, m, if z > 0 { s } else { -s }, 0);
    assert(z * s == m * (if z > 0 { s } else { -s })) by (nonlinear_arith)
        requires m == (if z > 0 { z } else { -z });
    assert(0 * s / m == 0);
    assert(z * SCALE == z * s);
}

/// A sphere; a negative radius gives the same surface with its normals turned inward.
#[derive(Debug, Clone, Copy)]
pub struct Sphere {
    pub center: Point3,
    pub radius: i64,
    pub material: CommonMat,
}

impl Sphere {
    pub fn new(center: Point3, radius: i64, material: CommonMat) -> (r: Sphere)
        ensures
            r.center == center,
            r.radius == radius,
            r.material == material,
    {
        Self { center, radius, material }
    }

    /// Centre and radius in the representable box, material parameters in their ranges.
    pub open spec fn wf(&self) -> bool {
        &&& self.center.wf()
        &&& abs_le(self.radius as int, COORD_MAX as int)
        &&& self.material.valid()
    }

    /// The spec of `intersect` on this sphere.
    pub open spec fn contact_spec(&self, ray: Ray, t_min: int, t_max: int) -> Option<ContactV> {
        sphere_contact(self.center@, self.radius as int, ray.origin@, ray.dir@, t_min, t_max)
    }

    /// Where `ray` meets the sphere within `(t_min, t_max)`: the nearer root of the
    /// quadratic if it lies in the bounds, else the farther one.
    pub fn intersect(&self, ray: &Ray, t_min: i64, t_max: i64) -> (r: Option<Contact>)
        requires
            self.center.wf(),
            abs_le(self.radius as int, COORD_MAX as int),
            ray.wf(),
        ensures
            r matches Some(c) ==> Some(c@) == self.contact_spec(*ray, t_min as int, t_max as int),
            r is None ==> self.contact_spec(*ray, t_min as int, t_max as int) is None,
    {
        let s = SCALE as i128;
        let oc = ray.origin.sub(&self.center);
        let ghost cm: int = COORD_MAX as int;
        let ghost ba: int = 14167099448608936;
        let ghost bh: int = 28334198897217872;
        let ghost bc: int = 61390764277305388;
        assert(3 * cm * cm <= ba * SCALE && 6 * cm * cm <= bh * SCALE && 13 * cm * cm <= bc * SCALE)
            by (nonlinear_arith)
            requires cm == COORD_MAX, ba == 14167099448608936int, bh == 28334198897217872int,
                bc == 61390764277305388int;
        proof {
            lemma_dot3_bound(ray.dir@, ray.dir@, cm, cm);
            lemma_dot3_bound(oc@, ray.dir@, 2 * cm, cm);
            lemma_dot3_bound(oc@, oc@, 2 * cm, 2 * cm);
            lemma_mul_abs(self.radius as int, self.radius as int, cm, cm);
        }
        let a_raw = ray.dir.mag_sq();
        let hb_raw = oc.dot(&ray.dir);
        let c_raw = oc.mag_sq() - (self.radius as i128) * (self.radius as i128);
        proof {
            lemma_div_abs(a_raw as int, SCALE as int, ba);
            lemma_div_abs(hb_raw as int, SCALE as int, bh);
            lemma_div_abs(c_raw as int, SCALE as int, bc);
        }
        let a = floor_div(a_raw, s);
        let half_b = floor_div(hb_raw, s);
        let c = floor_div(c_raw, s);
        proof {
            lemma_mul_abs(half_b as int, half_b as int, bh, bh);
            lemma_mul_abs(a as int, c as int, ba, bc);
            assert(bh * bh + ba * bc < 0x1_0000_0000_0000_0000_0000_0000_0000) by (nonlinear_arith)
                requires ba == 14167099448608936int, bh == 28334198897217872int,
                    bc == 61390764277305388int;
        }
        let disc = half_b * half_b - a * c;
        if self.radius == 0 || a <= 0 || disc <= 0 {
            return None;
        }
        let sq = isqrt(disc);
        proof {
            assert(sq <= 0x1_0000_0000_0000_0000) by (nonlinear_arith)
                requires sq * sq <= disc, disc < 0x1_0000_0000_0000_0000_0000_0000_0000_0000, sq >= 0;
        }
        let near = floor_div((-half_b - sq) * s, a);
        let far = floor_div((-half_b + sq) * s, a);
        let t: i64;
        let (lo, hi) = (t_min as i128, t_max as i128);
        if lo < near && near < hi {
            t = near as i64;
        } else if lo < far && far < hi {
            t = far as i64;
        } else {
            return None;
        }
        let point = match ray.at(t) {
            Some(p) => p,
            None => {
                return None;
            },
        };
        if point.x == self.center.x && point.y == self.center.y && point.z == self.center.z {
            return None;
        }
        let outward = if self.radius > 0 {
            point.sub(&self.center).magnify().unit()
        } else {
            self.center.sub(&point).magnify().unit()
        };
        let front_face = ray.dir.dot(&outward) < 0;
        let normal = if front_face { outward } else { outward.neg() };
        Some(Contact { point, normal, t, front_face })
    }
}

impl Hittable for Sphere {
    open spec fn valid(&self) -> bool {
        self.wf()
    }

    /// The contact that `intersect` finds, with an outcome of the material's scattering.
    open spec fn hits_as(&self, ray: Ray, t_min: int, t_max: int, r: Option<Hit>) -> bool {
        match self.contact_spec(ray, t_min, t_max) {
            None => r is None,
            Some(c) => r matches Some(h) && h.contact() == c && self.material.scatters_as(
                ray.dir@,
                c.2,
                c.3,
                h.scatter,
            ),
        }
    }

    fn hit(&self, ray: &Ray, t_min: i64, t_max: i64, rng: &mut StdRng) -> (r: Option<Hit>) {
        proof {
            lemma_contact_faces(self.center@, self.radius as int, ray.origin@, ray.dir@, t_min as int, t_max as int);
        }
        match self.intersect(ray, t_min, t_max) {
            None => None,
            Some(c) => {
                let scatter = self.material.scatter(ray, c.normal, c.front_face, rng);
                Some(Hit::new(c.point, c.normal, c.t, c.front_face, scatter))
            },
        }
    }
}

/// The nearest contact among `objs` within `(t_min, t_max)`, with the index of the object:
/// each object is tested against the bounds narrowed to the nearest contact before it, so
/// of two objects with equal parameters the earlier one wins.
pub open spec fn nearest_spec(objs: Seq<Sphere>, ray: Ray, t_min: int, t_max: int) -> Option<(int, ContactV)>
    decreases objs.len(),
{
    if objs.len() == 0 {
        None
    } else {
        let prev = nearest_spec(objs.drop_last(), ray, t_min, t_max);
        let limit = match prev {
            None => t_max,
            Some(b) => b.1.0,
        };
        match objs.last().contact_spec(ray, t_min, limit) {
            Some(c) => Some(((objs.len() - 1) as int, c)),
            None => prev,
        }
    }
}

/// The value of a best-so-far record.
pub open spec fn best_view(b: Option<(usize, Contact)>) -> Option<(int, ContactV)> {
    match b {
        None => None,
        Some((i, c)) => Some((i as int, c@)),
    }
}

/// The scene: an ordered list of spheres.
#[derive(Debug)]
pub struct HitList {
    pub objects: Vec<Sphere>,
}

impl HitList {
    pub fn new(objects: Vec<Sphere>) -> (r: HitList)
        ensures
            r.objects@ == objects@,
    {
        HitList { objects }
    }

    pub fn empty() -> (r: HitList)
        ensures
            r.objects@.len() == 0,
    {
        HitList { objects: Vec::new() }
    }

    pub fn add(&mut self, object: Sphere)
        ensures
            final(self).objects@ == old(self).objects@.push(object),
    {
        self.objects.push(object);
    }

    /// Every sphere is well formed.
    pub open spec fn wf(&self) -> bool {
        forall|i: int| 0 <= i < self.objects@.len() ==> (#[trigger] self.objects@[i]).wf()
    }

    /// The nearest contact within `(t_min, t_max)` over all spheres, with the index of the
    /// sphere.
    pub fn nearest(&self, ray: &Ray, t_min: i64, t_max: i64) -> (r: Option<(usize, Contact)>)
        requires
            self.wf(),
            ray.wf(),
        ensures
            best_view(r) == nearest_spec(self.objects@, *ray, t_min as int, t_max as int),
            r matches Some(b) ==> b.0 < self.objects@.len(),
    {
        let mut best: Option<(usize, Contact)> = None;
        let mut closest: i64 = t_max;
        let mut i: usize = 0;
        while i < self.objects.len()
            invariant
                self.wf(),
                ray.wf(),
                i <= self.objects@.len(),
                best_view(best) == nearest_spec(self.objects@.subrange(0, i as int), *ray, t_min as int, t_max as int),
                closest == (match best {
                    None => t_max,
                    Some(b) => b.1.t,
                }),
                best matches Some(b) ==> b.0 < i,
            decreases self.objects@.len() - i,
        {
            let ghost prefix = self.objects@.subrange(0, i as int + 1);
            assert(prefix.drop_last() =~= self.objects@.subrange(0, i as int));
            assert(prefix.last() == self.objects@[i as int]);
            assert(self.objects@[i as int].wf());
            match self.objects[i].intersect(ray, t_min, closest) {
                Some(c) => {
                    closest = c.t;
                    best = Some((i, c));
                },
                None => {},
            }
            i = i + 1;
        }
        assert(self.objects@.subrange(0, self.objects@.len() as int) =~= self.objects@);
        best
    }
}

impl Hittable for HitList {
    open spec fn valid(&self) -> bool {
        self.wf()
    }

    /// The nearest contact over all spheres, with an outcome of that sphere's material.
    open spec fn hits_as(&self, ray: Ray, t_min: int, t_max: int, r: Option<Hit>) -> bool {
        match nearest_spec(self.objects@, ray, t_min, t_max) {
            None => r is None,
            Some(b) => r matches Some(h) && h.contact() == b.1 && self.objects@[b.0].material.scatters_as(
                ray.dir@,
                b.1.2,
                b.1.3,
                h.scatter,
            ),
        }
    }

    fn hit(&self, ray: &Ray, t_min: i64, t_max: i64, rng: &mut StdRng) -> (r: Option<Hit>) {
        match self.nearest(ray, t_min, t_max) {
            None => None,
            Some((i, c)) => {
                let sphere = &self.objects[i];
                assert(sphere.wf());
                proof {
                    lemma_nearest_contact(self.objects@, *ray, t_min as int, t_max as int);
                }
                let scatter = sphere.material.scatter(ray, c.normal, c.front_face, rng);
                Some(Hit::new(c.point, c.normal, c.t, c.front_face, scatter))
            },
        }
    }
}

/// The nearest contact of a list is a contact of one of its spheres, within the bounds.
pub proof fn lemma_nearest_contact(objs: Seq<Sphere>, ray: Ray, t_min: int, t_max: int)
    ensures
        nearest_spec(objs, ray, t_min, t_max) matches Some(b) ==> {
            &&& 0 <= b.0 < objs.len()
            &&& t_min < b.1.0 < t_max
            &&& bounded3(b.1.1, COORD_MAX as int)
            &&& faces(b.1, ray.dir@)
        },
    decreases objs.len(),
{
    if objs.len() > 0 {
        let prev = nearest_spec(objs.drop_last(), ray, t_min, t_max);
        lemma_nearest_contact(objs.drop_last(), ray, t_min, t_max);
        let limit = match prev {
            None => t_max,
            Some(b) => b.1.0,
        };
        let s = objs.last();
        lemma_contact_faces(s.center@, s.radius as int, ray.origin@, ray.dir@, t_min, limit);
    }
}

proof fn lemma_roots_ordered(center: V3, radius: int, o: V3, d: V3)
    ensures
        sphere_roots(center, radius, o, d) matches Some(r) ==> r.0 <= r.1,
{
    let s = SCALE as int;
    let oc = sub3(o, center);
    let a = dot3(d, d) / s;
    let half_b = dot3(oc, d) / s;
    let c = (dot3(oc, oc) - radius * radius) / s;
    let disc = half_b * half_b - a * c;
    if sphere_roots(center, radius, o, d) is Some {
        crate::fixed::lemma_root_exists(disc);
        let sq = root(disc);
        assert((-half_b - sq) * s <= (-half_b + sq) * s) by (nonlinear_arith)
            requires sq >= 0, s > 0;
        vstd::arithmetic::div_mod::lemma_div_is_ordered((-half_b - sq) * s, (-half_b + sq) * s, a);
    }
}

/// Narrowing the upper bound to just above a contact keeps that contact.
proof fn lemma_narrow(sp: Sphere, ray: Ray, t_min: int, t_max: int, limit: int)
    requires
        sp.contact_spec(ray, t_min, t_max) matches Some(c) && c.0 < limit,
        limit <= t_max,
    ensures
        sp.contact_spec(ray, t_min, limit) == sp.contact_spec(ray, t_min, t_max),
{
    lemma_roots_ordered(sp.center@, sp.radius as int, ray.origin@, ray.dir@);
}

/// The nearest contact is no farther than the contact of any single sphere within the
/// bounds; in particular there is one as soon as some sphere has a contact.
pub proof fn lemma_nearest_is_minimal(objs: Seq<Sphere>, ray: Ray, t_min: int, t_max: int, j: int)
    requires
        0 <= j < objs.len(),
        objs[j].contact_spec(ray, t_min, t_max) is Some,
    ensures
        nearest_spec(objs, ray, t_min, t_max) is Some,
        nearest_spec(objs, ray, t_min, t_max).unwrap().1.0 <= objs[j].contact_spec(
            ray,
            t_min,
            t_max,
        ).unwrap().0,
    decreases objs.len(),
{
    let n = objs.len();
    let prefix = objs.drop_last();
    let prev = nearest_spec(prefix, ray, t_min, t_max);
    let limit = match prev {
        None => t_max,
        Some(b) => b.1.0,
    };
    let x = objs.last();
    lemma_nearest_contact(prefix, ray, t_min, t_max);
    lemma_contact_faces(x.center@, x.radius as int, ray.origin@, ray.dir@, t_min, limit);
    if j < n - 1 {
        assert(prefix[j] == objs[j]);
        lemma_nearest_is_minimal(prefix, ray, t_min, t_max, j);
    } else {
        let cx = x.contact_spec(ray, t_min, t_max).unwrap();
        if cx.0 < limit {
            lemma_narrow(x, ray, t_min, t_max, limit);
        }
    }
}

/// Collects spheres for a `HitList`.
#[derive(Debug)]
pub struct WorldBuilder {
    objects: Vec<Sphere>,
}

impl WorldBuilder {
    pub fn new() -> (r: WorldBuilder)
        ensures
            r.spheres().len() == 0,
    {
        WorldBuilder { objects: Vec::new() }
    }

    /// The spheres collected so far.
    pub closed spec fn spheres(&self) -> Seq<Sphere> {
        self.objects@
    }

    /// The list of the spheres collected so far, in order; the builder is left empty.
    pub fn build(&mut self) -> (r: HitList)
        ensures
            r.objects@ == old(self).spheres(),
            final(self).spheres().len() == 0,
    {
        let mut taken: Vec<Sphere> = Vec::new();
        std::mem::swap(&mut taken, &mut self.objects);
        HitList::new(taken)
    }

    pub fn add(&mut self, object: Sphere) -> (r: &mut Self)
        ensures
            final(r).spheres() == final(self).spheres(),
            (*r).spheres() == old(self).spheres().push(object),
    {
        self.objects.push(object);
        self
    }
}

} // verus!
