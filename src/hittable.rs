use vstd::prelude::*;
use rand::rngs::StdRng;
use crate::fixed::SCALE;
use crate::vec3::{Vec3, Point3, V3, bounded3, dot3};
use crate::ray::Ray;
use crate::material::Scatter;

verus! {

/// Smallest ray parameter at which a bounce may hit a surface (`0.001`): it keeps a ray
/// that leaves a surface from hitting that same surface through rounding.
pub const T_MIN: i64 = 1_000;

/// The mathematical value of a contact: parameter, point, normal and side.
pub type ContactV = (int, V3, V3, bool);

/// Where a ray meets a surface: the ray parameter `t`, the point, the unit normal facing
/// the ray, and whether the ray came from the outside.
#[derive(Debug, Clone, Copy)]
pub struct Contact {
    pub point: Point3,
    pub normal: Vec3,
    pub t: i64,
    pub front_face: bool,
}

impl View for Contact {
    type V = ContactV;

    open spec fn view(&self) -> ContactV {
        (self.t as int, self.point@, self.normal@, self.front_face)
    }
}

/// A contact seen along direction `d`: its normal has length one up to rounding (squared
/// length within `[SCALE^2 - 6 SCALE, SCALE^2 + 8 SCALE + 4]`, a relative error in the
/// length below `4e-6`), no component beyond one, and opposes `d`.
pub open spec fn faces(c: ContactV, d: V3) -> bool {
    &&& bounded3(c.2, SCALE as int)
    &&& SCALE * SCALE - 6 * SCALE <= dot3(c.2, c.2) <= SCALE * SCALE + 8 * SCALE + 4
    &&& dot3(d, c.2) <= 0
}

/// The result of a hit test: the contact and what the surface does with the ray there.
#[derive(Debug, Clone, Copy)]
pub struct Hit {
    pub point: Point3,
    pub normal: Vec3,
    pub t: i64,
    pub front_face: bool,
    pub scatter: Option<Scatter>,
}

impl Hit {
    pub fn new(point: Point3, normal: Vec3, t: i64, front_face: bool, scatter: Option<Scatter>) -> (r: Hit)
        ensures
            r.point == point,
            r.normal == normal,
            r.t == t,
            r.front_face == front_face,
            r.scatter == scatter,
    {
        Hit { point, normal, t, front_face, scatter }
    }

    /// The geometric part of the record.
    pub open spec fn contact(&self) -> ContactV {
        (self.t as int, self.point@, self.normal@, self.front_face)
    }
}

/// Something a ray can hit.
pub trait Hittable {
    /// The object's parameters lie in their ranges.
    spec fn valid(&self) -> bool;

    /// `r` is a possible outcome of `hit` for `ray` and the bounds `(t_min, t_max)`.
    spec fn hits_as(&self, ray: Ray, t_min: int, t_max: int, r: Option<Hit>) -> bool;

    /// The nearest place in `(t_min, t_max)` where `ray` meets the object, and the
    /// material's response there.
    fn hit(&self, ray: &Ray, t_min: i64, t_max: i64, rng: &mut StdRng) -> (r: Option<Hit>)
        requires
            self.valid(),
            ray.wf(),
        ensures
            r matches Some(h) ==> {
                &&& t_min < h.t < t_max
                &&& h.point.wf()
                &&& faces(h.contact(), ray.dir@)
                &&& h.scatter matches Some(s) ==> s.valid()
            },
            self.hits_as(*ray, t_min as int, t_max as int, r),
    ;
}

} // verus!
