use vstd::prelude::*;
use rand::Rng;
use rand::rngs::StdRng;
use crate::fixed::{SCALE, SCALE_SQ, abs_le};
use crate::vec3::{Vec3, V3, bounded3, dot3, unit3};

verus! {

/// rand's `StdRng`, the random stream that every random choice draws from; opaque here.
#[verifier::external_type_specification]
#[verifier::external_body]
pub struct ExStdRng(rand::rngs::StdRng);

/// How many candidates rejection sampling draws before it settles for a fixed point.
pub const SAMPLE_TRIES: u32 = 64;

/// Relies on rand's `Rng::gen_range` over `low..high`: it panics on an empty range and
/// otherwise returns a value of the range.
#[verifier::external_body]
pub(crate) fn draw(rng: &mut StdRng, low: i64, high: i64) -> (r: i64)
    requires
        low < high,
    ensures
        low <= r < high,
{
    rng.gen_range(low..high)
}

/// A uniform fixed-point number in `[0, 1)`.
pub fn random_fraction(rng: &mut StdRng) -> (r: i64)
    ensures
        0 <= r < SCALE,
{
    draw(rng, 0, SCALE)
}

/// `p` is a point of the closed unit ball other than its centre.
pub open spec fn in_unit_ball(p: V3) -> bool {
    0 < dot3(p, p) <= SCALE * SCALE
}

/// `p` is a point of the closed unit disc in the plane `z = 0`.
pub open spec fn in_unit_disc(p: V3) -> bool {
    p.2 == 0 && dot3(p, p) <= SCALE * SCALE
}

/// The candidate `(x, y, z)` of the cube `[-1, 1]^3` if it lies in the unit ball and is not
/// its centre.
pub fn ball_candidate(x: i64, y: i64, z: i64) -> (r: Option<Vec3>)
    requires
        abs_le(x as int, SCALE as int),
        abs_le(y as int, SCALE as int),
        abs_le(z as int, SCALE as int),
    ensures
        r == (if in_unit_ball((x as int, y as int, z as int)) {
            Some(Vec3 { x, y, z })
        } else {
            None
        }),
{
    let p = Vec3::new(x, y, z);
    let n = p.mag_sq();
    if 0 < n && n <= SCALE_SQ {
        Some(p)
    } else {
        None
    }
}

/// The candidate `(x, y)` of the square `[-1, 1]^2` as a point of the plane `z = 0`, if it
/// lies in the unit disc.
pub fn disc_candidate(x: i64, y: i64) -> (r: Option<Vec3>)
    requires
        abs_le(x as int, SCALE as int),
        abs_le(y as int, SCALE as int),
    ensures
        r == (if in_unit_disc((x as int, y as int, 0)) { Some(Vec3 { x, y, z: 0 }) } else { None }),
{
    let p = Vec3::new(x, y, 0);
    let n = p.mag_sq();
    if n <= SCALE_SQ {
        Some(p)
    } else {
        None
    }
}

/// A random point of the unit ball, other than its centre: candidates are drawn uniformly
/// from the enclosing cube until `ball_candidate` accepts one. After `SAMPLE_TRIES` misses,
/// which happens with probability below 1e-20, the point `(0, 1, 0)` is taken.
pub fn random_in_unit_sphere(rng: &mut StdRng) -> (r: Vec3)
    ensures
        in_unit_ball(r@),
        bounded3(r@, SCALE as int),
{
    let mut tries: u32 = 0;
    while tries < SAMPLE_TRIES
        decreases SAMPLE_TRIES - tries,
    {
        let x = draw(rng, -SCALE, SCALE + 1);
        let y = draw(rng, -SCALE, SCALE + 1);
        let z = draw(rng, -SCALE, SCALE + 1);
        if let Some(p) = ball_candidate(x, y, z) {
            return p;
        }
        tries = tries + 1;
    }
    Vec3::new(0, SCALE, 0)
}

/// A random direction of length one.
pub fn random_unit(rng: &mut StdRng) -> (r: Vec3)
    ensures
        exists|p: V3| in_unit_ball(p) && r@ == unit3(p),
        bounded3(r@, SCALE as int),
{
    let p = random_in_unit_sphere(rng);
    p.unit()
}

impl Vec3 {
    /// A colour with independent uniform channels in `[0, 1)`.
    pub fn random(rng: &mut StdRng) -> (r: Vec3)
        ensures
            0 <= r.x < SCALE && 0 <= r.y < SCALE && 0 <= r.z < SCALE,
    {
        let r = random_fraction(rng);
        let g = random_fraction(rng);
        let b = random_fraction(rng);
        Vec3::new(r, g, b)
    }
}

/// A random point of the unit disc in the plane `z = 0`: candidates are drawn uniformly
/// from the enclosing square until `disc_candidate` accepts one; after `SAMPLE_TRIES`
/// misses the centre is taken.
pub fn random_in_unit_disc(rng: &mut StdRng) -> (r: Vec3)
    ensures
        in_unit_disc(r@),
        bounded3(r@, SCALE as int),
{
    let mut tries: u32 = 0;
    while tries < SAMPLE_TRIES
        decreases SAMPLE_TRIES - tries,
    {
        let x = draw(rng, -SCALE, SCALE + 1);
        let y = draw(rng, -SCALE, SCALE + 1);
        if let Some(p) = disc_candidate(x, y) {
            return p;
        }
        tries = tries + 1;
    }
    Vec3::new(0, 0, 0)
}

} // verus!
