use vstd::prelude::*;
use rand::rngs::StdRng;
use crate::fixed::{SCALE, abs_le};
use crate::vec3::{Vec3, Color, COORD_MAX, bounded3, add3, sub3, scale3, quantize};

verus! {

pub fn white() -> (r: Color)
    ensures
        r@ == (SCALE as int, SCALE as int, SCALE as int),
{
    Vec3::white()
}

pub fn black() -> (r: Color)
    ensures
        r@ == (0int, 0int, 0int),
{
    Vec3::black()
}

pub fn mid_gray() -> (r: Color)
    ensures
        r@ == (SCALE / 2, SCALE / 2, SCALE / 2),
{
    Vec3::mid_gray()
}

pub fn red() -> (r: Color)
    ensures
        r@ == (SCALE as int, 0int, 0int),
{
    Vec3::red()
}

pub fn green() -> (r: Color)
    ensures
        r@ == (0int, SCALE as int, 0int),
{
    Vec3::green()
}

pub fn blue() -> (r: Color)
    ensures
        r@ == (0int, 0int, SCALE as int),
{
    Vec3::blue()
}

pub fn new(r: i64, g: i64, b: i64) -> (c: Color)
    ensures
        c@ == (r as int, g as int, b as int),
{
    Vec3::new(r, g, b)
}

/// Linear blend from `start` (at 0) to `end` (at `SCALE`).
pub fn lerp(start: Color, end: Color, step: i64) -> (r: Color)
    requires
        bounded3(start@, COORD_MAX as int),
        bounded3(end@, COORD_MAX as int),
        abs_le(step as int, 8 * SCALE),
    ensures
        r@ == add3(start@, scale3(sub3(end@, start@), step as int)),
{
    Vec3::lerp(start, end, step)
}

/// A colour with independent uniform channels in `[0, 1)`.
pub fn random(rng: &mut StdRng) -> (r: Color)
    ensures
        0 <= r.x < SCALE && 0 <= r.y < SCALE && 0 <= r.z < SCALE,
{
    Vec3::random(rng)
}

/// The 8-bit RGB triple of a colour, each channel clamped to `[0, 0.999]` and scaled by 256.
pub fn to_rgb(color: Color) -> (r: [u8; 3])
    ensures
        r@ == seq![
            quantize(color.x as int) as u8,
            quantize(color.y as int) as u8,
            quantize(color.z as int) as u8,
        ],
{
    [color.r(), color.g(), color.b()]
}

} // verus!
