use vstd::prelude::*;
use crate::fixed::{SCALE, abs_le, floor_div, isqrt, root, lemma_mul_abs, lemma_div_abs};

verus! {

/// Largest magnitude of a coordinate of a point or a ray direction, in fixed-point units.
pub const COORD_MAX: i64 = 68_719_476_736;

/// Largest magnitude of a component that sums, dot products and normalisation accept.
pub const WIDE_MAX: i64 = 0x1000_0000_0000_0000;

/// The mathematical value of a vector: three integers in fixed-point units.
pub type V3 = (int, int, int);

/// The arithmetic a vector component needs.
pub trait Num where
    Self: Sized,
    Self: std::ops::Add<Output = Self>,
    Self: std::ops::Sub<Output = Self>,
    Self: std::ops::Mul<Output = Self>,
    Self: std::ops::Div<Output = Self>,
 {

}

/// The fixed-point scalars of this library.
impl Num for i64 {

}

pub open spec fn bounded3(a: V3, b: int) -> bool {
    abs_le(a.0, b) && abs_le(a.1, b) && abs_le(a.2, b)
}

pub open spec fn add3(a: V3, b: V3) -> V3 {
    (a.0 + b.0, a.1 + b.1, a.2 + b.2)
}

pub open spec fn sub3(a: V3, b: V3) -> V3 {
    (a.0 - b.0, a.1 - b.1, a.2 - b.2)
}

pub open spec fn neg3(a: V3) -> V3 {
    (-a.0, -a.1, -a.2)
}

/// Dot product, in units of `SCALE * SCALE`.
pub open spec fn dot3(a: V3, b: V3) -> int {
    a.0 * b.0 + a.1 * b.1 + a.2 * b.2
}

/// Product of a fixed-point scalar and a fixed-point number, rounded down.
pub open spec fn fmul(a: int, k: int) -> int {
    a * k / (SCALE as int)
}

/// Each component times the fixed-point scalar `k`, rounded down.
pub open spec fn scale3(a: V3, k: int) -> V3 {
    (fmul(a.0, k), fmul(a.1, k), fmul(a.2, k))
}

/// Component-wise product (colour filtering), rounded down.
pub open spec fn mul3(a: V3, b: V3) -> V3 {
    (fmul(a.0, b.0), fmul(a.1, b.1), fmul(a.2, b.2))
}

/// Cross product, rounded down.
pub open spec fn cross3(a: V3, b: V3) -> V3 {
    (
        (a.1 * b.2 - a.2 * b.1) / (SCALE as int),
        (a.2 * b.0 - a.0 * b.2) / (SCALE as int),
        (a.0 * b.1 - a.1 * b.0) / (SCALE as int),
    )
}

/// Euclidean length in fixed-point units, rounded down.
pub open spec fn len3(a: V3) -> int {
    root(dot3(a, a))
}

/// The vector scaled to length one (`SCALE`), rounded down; the zero vector stays zero.
pub open spec fn unit3(a: V3) -> V3 {
    let m = len3(a);
    if m == 0 {
        (0, 0, 0)
    } else {
        (a.0 * SCALE / m, a.1 * SCALE / m, a.2 * SCALE / m)
    }
}

/// Bound on `scale3` from bounds on its operands.
pub proof fn lemma_scale3_bound(a: V3, k: int, ba: int, bk: int, q: int)
    requires
        bounded3(a, ba),
        abs_le(k, bk),
        ba * bk <= q * SCALE,
    ensures
        bounded3(scale3(a, k), q),
{
    lemma_mul_abs(a.0, k, ba, bk);
    lemma_mul_abs(a.1, k, ba, bk);
    lemma_mul_abs(a.2, k, ba, bk);
    lemma_div_abs(a.0 * k, SCALE as int, q);
    lemma_div_abs(a.1 * k, SCALE as int, q);
    lemma_div_abs(a.2 * k, SCALE as int, q);
}

/// Bound on a dot product from bounds on its operands.
pub proof fn lemma_dot3_bound(a: V3, b: V3, ba: int, bb: int)
    requires
        bounded3(a, ba),
        bounded3(b, bb),
    ensures
        abs_le(dot3(a, b), 3 * ba * bb),
{
    lemma_mul_abs(a.0, b.0, ba, bb);
    lemma_mul_abs(a.1, b.1, ba, bb);
    lemma_mul_abs(a.2, b.2, ba, bb);
    assert(3 * ba * bb == ba * bb + ba * bb + ba * bb) by (nonlinear_arith);
}

/// No component is longer than the whole vector.
pub proof fn lemma_component_le_len(a: V3)
    ensures
        bounded3(a, len3(a)),
        len3(a) >= 0,
{
    let n = dot3(a, a);
    assert(n >= 0 && a.0 * a.0 <= n && a.1 * a.1 <= n && a.2 * a.2 <= n) by (nonlinear_arith)
        requires n == a.0 * a.0 + a.1 * a.1 + a.2 * a.2;
    crate::fixed::lemma_root_exists(n);
    let m = len3(a);
    assert(abs_le(a.0, m)) by (nonlinear_arith)
        requires a.0 * a.0 <= n, n < (m + 1) * (m + 1), m >= 0;
    assert(abs_le(a.1, m)) by (nonlinear_arith)
        requires a.1 * a.1 <= n, n < (m + 1) * (m + 1), m >= 0;
    assert(abs_le(a.2, m)) by (nonlinear_arith)
        requires a.2 * a.2 <= n, n < (m + 1) * (m + 1), m >= 0;
}

/// A unit vector has components of at most `SCALE`.
pub proof fn lemma_unit3_bound(a: V3)
    ensures
        bounded3(unit3(a), SCALE as int),
{
    lemma_component_le_len(a);
    let m = len3(a);
    if m != 0 {
        lemma_mul_abs(a.0, SCALE as int, m, SCALE as int);
        lemma_mul_abs(a.1, SCALE as int, m, SCALE as int);
        lemma_mul_abs(a.2, SCALE as int, m, SCALE as int);
        assert(m * SCALE == SCALE * m) by (nonlinear_arith);
        lemma_div_abs(a.0 * SCALE, m, SCALE as int);
        lemma_div_abs(a.1 * SCALE, m, SCALE as int);
        lemma_div_abs(a.2 * SCALE, m, SCALE as int);
    }
}

/// Largest channel value that output keeps (`0.999`): full intensity maps to 255.
pub const CHANNEL_CAP: i64 = 999_000;

/// Gamma-2 encoding of a channel (its square root); a negative channel counts as zero.
pub open spec fn gamma(c: int) -> int {
    if c > 0 { root(c * SCALE) } else { 0 }
}

/// The 8-bit value of a channel: clamped to `[0, 0.999]`, times 256, truncated.
pub open spec fn quantize(c: int) -> int {
    let k = if c < 0 { 0 } else if c > CHANNEL_CAP { CHANNEL_CAP as int } else { c };
    k * 256 / (SCALE as int)
}

/// The 8-bit value of a channel.
pub fn quantize_channel(c: i64) -> (r: u8)
    ensures
        r as int == quantize(c as int),
{
    let k: i64 = if c < 0 { 0 } else if c > CHANNEL_CAP { CHANNEL_CAP } else { c };
    proof {
        assert(0 <= k * 256 <= 255 * SCALE + 744_000) by (nonlinear_arith)
            requires 0 <= k <= CHANNEL_CAP;
        vstd::arithmetic::div_mod::lemma_div_pos_is_pos(k * 256, SCALE as int);
        vstd::arithmetic::div_mod::lemma_div_is_ordered(k * 256, 255 * SCALE + 744_000, SCALE as int);
        vstd::arithmetic::div_mod::lemma_fundamental_div_mod_converse(255 * SCALE + 744_000, SCALE as int, 255, 744_000);
    }
    ((k * 256) / SCALE) as u8
}

/// Gamma-2 encoding of a channel.
pub fn gamma_channel(c: i64) -> (r: i64)
    ensures
        r as int == gamma(c as int),
        r >= 0,
{
    if c > 0 {
        proof {
            assert(0 < c * SCALE < 0x10_0000_0000_0000_0000_0000) by (nonlinear_arith)
                requires 0 < c <= 0x7fff_ffff_ffff_ffff;
        }
        let n = c as i128 * SCALE as i128;
        let g = isqrt(n);
        proof {
            assert(g < 0x400_0000_0000) by (nonlinear_arith)
                requires g * g <= n, n < 0x10_0000_0000_0000_0000_0000, g >= 0;
        }
        g as i64
    } else {
        0
    }
}

proof fn lemma_square_scaled(x: int, k: int)
    ensures
        (x * k) * (x * k) == (x * x) * (k * k),
{
    assert((x * k) * (x * k) == (x * x) * (k * k)) by (nonlinear_arith);
}

/// Bounds on the square of one component of a unit vector, scaled by the length `m`.
proof fn lemma_unit_component(v: int, m: int, u: int)
    requires
        m > 0,
        abs_le(v, m),
        u == v * SCALE / m,
    ensures
        (v * SCALE) * (v * SCALE) - 2 * SCALE * m * m <= (u * m) * (u * m),
        (u * m) * (u * m) <= (v * SCALE) * (v * SCALE) + 2 * SCALE * m * m + m * m,
{
    let a = v * SCALE;
    vstd::arithmetic::div_mod::lemma_fundamental_div_mod(a, m);
    vstd::arithmetic::div_mod::lemma_mod_bound(a, m);
    let d = a % m;
    let b = u * m;
    assert(b == a - d) by (nonlinear_arith)
        requires a == m * u + d, b == u * m;
    assert(abs_le(a, SCALE * m)) by (nonlinear_arith)
        requires a == v * SCALE, -m <= v <= m;
    assert(a * a - 2 * SCALE * m * m <= b * b && b * b <= a * a + 2 * SCALE * m * m + m * m)
        by (nonlinear_arith)
        requires b == a - d, 0 <= d < m, -(SCALE * m) <= a <= SCALE * m, m > 0;
}

/// A unit vector has length one up to rounding: its squared length is at least
/// `SCALE^2 - 6 SCALE`, and at most `SCALE^2 (m + 1)^2 / m^2 + 6 SCALE + 3` for a vector
/// of length `m`; for a vector at least one unit long that is `SCALE^2 + 8 SCALE + 4`
/// (relative errors of about `1e-5`).
pub proof fn lemma_unit_length(a: V3)
    requires
        len3(a) > 0,
    ensures
        SCALE * SCALE - 6 * SCALE <= dot3(unit3(a), unit3(a)),
        dot3(unit3(a), unit3(a)) * (len3(a) * len3(a)) <= SCALE * SCALE * ((len3(a) + 1) * (len3(a)
            + 1)) + (6 * SCALE + 3) * (len3(a) * len3(a)),
        len3(a) >= SCALE ==> dot3(unit3(a), unit3(a)) <= SCALE * SCALE + 8 * SCALE + 4,
{
    let m = len3(a);
    let n = dot3(a, a);
    let u = unit3(a);
    let s = SCALE as int;
    lemma_component_le_len(a);
    crate::fixed::lemma_root_exists(n);
    lemma_unit_component(a.0, m, u.0);
    lemma_unit_component(a.1, m, u.1);
    lemma_unit_component(a.2, m, u.2);
    let q = dot3(u, u);
    let mm = m * m;
    lemma_square_scaled(u.0, m);
    lemma_square_scaled(u.1, m);
    lemma_square_scaled(u.2, m);
    lemma_square_scaled(a.0, s);
    lemma_square_scaled(a.1, s);
    lemma_square_scaled(a.2, s);
    vstd::arithmetic::mul::lemma_mul_is_distributive_add_other_way(mm, u.0 * u.0, u.1 * u.1);
    vstd::arithmetic::mul::lemma_mul_is_distributive_add_other_way(mm, u.0 * u.0 + u.1 * u.1, u.2 * u.2);
    vstd::arithmetic::mul::lemma_mul_is_distributive_add_other_way(s * s, a.0 * a.0, a.1 * a.1);
    vstd::arithmetic::mul::lemma_mul_is_distributive_add_other_way(s * s, a.0 * a.0 + a.1 * a.1, a.2 * a.2);
    assert(q * mm == (u.0 * m) * (u.0 * m) + (u.1 * m) * (u.1 * m) + (u.2 * m) * (u.2 * m));
    assert((a.0 * s) * (a.0 * s) + (a.1 * s) * (a.1 * s) + (a.2 * s) * (a.2 * s) == n * (s * s));
    assert(n * (s * s) == s * s * n) by (nonlinear_arith);
    let e = 2 * SCALE * m * m;
    assert(e == 2 * s * mm) by (nonlinear_arith)
        requires e == 2 * SCALE * m * m, s == SCALE, mm == m * m;
    assert(s * s * n - 3 * e <= q * mm);
    assert(q * mm <= s * s * n + 3 * e + 3 * mm);
    assert(s * s * n - 6 * s * (m * m) <= q * (m * m));
    assert(q * (m * m) <= s * s * n + 6 * s * (m * m) + 3 * (m * m));
    assert(s * s * (m * m) <= s * s * n) by (nonlinear_arith)
        requires m * m <= n, s > 0;
    assert(s * s * n <= s * s * ((m + 1) * (m + 1))) by (nonlinear_arith)
        requires n < (m + 1) * (m + 1), s > 0;
    assert(q * (m * m) <= s * s * ((m + 1) * (m + 1)) + (6 * s + 3) * (m * m)) by (nonlinear_arith)
        requires q * (m * m) <= s * s * n + 6 * s * (m * m) + 3 * (m * m),
            s * s * n <= s * s * ((m + 1) * (m + 1));
    assert((s * s - 6 * s) * (m * m) <= q * (m * m)) by (nonlinear_arith)
        requires s * s * n - 6 * s * (m * m) <= q * (m * m), s * s * (m * m) <= s * s * n;
    assert(s * s - 6 * s <= q) by (nonlinear_arith)
        requires (s * s - 6 * s) * (m * m) <= q * (m * m), m > 0;
    if m >= s {
        assert(s * s * n <= s * s * (m + 1) * (m + 1)) by (nonlinear_arith)
            requires n < (m + 1) * (m + 1), s > 0;
        assert(s * s * (m + 1) * (m + 1) <= (s * s + 2 * s + 1) * (m * m)) by (nonlinear_arith)
            requires m >= s, s > 0;
        assert(q * (m * m) <= (s * s + 8 * s + 4) * (m * m)) by (nonlinear_arith)
            requires q * (m * m) <= s * s * n + 6 * s * (m * m) + 3 * (m * m),
                s * s * n <= (s * s + 2 * s + 1) * (m * m), s > 0;
        assert(q <= s * s + 8 * s + 4) by (nonlinear_arith)
            requires q * (m * m) <= (s * s + 8 * s + 4) * (m * m), m > 0;
    }
}

/// Factor by which a short vector is magnified before it is normalised, so that the integer
/// square root of its squared length loses no precision that matters.
pub const NORMAL_GAIN: i64 = 1_048_576;

/// The vector times `NORMAL_GAIN`.
pub open spec fn magnify3(a: V3) -> V3 {
    (a.0 * NORMAL_GAIN, a.1 * NORMAL_GAIN, a.2 * NORMAL_GAIN)
}

/// Normalising a magnified nonzero vector gives length one up to rounding: the squared
/// length lies within `[SCALE^2 - 6 SCALE, SCALE^2 + 8 SCALE + 4]`, a relative error in the
/// length below `4e-6`.
pub proof fn lemma_magnified_unit_length(a: V3)
    requires
        a != (0int, 0int, 0int),
    ensures
        SCALE * SCALE - 6 * SCALE <= dot3(unit3(magnify3(a)), unit3(magnify3(a))) <= SCALE * SCALE
            + 8 * SCALE + 4,
{
    let g = NORMAL_GAIN as int;
    let b = magnify3(a);
    let n = dot3(a, a);
    assert(n >= 1) by (nonlinear_arith)
        requires n == a.0 * a.0 + a.1 * a.1 + a.2 * a.2, a.0 != 0 || a.1 != 0 || a.2 != 0;
    assert(dot3(b, b) == g * g * n) by (nonlinear_arith)
        requires b == (a.0 * g, a.1 * g, a.2 * g), n == a.0 * a.0 + a.1 * a.1 + a.2 * a.2;
    assert(g * g <= g * g * n) by (nonlinear_arith)
        requires n >= 1;
    crate::fixed::lemma_root_exists(dot3(b, b));
    let m = len3(b);
    assert(m >= g) by (nonlinear_arith)
        requires g * g <= dot3(b, b), dot3(b, b) < (m + 1) * (m + 1), m >= 0, g > 0;
    lemma_unit_length(b);
}

/// A three-component vector of fixed-point numbers: a point, a direction or a colour.
#[derive(Debug, Default, Clone, Copy, PartialEq, Eq, Structural)]
pub struct Vec3 {
    pub x: i64,
    pub y: i64,
    pub z: i64,
}

/// A position in the scene.
pub type Point3 = Vec3;

/// A colour: red, green and blue, where `SCALE` is full intensity.
pub type Color = Vec3;

impl View for Vec3 {
    type V = V3;

    open spec fn view(&self) -> V3 {
        (self.x as int, self.y as int, self.z as int)
    }
}

impl Vec3 {
    pub fn black() -> (r: Color)
        ensures
            r@ == (0int, 0int, 0int),
    {
        Vec3::new(0, 0, 0)
    }

    pub fn white() -> (r: Color)
        ensures
            r@ == (SCALE as int, SCALE as int, SCALE as int),
    {
        Vec3::new(SCALE, SCALE, SCALE)
    }

    pub fn mid_gray() -> (r: Color)
        ensures
            r@ == (SCALE / 2, SCALE / 2, SCALE / 2),
    {
        Vec3::new(SCALE / 2, SCALE / 2, SCALE / 2)
    }

    pub fn red() -> (r: Color)
        ensures
            r@ == (SCALE as int, 0int, 0int),
    {
        Vec3::new(SCALE, 0, 0)
    }

    pub fn green() -> (r: Color)
        ensures
            r@ == (0int, SCALE as int, 0int),
    {
        Vec3::new(0, SCALE, 0)
    }

    pub fn blue() -> (r: Color)
        ensures
            r@ == (0int, 0int, SCALE as int),
    {
        Vec3::new(0, 0, SCALE)
    }

    /// Every component lies in the representable box.
    pub open spec fn wf(&self) -> bool {
        bounded3(self@, COORD_MAX as int)
    }

    /// The 8-bit red value.
    pub fn r(&self) -> (r: u8)
        ensures
            r as int == quantize(self.x as int),
    {
        quantize_channel(self.x)
    }

    /// The 8-bit green value.
    pub fn g(&self) -> (r: u8)
        ensures
            r as int == quantize(self.y as int),
    {
        quantize_channel(self.y)
    }

    /// The 8-bit blue value.
    pub fn b(&self) -> (r: u8)
        ensures
            r as int == quantize(self.z as int),
    {
        quantize_channel(self.z)
    }

    /// Gamma-2 encoding of each channel.
    pub fn sqrt(&self) -> (r: Color)
        ensures
            r@ == (gamma(self.x as int), gamma(self.y as int), gamma(self.z as int)),
    {
        Vec3::new(gamma_channel(self.x), gamma_channel(self.y), gamma_channel(self.z))
    }

    pub fn new(x: i64, y: i64, z: i64) -> (r: Vec3)
        ensures
            r@ == (x as int, y as int, z as int),
    {
        Vec3 { x, y, z }
    }

    /// Dot product, in units of `SCALE * SCALE`.
    pub fn dot(&self, other: &Vec3) -> (r: i128)
        requires
            bounded3(self@, WIDE_MAX as int),
            bounded3(other@, WIDE_MAX as int),
        ensures
            r as int == dot3(self@, other@),
    {
        proof {
            lemma_dot3_bound(self@, other@, WIDE_MAX as int, WIDE_MAX as int);
            lemma_mul_abs(self.x as int, other.x as int, WIDE_MAX as int, WIDE_MAX as int);
            lemma_mul_abs(self.y as int, other.y as int, WIDE_MAX as int, WIDE_MAX as int);
            lemma_mul_abs(self.z as int, other.z as int, WIDE_MAX as int, WIDE_MAX as int);
        }
        (self.x as i128) * (other.x as i128) + (self.y as i128) * (other.y as i128) + (self.z
            as i128) * (other.z as i128)
    }

    /// Squared length, in units of `SCALE * SCALE`.
    pub fn mag_sq(&self) -> (r: i128)
        requires
            bounded3(self@, WIDE_MAX as int),
        ensures
            r as int == dot3(self@, self@),
            r >= 0,
    {
        proof {
            assert(dot3(self@, self@) >= 0) by (nonlinear_arith)
                requires dot3(self@, self@) == self.x * self.x + self.y * self.y + self.z * self.z;
        }
        self.dot(self)
    }

    pub fn add(&self, other: &Vec3) -> (r: Vec3)
        requires
            bounded3(self@, WIDE_MAX as int),
            bounded3(other@, WIDE_MAX as int),
        ensures
            r@ == add3(self@, other@),
    {
        Vec3 { x: self.x + other.x, y: self.y + other.y, z: self.z + other.z }
    }

    pub fn sub(&self, other: &Vec3) -> (r: Vec3)
        requires
            bounded3(self@, WIDE_MAX as int),
            bounded3(other@, WIDE_MAX as int),
        ensures
            r@ == sub3(self@, other@),
    {
        Vec3 { x: self.x - other.x, y: self.y - other.y, z: self.z - other.z }
    }

    pub fn neg(&self) -> (r: Vec3)
        requires
            bounded3(self@, WIDE_MAX as int),
        ensures
            r@ == neg3(self@),
    {
        Vec3 { x: -self.x, y: -self.y, z: -self.z }
    }

    /// Each component times the fixed-point scalar `k`, rounded down.
    pub fn scale(&self, k: i64) -> (r: Vec3)
        requires
            bounded3(self@, COORD_MAX as int),
            abs_le(k as int, 16 * SCALE),
        ensures
            r@ == scale3(self@, k as int),
            bounded3(r@, 16 * COORD_MAX),
    {
        proof {
            lemma_scale3_bound(self@, k as int, COORD_MAX as int, 16 * SCALE, 16 * COORD_MAX);
            lemma_mul_abs(self.x as int, k as int, COORD_MAX as int, 16 * SCALE);
            lemma_mul_abs(self.y as int, k as int, COORD_MAX as int, 16 * SCALE);
            lemma_mul_abs(self.z as int, k as int, COORD_MAX as int, 16 * SCALE);
        }
        let s = SCALE as i128;
        let x = floor_div(self.x as i128 * k as i128, s);
        let y = floor_div(self.y as i128 * k as i128, s);
        let z = floor_div(self.z as i128 * k as i128, s);
        Vec3 { x: x as i64, y: y as i64, z: z as i64 }
    }

    /// `scale` for vectors of twice the coordinate bound and factors of half the bound.
    fn scale_wide(&self, k: i64) -> (r: Vec3)
        requires
            bounded3(self@, 2 * COORD_MAX),
            abs_le(k as int, 8 * SCALE),
        ensures
            r@ == scale3(self@, k as int),
    {
        proof {
            assert((2 * COORD_MAX) * (8 * SCALE) <= (16 * COORD_MAX) * SCALE) by (nonlinear_arith);
            lemma_scale3_bound(self@, k as int, 2 * COORD_MAX, 8 * SCALE, 16 * COORD_MAX);
            lemma_mul_abs(self.x as int, k as int, 2 * COORD_MAX, 8 * SCALE);
            lemma_mul_abs(self.y as int, k as int, 2 * COORD_MAX, 8 * SCALE);
            lemma_mul_abs(self.z as int, k as int, 2 * COORD_MAX, 8 * SCALE);
        }
        let s = SCALE as i128;
        let x = floor_div(self.x as i128 * k as i128, s);
        let y = floor_div(self.y as i128 * k as i128, s);
        let z = floor_div(self.z as i128 * k as i128, s);
        Vec3 { x: x as i64, y: y as i64, z: z as i64 }
    }

    /// `scale` for short vectors (up to 16) and large factors (up to 4096).
    pub fn scale_short(&self, k: i64) -> (r: Vec3)
        requires
            bounded3(self@, 16 * SCALE),
            abs_le(k as int, 4096 * SCALE),
        ensures
            r@ == scale3(self@, k as int),
            bounded3(r@, 65536 * SCALE),
    {
        proof {
            assert((16 * SCALE) * (4096 * SCALE) <= (65536 * SCALE) * SCALE) by (nonlinear_arith);
            lemma_scale3_bound(self@, k as int, 16 * SCALE, 4096 * SCALE, 65536 * SCALE);
            lemma_mul_abs(self.x as int, k as int, 16 * SCALE, 4096 * SCALE);
            lemma_mul_abs(self.y as int, k as int, 16 * SCALE, 4096 * SCALE);
            lemma_mul_abs(self.z as int, k as int, 16 * SCALE, 4096 * SCALE);
        }
        let s = SCALE as i128;
        let x = floor_div(self.x as i128 * k as i128, s);
        let y = floor_div(self.y as i128 * k as i128, s);
        let z = floor_div(self.z as i128 * k as i128, s);
        Vec3 { x: x as i64, y: y as i64, z: z as i64 }
    }

    /// `scale` for vectors of at most unit components and factors up to `8 * COORD_MAX`.
    pub fn scale_wide_factor(&self, k: i64) -> (r: Vec3)
        requires
            bounded3(self@, SCALE as int),
            abs_le(k as int, 8 * COORD_MAX),
        ensures
            r@ == scale3(self@, k as int),
            bounded3(r@, 8 * COORD_MAX),
    {
        proof {
            assert((SCALE as int) * (8 * COORD_MAX) <= (8 * COORD_MAX) * SCALE) by (nonlinear_arith);
            lemma_scale3_bound(self@, k as int, SCALE as int, 8 * COORD_MAX, 8 * COORD_MAX);
            lemma_mul_abs(self.x as int, k as int, SCALE as int, 8 * COORD_MAX);
            lemma_mul_abs(self.y as int, k as int, SCALE as int, 8 * COORD_MAX);
            lemma_mul_abs(self.z as int, k as int, SCALE as int, 8 * COORD_MAX);
        }
        let s = SCALE as i128;
        let x = floor_div(self.x as i128 * k as i128, s);
        let y = floor_div(self.y as i128 * k as i128, s);
        let z = floor_div(self.z as i128 * k as i128, s);
        Vec3 { x: x as i64, y: y as i64, z: z as i64 }
    }

    /// Component-wise product, rounded down: a colour filtered by another.
    pub fn mul(&self, other: &Vec3) -> (r: Vec3)
        requires
            bounded3(self@, COORD_MAX as int),
            bounded3(other@, 16 * SCALE),
        ensures
            r@ == mul3(self@, other@),
    {
        proof {
            lemma_mul_abs(self.x as int, other.x as int, COORD_MAX as int, 16 * SCALE);
            lemma_mul_abs(self.y as int, other.y as int, COORD_MAX as int, 16 * SCALE);
            lemma_mul_abs(self.z as int, other.z as int, COORD_MAX as int, 16 * SCALE);
            lemma_div_abs(self.x * other.x, SCALE as int, 16 * COORD_MAX);
            lemma_div_abs(self.y * other.y, SCALE as int, 16 * COORD_MAX);
            lemma_div_abs(self.z * other.z, SCALE as int, 16 * COORD_MAX);
        }
        let s = SCALE as i128;
        let x = floor_div(self.x as i128 * other.x as i128, s);
        let y = floor_div(self.y as i128 * other.y as i128, s);
        let z = floor_div(self.z as i128 * other.z as i128, s);
        Vec3 { x: x as i64, y: y as i64, z: z as i64 }
    }

    /// Cross product, rounded down.
    pub fn cross(&self, other: &Vec3) -> (r: Vec3)
        requires
            bounded3(self@, COORD_MAX as int),
            bounded3(other@, COORD_MAX as int),
        ensures
            r@ == cross3(self@, other@),
            bounded3(r@, WIDE_MAX as int),
    {
        let (ax, ay, az) = (self.x as i128, self.y as i128, self.z as i128);
        let (bx, by, bz) = (other.x as i128, other.y as i128, other.z as i128);
        proof {
            let c = COORD_MAX as int;
            lemma_mul_abs(ax as int, by as int, c, c);
            lemma_mul_abs(ax as int, bz as int, c, c);
            lemma_mul_abs(ay as int, bx as int, c, c);
            lemma_mul_abs(ay as int, bz as int, c, c);
            lemma_mul_abs(az as int, bx as int, c, c);
            lemma_mul_abs(az as int, by as int, c, c);
            lemma_div_abs(ay * bz - az * by, SCALE as int, 2 * c * c);
            lemma_div_abs(az * bx - ax * bz, SCALE as int, 2 * c * c);
            lemma_div_abs(ax * by - ay * bx, SCALE as int, 2 * c * c);
            assert(2 * c * c <= WIDE_MAX * SCALE) by (nonlinear_arith)
                requires c == COORD_MAX;
            lemma_div_abs(ay * bz - az * by, SCALE as int, WIDE_MAX as int);
            lemma_div_abs(az * bx - ax * bz, SCALE as int, WIDE_MAX as int);
            lemma_div_abs(ax * by - ay * bx, SCALE as int, WIDE_MAX as int);
        }
        let s = SCALE as i128;
        let x = floor_div(ay * bz - az * by, s);
        let y = floor_div(az * bx - ax * bz, s);
        let z = floor_div(ax * by - ay * bx, s);
        Vec3 { x: x as i64, y: y as i64, z: z as i64 }
    }

    /// Linear blend from `start` (at 0) to `end` (at `SCALE`): `start + (end - start) * amnt`.
    pub fn lerp(start: Vec3, end: Vec3, amnt: i64) -> (r: Vec3)
        requires
            bounded3(start@, COORD_MAX as int),
            bounded3(end@, COORD_MAX as int),
            abs_le(amnt as int, 8 * SCALE),
        ensures
            r@ == add3(start@, scale3(sub3(end@, start@), amnt as int)),
    {
        proof {
            assert((2 * COORD_MAX) * (8 * SCALE) <= (16 * COORD_MAX) * SCALE) by (nonlinear_arith);
            lemma_scale3_bound(sub3(end@, start@), amnt as int, 2 * COORD_MAX, 8 * SCALE, 16 * COORD_MAX);
        }
        let d = end.sub(&start);
        let s = d.scale_wide(amnt);
        start.add(&s)
    }

    /// The vector times `NORMAL_GAIN`.
    pub fn magnify(&self) -> (r: Vec3)
        requires
            bounded3(self@, 2 * COORD_MAX),
        ensures
            r@ == magnify3(self@),
            bounded3(r@, WIDE_MAX as int),
    {
        proof {
            lemma_mul_abs(self.x as int, NORMAL_GAIN as int, 2 * COORD_MAX, NORMAL_GAIN as int);
            lemma_mul_abs(self.y as int, NORMAL_GAIN as int, 2 * COORD_MAX, NORMAL_GAIN as int);
            lemma_mul_abs(self.z as int, NORMAL_GAIN as int, 2 * COORD_MAX, NORMAL_GAIN as int);
            assert(2 * COORD_MAX * NORMAL_GAIN <= WIDE_MAX) by (nonlinear_arith);
        }
        Vec3 { x: self.x * NORMAL_GAIN, y: self.y * NORMAL_GAIN, z: self.z * NORMAL_GAIN }
    }

    /// The vector scaled to length `SCALE` (one), rounded down; the zero vector stays zero.
    pub fn unit(&self) -> (r: Vec3)
        requires
            bounded3(self@, WIDE_MAX as int),
        ensures
            r@ == unit3(self@),
            bounded3(r@, SCALE as int),
    {
        let n = self.mag_sq();
        let m = isqrt(n);
        proof {
            lemma_unit3_bound(self@);
            lemma_component_le_len(self@);
        }
        if m == 0 {
            Vec3 { x: 0, y: 0, z: 0 }
        } else {
            proof {
                let mi = m as int;
                lemma_dot3_bound(self@, self@, WIDE_MAX as int, WIDE_MAX as int);
                assert(mi < 0x1_0000_0000_0000_0000) by (nonlinear_arith)
                    requires mi * mi <= n, n < 0x1000_0000_0000_0000_0000_0000_0000_0000, mi >= 0;
                lemma_mul_abs(self.x as int, SCALE as int, WIDE_MAX as int, SCALE as int);
                lemma_mul_abs(self.y as int, SCALE as int, WIDE_MAX as int, SCALE as int);
                lemma_mul_abs(self.z as int, SCALE as int, WIDE_MAX as int, SCALE as int);
            }
            let s = SCALE as i128;
            let x = floor_div(self.x as i128 * s, m);
            let y = floor_div(self.y as i128 * s, m);
            let z = floor_div(self.z as i128 * s, m);
            Vec3 { x: x as i64, y: y as i64, z: z as i64 }
        }
    }
}

} // verus!
