use vstd::prelude::*;

verus! {

/// Number of fixed-point units in one world unit (and in a colour channel of full intensity).
pub const SCALE: i64 = 1_000_000;

/// `SCALE * SCALE`: the unit of dot products and squared lengths.
pub const SCALE_SQ: i128 = 1_000_000_000_000;

/// `-b <= x <= b`.
pub open spec fn abs_le(x: int, b: int) -> bool {
    -b <= x <= b
}

/// Bound of a product from bounds of its factors.
pub proof fn lemma_mul_abs(a: int, b: int, ba: int, bb: int)
    requires
        abs_le(a, ba),
        abs_le(b, bb),
    ensures
        abs_le(a * b, ba * bb),
{
    assert(abs_le(a * b, ba * bb)) by (nonlinear_arith)
        requires -ba <= a <= ba, -bb <= b <= bb;
}

/// Bound of a floor quotient from a bound of the dividend.
pub proof fn lemma_div_abs(x: int, d: int, q: int)
    requires
        d > 0,
        abs_le(x, q * d),
    ensures
        abs_le(x / d, q),
{
    vstd::arithmetic::div_mod::lemma_fundamental_div_mod(x, d);
    vstd::arithmetic::div_mod::lemma_mod_bound(x, d);
    let r = x / d;
    assert(abs_le(r, q)) by (nonlinear_arith)
        requires x == d * r + x % d, 0 <= x % d < d, -(q * d) <= x <= q * d, d > 0;
}

/// Division rounded towards negative infinity.
pub fn floor_div(x: i128, d: i128) -> (r: i128)
    requires
        d > 0,
        x > i128::MIN + d,
    ensures
        r as int == (x as int) / (d as int),
{
    if x >= 0 {
        x / d
    } else {
        let q = (-x + d - 1) / d;
        proof {
            lemma_floor_of_neg(x as int, d as int, q as int);
        }
        -q
    }
}

proof fn lemma_floor_of_neg(x: int, d: int, q: int)
    requires
        d > 0,
        x < 0,
        q == (-x + d - 1) / d,
    ensures
        x / d == -q,
{
    let m = (-x + d - 1) % d;
    vstd::arithmetic::div_mod::lemma_fundamental_div_mod(-x + d - 1, d);
    vstd::arithmetic::div_mod::lemma_mod_bound(-x + d - 1, d);
    assert(q * d + m == -x + d - 1) by (nonlinear_arith)
        requires -x + d - 1 == d * q + m;
    assert(0 <= m < d);
    assert(x == (-q) * d + (d - 1 - m)) by (nonlinear_arith)
        requires q * d + m == -x + d - 1;
    assert(0 <= d - 1 - m < d);
    vstd::arithmetic::div_mod::lemma_fundamental_div_mod_converse(x, d, -q, d - 1 - m);
}

/// `r` is the integer square root of `n`: the largest integer whose square does not exceed `n`.
pub open spec fn is_root(n: int, r: int) -> bool {
    0 <= r && r * r <= n && n < (r + 1) * (r + 1)
}

/// The integer square root of a non-negative integer (zero for a negative one).
pub open spec fn root(n: int) -> int {
    if n >= 0 && exists|r: int| is_root(n, r) {
        choose|r: int| is_root(n, r)
    } else {
        0
    }
}

proof fn lemma_root_unique(n: int, r: int, s: int)
    requires
        is_root(n, r),
        is_root(n, s),
    ensures
        r == s,
{
    if r < s {
        assert((r + 1) * (r + 1) <= s * s) by (nonlinear_arith)
            requires 0 <= r < s;
    } else if s < r {
        assert((s + 1) * (s + 1) <= r * r) by (nonlinear_arith)
            requires 0 <= s < r;
    }
}

proof fn lemma_root_from(n: int, r: int)
    requires
        0 <= r,
        r * r <= n,
    ensures
        exists|x: int| is_root(n, x),
    decreases n - r,
{
    if (r + 1) * (r + 1) <= n {
        assert(r + 1 <= n) by (nonlinear_arith)
            requires (r + 1) * (r + 1) <= n, r >= 0;
        lemma_root_from(n, r + 1);
    } else {
        assert(is_root(n, r));
    }
}

/// Every non-negative integer has an integer square root.
pub proof fn lemma_root_exists(n: int)
    requires
        n >= 0,
    ensures
        is_root(n, root(n)),
{
    lemma_root_from(n, 0);
}

/// Any integer square root is the one `root` names.
pub proof fn lemma_root(n: int, r: int)
    requires
        is_root(n, r),
    ensures
        root(n) == r,
{
    assert(exists|x: int| is_root(n, x));
    let c = choose|x: int| is_root(n, x);
    lemma_root_unique(n, r, c);
}

/// Integer square root by bisection.
pub fn isqrt(n: i128) -> (r: i128)
    requires
        n >= 0,
    ensures
        is_root(n as int, r as int),
        r as int == root(n as int),
{
    let m: u128 = n as u128;
    let mut lo: u128 = 0;
    let mut hi: u128 = 0x1_0000_0000_0000_0000;
    assert(hi * hi > m) by (nonlinear_arith)
        requires hi == 0x1_0000_0000_0000_0000u128, m < 0x8000_0000_0000_0000_0000_0000_0000_0000;
    while hi - lo > 1
        invariant
            lo < hi <= 0x1_0000_0000_0000_0000,
            lo * lo <= m,
            m < hi * hi,
        decreases hi - lo,
    {
        let mid: u128 = lo + (hi - lo) / 2;
        assert(mid * mid <= 0xffff_ffff_ffff_fffe_0000_0000_0000_0001) by (nonlinear_arith)
            requires mid < 0x1_0000_0000_0000_0000;
        if mid * mid <= m {
            lo = mid;
        } else {
            hi = mid;
        }
    }
    assert(hi == lo + 1);
    proof {
        lemma_root(n as int, lo as int);
    }
    lo as i128
}

} // verus!
