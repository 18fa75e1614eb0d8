use vstd::prelude::*;
use vstd::arithmetic::div_mod::{
    lemma_fundamental_div_mod, lemma_fundamental_div_mod_converse_div, lemma_div_is_ordered,
};

verus! {

/// One whole unit of the fixed-point scalar type: a scalar value `v`
/// stands for the real number `v / FRAC`.
pub const FRAC: i64 = 65536;

/// Magnitude cap on the operands of the general fixed-point operations,
/// chosen so that every intermediate product fits comfortably in 128 bits
/// and every quotient fits in 64 bits.
pub const FX_LIM: i64 = 400_000_000_000;

/// Product of two fixed-point scalars, rounded toward negative infinity.
pub open spec fn fmul_s(a: int, b: int) -> int {
    (a * b) / (FRAC as int)
}

/// Quotient of two fixed-point scalars, rounded toward negative infinity.
pub open spec fn fdiv_s(a: int, b: int) -> int {
    (a * FRAC) / b
}

/// Floor division by a positive divisor bounds the quotient by the dividend.
pub proof fn lemma_div_range(x: int, d: int)
    requires
        1 <= d,
    ensures
        0 <= x ==> 0 <= x / d <= x,
        x < 0 ==> x <= x / d <= 0,
{
    lemma_fundamental_div_mod(x, d);
    let q = x / d;
    let r = x % d;
    assert(0 <= x ==> 0 <= q <= x) by (nonlinear_arith)
        requires
            x == d * q + r,
            0 <= r < d,
            1 <= d,
    ;
    assert(x < 0 ==> x <= q <= 0) by (nonlinear_arith)
        requires
            x == d * q + r,
            0 <= r < d,
            1 <= d,
    ;
}

/// The product of bounded factors is bounded.
pub proof fn lemma_mul_bound(a: int, b: int, ma: int, mb: int)
    requires
        -ma <= a <= ma,
        -mb <= b <= mb,
        0 <= ma,
        0 <= mb,
    ensures
        -(ma * mb) <= a * b <= ma * mb,
{
    assert(-(ma * mb) <= a * b <= ma * mb) by (nonlinear_arith)
        requires
            -ma <= a <= ma,
            -mb <= b <= mb,
            0 <= ma,
            0 <= mb,
    ;
}

/// The fixed-point quotient of a bounded dividend by a divisor no smaller
/// than `bmin` is bounded.
pub proof fn lemma_fdiv_s_bound(a: int, b: int, ma: int, bmin: int)
    requires
        -ma <= a <= ma,
        0 <= ma,
        1 <= bmin <= b,
    ensures
        -((ma * FRAC) / bmin + 1) <= fdiv_s(a, b) <= (ma * FRAC) / bmin + 1,
{
    let f = FRAC as int;
    let q = (a * f) / b;
    let r = (a * f) % b;
    lemma_fundamental_div_mod(a * f, b);
    let y = (ma * f) / bmin;
    let s = (ma * f) % bmin;
    lemma_fundamental_div_mod(ma * f, bmin);
    assert(-ma * f <= a * f <= ma * f) by (nonlinear_arith)
        requires
            -ma <= a <= ma,
            0 <= ma,
            0 < f,
    ;
    assert(-y - 1 <= q <= y + 1) by (nonlinear_arith)
        requires
            a * f == b * q + r,
            0 <= r < b,
            ma * f == bmin * y + s,
            0 <= s < bmin,
            1 <= bmin <= b,
            -(ma * f) <= a * f <= ma * f,
            0 <= ma * f,
    ;
}

/// The fixed-point product of bounded operands is bounded.
pub proof fn lemma_fmul_s_bound(a: int, b: int, ma: int, mb: int)
    requires
        -ma <= a <= ma,
        -mb <= b <= mb,
        0 <= ma,
        0 <= mb,
    ensures
        -(ma * mb) <= a * b <= ma * mb,
        -((ma * mb) / (FRAC as int) + 1) <= fmul_s(a, b) <= (ma * mb) / (FRAC as int),
{
    let f = FRAC as int;
    assert(-(ma * mb) <= a * b <= ma * mb) by (nonlinear_arith)
        requires
            -ma <= a <= ma,
            -mb <= b <= mb,
            0 <= ma,
            0 <= mb,
    ;
    lemma_div_is_ordered(a * b, ma * mb, f);
    lemma_div_is_ordered(-(ma * mb), a * b, f);
    lemma_fundamental_div_mod(ma * mb, f);
    lemma_fundamental_div_mod(-(ma * mb), f);
    let q = (ma * mb) / f;
    let r = (ma * mb) % f;
    let qn = (-(ma * mb)) / f;
    let rn = (-(ma * mb)) % f;
    assert(-q - 1 <= qn) by (nonlinear_arith)
        requires
            ma * mb == f * q + r,
            -(ma * mb) == f * qn + rn,
            0 <= r < f,
            0 <= rn < f,
            f == FRAC as int,
    ;
}

/// Floor division of a signed value by a positive divisor, matching the
/// `/` of specifications (which rounds toward negative infinity when the
/// divisor is positive).
pub fn floor_div(n: i128, d: i128) -> (q: i128)
    requires
        1 <= d <= 0x8000_0000_0000_0000,
        -0x4000_0000_0000_0000_0000_0000_0000_0000 <= n
            <= 0x4000_0000_0000_0000_0000_0000_0000_0000,
    ensures
        q == n as int / d as int,
        0 <= n ==> 0 <= q <= n,
        n < 0 ==> n <= q <= 0,
{
    proof {
        lemma_div_range(n as int, d as int);
    }
    if n >= 0 {
        n / d
    } else {
        let m: i128 = -n;
        let k: i128 = (m + d - 1) / d;
        proof {
            let mi = m as int;
            let di = d as int;
            lemma_fundamental_div_mod(mi + di - 1, di);
            let ki = (mi + di - 1) / di;
            let si = (mi + di - 1) % di;
            lemma_div_range(mi + di - 1, di);
            assert(di * (-ki) == -(di * ki)) by (nonlinear_arith);
            assert(n as int == di * (-ki) + (di - 1 - si));
            lemma_fundamental_div_mod_converse_div(n as int, di, -ki, di - 1 - si);
        }
        -k
    }
}

/// Fixed-point multiplication: exact product scaled down by `FRAC`,
/// rounded toward negative infinity.
pub fn fmul(a: i64, b: i64) -> (r: i64)
    requires
        -FX_LIM <= a <= FX_LIM,
        -FX_LIM <= b <= FX_LIM,
    ensures
        r == fmul_s(a as int, b as int),
{
    proof {
        lemma_fmul_s_bound(a as int, b as int, FX_LIM as int, FX_LIM as int);
    }
    let p: i128 = (a as i128) * (b as i128);
    let q: i128 = floor_div(p, FRAC as i128);
    q as i64
}

/// Fixed-point division by a positive scalar: the scaled dividend over the
/// divisor, rounded toward negative infinity.
pub fn fdiv(a: i64, b: i64) -> (r: i64)
    requires
        -FX_LIM <= a <= FX_LIM,
        1 <= b,
    ensures
        r == fdiv_s(a as int, b as int),
{
    let p: i128 = (a as i128) * (FRAC as i128);
    let q: i128 = floor_div(p, b as i128);
    q as i64
}

/// The integer square root: the greatest integer whose square does not
/// exceed `n` (and 0 for negative `n`).
pub open spec fn isqrt_s(n: int) -> int
    decreases n,
{
    if n <= 0 {
        0
    } else {
        let r = isqrt_s(n - 1);
        if (r + 1) * (r + 1) <= n {
            r + 1
        } else {
            r
        }
    }
}

/// `isqrt_s` is characterized by squeezing `n` between consecutive squares.
pub proof fn lemma_isqrt_s(n: int)
    requires
        0 <= n,
    ensures
        0 <= isqrt_s(n),
        isqrt_s(n) * isqrt_s(n) <= n,
        n < (isqrt_s(n) + 1) * (isqrt_s(n) + 1),
    decreases n,
{
    if n == 0 {
    } else {
        lemma_isqrt_s(n - 1);
        let r = isqrt_s(n - 1);
        if (r + 1) * (r + 1) <= n {
            assert(n < (r + 2) * (r + 2)) by (nonlinear_arith)
                requires
                    0 <= r,
                    n - 1 < (r + 1) * (r + 1),
                    (r + 1) * (r + 1) <= n,
            ;
        }
    }
}

/// Any integer squeezed between consecutive squares of `r` is the square
/// root of `n`.
pub proof fn lemma_isqrt_s_unique(n: int, r: int)
    requires
        0 <= n,
        0 <= r,
        r * r <= n,
        n < (r + 1) * (r + 1),
    ensures
        r == isqrt_s(n),
{
    lemma_isqrt_s(n);
    let s = isqrt_s(n);
    assert(r == s) by (nonlinear_arith)
        requires
            0 <= r,
            0 <= s,
            r * r <= n,
            n < (r + 1) * (r + 1),
            s * s <= n,
            n < (s + 1) * (s + 1),
    ;
}

/// A value at least `b * b` has square root at least `b`.
pub proof fn lemma_isqrt_s_ge(n: int, b: int)
    requires
        0 <= b,
        b * b <= n,
    ensures
        b <= isqrt_s(n),
{
    lemma_isqrt_s(n);
    let r = isqrt_s(n);
    assert(b <= r) by (nonlinear_arith)
        requires
            0 <= b,
            0 <= r,
            b * b <= n,
            n < (r + 1) * (r + 1),
    ;
}

/// A value below `b * b` has square root below `b`.
pub proof fn lemma_isqrt_s_lt(n: int, b: int)
    requires
        0 <= n,
        0 <= b,
        n < b * b,
    ensures
        isqrt_s(n) < b,
{
    lemma_isqrt_s(n);
    let r = isqrt_s(n);
    assert(r < b) by (nonlinear_arith)
        requires
            0 <= b,
            0 <= r,
            r * r <= n,
            n < b * b,
    ;
}

/// Binary search for the integer square root of an unsigned 128-bit value.
pub fn isqrt(n: u128) -> (r: u128)
    requires
        n < 0x1000_0000_0000_0000_0000_0000_0000_0000u128,
    ensures
        r as int == isqrt_s(n as int),
        r * r <= n,
        n < (r + 1) * (r + 1),
{
    let mut lo: u128 = 0;
    let mut hi: u128 = 0x4000_0000_0000_0000;
    proof {
        assert(n < hi * hi) by (nonlinear_arith)
            requires
                n < 0x1000_0000_0000_0000_0000_0000_0000_0000u128,
                hi == 0x4000_0000_0000_0000,
        ;
    }
    while lo + 1 < hi
        invariant
            0 <= lo < hi <= 0x4000_0000_0000_0000,
            lo * lo <= n,
            n < hi * hi,
        decreases hi - lo,
    {
        let mid: u128 = lo + (hi - lo) / 2;
        proof {
            assert(mid * mid <= 0x4000_0000_0000_0000 * 0x4000_0000_0000_0000) by (nonlinear_arith)
                requires
                    0 <= mid <= 0x4000_0000_0000_0000u128,
            ;
        }
        if mid * mid <= n {
            lo = mid;
        } else {
            hi = mid;
        }
    }
    proof {
        lemma_isqrt_s_unique(n as int, lo as int);
    }
    lo
}

/// Fixed-point square root: the integer square root of the value scaled up
/// by `FRAC`, so that the result carries the same scale as the argument.
pub open spec fn fsqrt_s(x: int) -> int {
    isqrt_s(x * FRAC)
}

/// Fixed-point square root of a nonnegative scalar.
pub fn fsqrt(x: i64) -> (r: i64)
    requires
        0 <= x,
    ensures
        r == fsqrt_s(x as int),
        0 <= r < 0x1_0000_0000_0000,
{
    proof {
        assert((x as int) * (FRAC as int) < 0x1000_0000_0000_0000_0000_0000_0000_0000) by (nonlinear_arith)
            requires
                0 <= x <= i64::MAX,
                FRAC == 65536i64,
        ;
    }
    let n: u128 = (x as u128) * (FRAC as u128);
    let r: u128 = isqrt(n);
    proof {
        assert(r < 0x1_0000_0000_0000) by (nonlinear_arith)
            requires
                r * r <= n,
                n < 0x1_0000_0000_0000_0000_0000_0000u128,
                0 <= r,
        ;
    }
    r as i64
}

/// Restricts a scalar to the closed interval between `min` and `max`.
pub fn clamp(x: i64, min: i64, max: i64) -> (r: i64)
    ensures
        r == clamp_s(x as int, min as int, max as int),
{
    if x < min {
        min
    } else if x > max {
        max
    } else {
        x
    }
}

/// The value of `clamp`.
pub open spec fn clamp_s(x: int, min: int, max: int) -> int {
    if x < min {
        min
    } else if x > max {
        max
    } else {
        x
    }
}

/// The fixed-point value of one degree in radians, `pi / 180` scaled by
/// `FRAC`.
pub const RAD_PER_DEG: i64 = 1144;

/// Converts a fixed-point angle in degrees to radians.
pub fn degrees_to_radians(degrees: i64) -> (r: i64)
    requires
        -FX_LIM <= degrees <= FX_LIM,
    ensures
        r == fmul_s(degrees as int, RAD_PER_DEG as int),
{
    fmul(degrees, RAD_PER_DEG)
}

} // verus!
