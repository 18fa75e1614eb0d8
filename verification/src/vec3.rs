use vstd::prelude::*;
use crate::fx::{
    FRAC, FX_LIM, fmul, fdiv, fsqrt, fmul_s, fdiv_s, fsqrt_s, lemma_fmul_s_bound,
    lemma_fdiv_s_bound, lemma_mul_bound, lemma_div_range, floor_div,
};
use crate::rng::{RandSource, random_range};
use vstd::arithmetic::div_mod::lemma_div_is_ordered;

verus! {

/// A 3-component vector of fixed-point scalars, used throughout as a
/// point, a direction, and a color.
#[derive(Clone, Copy, Debug, PartialEq, Eq, Structural)]
pub struct Vec3 {
    pub x: i64,
    pub y: i64,
    pub z: i64,
}

pub type Point3 = Vec3;

pub type Color = Vec3;

/// Magnitude cap on the components of vectors handed to `reflect` and
/// `refract`: four whole units, comfortably above any unit direction or
/// surface normal.
pub const UNIT_LIM: i64 = 262144;

/// The mathematical content of a vector: its components as integers.
pub open spec fn v3(v: Vec3) -> (int, int, int) {
    (v.x as int, v.y as int, v.z as int)
}

/// All components within the general fixed-point operating range.
pub open spec fn vec_ok(v: Vec3) -> bool {
    &&& -FX_LIM <= v.x <= FX_LIM
    &&& -FX_LIM <= v.y <= FX_LIM
    &&& -FX_LIM <= v.z <= FX_LIM
}

/// All components of an integer triple bounded by `m` in magnitude.
pub open spec fn sbounded(v: (int, int, int), m: int) -> bool {
    &&& -m <= v.0 <= m
    &&& -m <= v.1 <= m
    &&& -m <= v.2 <= m
}

pub open spec fn sadd(u: (int, int, int), v: (int, int, int)) -> (int, int, int) {
    (u.0 + v.0, u.1 + v.1, u.2 + v.2)
}

pub open spec fn ssub(u: (int, int, int), v: (int, int, int)) -> (int, int, int) {
    (u.0 - v.0, u.1 - v.1, u.2 - v.2)
}

pub open spec fn sneg(v: (int, int, int)) -> (int, int, int) {
    (-v.0, -v.1, -v.2)
}

/// Scaling by a fixed-point scalar, component by component.
pub open spec fn sscale(v: (int, int, int), k: int) -> (int, int, int) {
    (fmul_s(v.0, k), fmul_s(v.1, k), fmul_s(v.2, k))
}

/// The component-wise (Hadamard) product, used for color attenuation.
pub open spec fn stimes(u: (int, int, int), v: (int, int, int)) -> (int, int, int) {
    (fmul_s(u.0, v.0), fmul_s(u.1, v.1), fmul_s(u.2, v.2))
}

/// Division by a positive fixed-point scalar, component by component.
pub open spec fn sdiv(v: (int, int, int), k: int) -> (int, int, int) {
    (fdiv_s(v.0, k), fdiv_s(v.1, k), fdiv_s(v.2, k))
}

/// The fixed-point dot product.
pub open spec fn sdot(u: (int, int, int), v: (int, int, int)) -> int {
    (u.0 * v.0 + u.1 * v.1 + u.2 * v.2) / (FRAC as int)
}

/// The fixed-point cross product.
pub open spec fn scross(u: (int, int, int), v: (int, int, int)) -> (int, int, int) {
    (
        fmul_s(u.1, v.2) - fmul_s(u.2, v.1),
        fmul_s(u.2, v.0) - fmul_s(u.0, v.2),
        fmul_s(u.0, v.1) - fmul_s(u.1, v.0),
    )
}

/// The fixed-point Euclidean length: the square root of the squared
/// length, carried at the same scale.
pub open spec fn slen(v: (int, int, int)) -> int {
    fsqrt_s(sdot(v, v))
}

/// Normalization: each component divided by the length.
pub open spec fn sunit(v: (int, int, int)) -> (int, int, int) {
    sdiv(v, slen(v))
}

/// The dot product of vectors with bounded components is bounded.
pub proof fn lemma_sdot_bound(u: (int, int, int), v: (int, int, int), mu: int, mv: int)
    requires
        sbounded(u, mu),
        sbounded(v, mv),
        0 <= mu,
        0 <= mv,
    ensures
        -((3 * mu * mv) / (FRAC as int) + 1) <= sdot(u, v) <= (3 * mu * mv) / (FRAC as int),
{
    let f = FRAC as int;
    lemma_mul_bound(u.0, v.0, mu, mv);
    lemma_mul_bound(u.1, v.1, mu, mv);
    lemma_mul_bound(u.2, v.2, mu, mv);
    let s = u.0 * v.0 + u.1 * v.1 + u.2 * v.2;
    lemma_div_is_ordered(s, 3 * (mu * mv), f);
    lemma_div_is_ordered(-(3 * (mu * mv)), s, f);
    vstd::arithmetic::div_mod::lemma_fundamental_div_mod(3 * (mu * mv), f);
    vstd::arithmetic::div_mod::lemma_fundamental_div_mod(-(3 * (mu * mv)), f);
    let q = (3 * (mu * mv)) / f;
    let r = (3 * (mu * mv)) % f;
    let qn = (-(3 * (mu * mv))) / f;
    let rn = (-(3 * (mu * mv))) % f;
    assert(-q - 1 <= qn) by (nonlinear_arith)
        requires
            3 * (mu * mv) == f * q + r,
            -(3 * (mu * mv)) == f * qn + rn,
            0 <= r < f,
            0 <= rn < f,
            f == FRAC as int,
    ;
    assert(3 * (mu * mv) == 3 * mu * mv) by (nonlinear_arith);
}

impl Vec3 {
    pub fn new(x: i64, y: i64, z: i64) -> (r: Self)
        ensures
            r.x == x,
            r.y == y,
            r.z == z,
    {
        Vec3 { x, y, z }
    }

    /// Component-wise sum.
    pub fn plus(&self, o: &Vec3) -> (r: Vec3)
        requires
            i64::MIN <= self.x + o.x <= i64::MAX,
            i64::MIN <= self.y + o.y <= i64::MAX,
            i64::MIN <= self.z + o.z <= i64::MAX,
        ensures
            v3(r) == sadd(v3(*self), v3(*o)),
    {
        Vec3 { x: self.x + o.x, y: self.y + o.y, z: self.z + o.z }
    }

    /// Component-wise difference.
    pub fn minus(&self, o: &Vec3) -> (r: Vec3)
        requires
            i64::MIN <= self.x - o.x <= i64::MAX,
            i64::MIN <= self.y - o.y <= i64::MAX,
            i64::MIN <= self.z - o.z <= i64::MAX,
        ensures
            v3(r) == ssub(v3(*self), v3(*o)),
    {
        Vec3 { x: self.x - o.x, y: self.y - o.y, z: self.z - o.z }
    }

    /// Component-wise negation.
    pub fn negated(&self) -> (r: Vec3)
        requires
            i64::MIN < self.x,
            i64::MIN < self.y,
            i64::MIN < self.z,
        ensures
            v3(r) == sneg(v3(*self)),
    {
        Vec3 { x: -self.x, y: -self.y, z: -self.z }
    }

    /// Scaling by a fixed-point scalar.
    pub fn scaled(&self, k: i64) -> (r: Vec3)
        requires
            vec_ok(*self),
            -FX_LIM <= k <= FX_LIM,
        ensures
            v3(r) == sscale(v3(*self), k as int),
    {
        Vec3 { x: fmul(self.x, k), y: fmul(self.y, k), z: fmul(self.z, k) }
    }

    /// Component-wise product, used for color attenuation.
    pub fn times(&self, o: &Vec3) -> (r: Vec3)
        requires
            vec_ok(*self),
            vec_ok(*o),
        ensures
            v3(r) == stimes(v3(*self), v3(*o)),
    {
        Vec3 { x: fmul(self.x, o.x), y: fmul(self.y, o.y), z: fmul(self.z, o.z) }
    }

    /// Division by a positive fixed-point scalar.
    pub fn divided(&self, k: i64) -> (r: Vec3)
        requires
            vec_ok(*self),
            1 <= k,
        ensures
            v3(r) == sdiv(v3(*self), k as int),
    {
        Vec3 { x: fdiv(self.x, k), y: fdiv(self.y, k), z: fdiv(self.z, k) }
    }

    /// The squared length, a nonnegative fixed-point scalar.
    pub fn length_squared(&self) -> (r: i64)
        requires
            vec_ok(*self),
        ensures
            r == sdot(v3(*self), v3(*self)),
            0 <= r,
    {
        let r = dot(self, self);
        proof {
            let u = v3(*self);
            assert(0 <= u.0 * u.0 + u.1 * u.1 + u.2 * u.2) by (nonlinear_arith);
            lemma_div_range(u.0 * u.0 + u.1 * u.1 + u.2 * u.2, FRAC as int);
        }
        r
    }

    /// The Euclidean length, a nonnegative fixed-point scalar.
    pub fn length(&self) -> (r: i64)
        requires
            vec_ok(*self),
        ensures
            r == slen(v3(*self)),
            0 <= r,
    {
        let ls = self.length_squared();
        fsqrt(ls)
    }

    /// Whether every component is below the near-zero threshold; at this
    /// scale the threshold is smaller than one fixed-point step, so only
    /// the zero vector qualifies.
    pub fn near_zero(&self) -> (r: bool)
        ensures
            r == (self.x == 0 && self.y == 0 && self.z == 0),
    {
        self.x == 0 && self.y == 0 && self.z == 0
    }
}

impl Default for Vec3 {
    /// The zero vector.
    fn default() -> (r: Self)
        ensures
            r.x == 0 && r.y == 0 && r.z == 0,
    {
        Vec3 { x: 0, y: 0, z: 0 }
    }
}

/// The fixed-point dot product of two vectors.
pub fn dot(u: &Vec3, v: &Vec3) -> (r: i64)
    requires
        vec_ok(*u),
        vec_ok(*v),
    ensures
        r == sdot(v3(*u), v3(*v)),
{
    proof {
        lemma_mul_bound(u.x as int, v.x as int, FX_LIM as int, FX_LIM as int);
        lemma_mul_bound(u.y as int, v.y as int, FX_LIM as int, FX_LIM as int);
        lemma_mul_bound(u.z as int, v.z as int, FX_LIM as int, FX_LIM as int);
    }
    let px: i128 = (u.x as i128) * (v.x as i128);
    let py: i128 = (u.y as i128) * (v.y as i128);
    let pz: i128 = (u.z as i128) * (v.z as i128);
    let s: i128 = px + py + pz;
    proof {
        lemma_div_is_ordered(s as int, 3 * (FX_LIM as int * FX_LIM as int), FRAC as int);
        lemma_div_is_ordered(-(3 * (FX_LIM as int * FX_LIM as int)), s as int, FRAC as int);
    }
    let q: i128 = floor_div(s, FRAC as i128);
    q as i64
}

/// The fixed-point cross product of two vectors.
pub fn cross(u: &Vec3, v: &Vec3) -> (r: Vec3)
    requires
        vec_ok(*u),
        vec_ok(*v),
    ensures
        v3(r) == scross(v3(*u), v3(*v)),
{
    proof {
        let l = FX_LIM as int;
        lemma_fmul_s_bound(u.y as int, v.z as int, l, l);
        lemma_fmul_s_bound(u.z as int, v.y as int, l, l);
        lemma_fmul_s_bound(u.z as int, v.x as int, l, l);
        lemma_fmul_s_bound(u.x as int, v.z as int, l, l);
        lemma_fmul_s_bound(u.x as int, v.y as int, l, l);
        lemma_fmul_s_bound(u.y as int, v.x as int, l, l);
    }
    Vec3 {
        x: fmul(u.y, v.z) - fmul(u.z, v.y),
        y: fmul(u.z, v.x) - fmul(u.x, v.z),
        z: fmul(u.x, v.y) - fmul(u.y, v.x),
    }
}

/// The vector scaled to unit length: each component divided by the
/// length.  The caller guarantees a positive length.
pub fn unit_vector(v: &Vec3) -> (r: Vec3)
    requires
        vec_ok(*v),
        1 <= slen(v3(*v)),
    ensures
        v3(r) == sunit(v3(*v)),
{
    let len = v.length();
    v.divided(len)
}

/// One component of a normalized vector is bounded: the length dominates
/// each component up to rounding.
proof fn lemma_sunit_comp(vi: int, dd: int)
    requires
        -FX_LIM <= vi <= FX_LIM,
        16384 <= dd,
        (vi * vi) / (FRAC as int) <= dd,
    ensures
        -(2 * FRAC + 2) <= fdiv_s(vi, crate::fx::isqrt_s(dd * FRAC)) <= 2 * FRAC + 2,
{
    let f = FRAC as int;
    let l = crate::fx::isqrt_s(dd * f);
    assert(32768 * 32768 <= dd * f) by (nonlinear_arith)
        requires
            16384 <= dd,
            f == 65536,
    ;
    crate::fx::lemma_isqrt_s_ge(dd * f, 32768);
    let w = if vi < 0 { -vi } else { vi };
    if w <= 514 {
        lemma_fdiv_s_bound(vi, l, 514, 32768);
    } else {
        // dd * f exceeds vi * vi by less than f, so the length is within
        // 257 of |vi|.
        vstd::arithmetic::div_mod::lemma_fundamental_div_mod(vi * vi, f);
        assert((w - 257) * (w - 257) <= dd * f) by (nonlinear_arith)
            requires
                515 <= w,
                w == vi || w == -vi,
                vi * vi == f * ((vi * vi) / f) + (vi * vi) % f,
                0 <= (vi * vi) % f < f,
                (vi * vi) / f <= dd,
                f == 65536,
        ;
        crate::fx::lemma_isqrt_s_ge(dd * f, w - 257);
        lemma_fdiv_s_bound(vi, l, w, w - 257);
        assert(w * f <= 2 * f * (w - 257)) by (nonlinear_arith)
            requires
                515 <= w,
                f == 65536,
        ;
        lemma_div_is_ordered(w * f, 2 * f * (w - 257), w - 257);
        vstd::arithmetic::div_mod::lemma_div_multiples_vanish(2 * f, w - 257);
        assert(2 * f * (w - 257) == (w - 257) * (2 * f)) by (nonlinear_arith);
    }
}

/// A normalized vector has components of at most about one unit: two
/// units cover every rounding case.
pub proof fn lemma_sunit_bound(v: (int, int, int))
    requires
        sbounded(v, FX_LIM as int),
        16384 <= sdot(v, v),
    ensures
        sbounded(sunit(v), 2 * FRAC + 2),
{
    let f = FRAC as int;
    let s = v.0 * v.0 + v.1 * v.1 + v.2 * v.2;
    assert(v.0 * v.0 <= s && v.1 * v.1 <= s && v.2 * v.2 <= s) by (nonlinear_arith)
        requires
            s == v.0 * v.0 + v.1 * v.1 + v.2 * v.2,
    ;
    lemma_div_is_ordered(v.0 * v.0, s, f);
    lemma_div_is_ordered(v.1 * v.1, s, f);
    lemma_div_is_ordered(v.2 * v.2, s, f);
    lemma_sunit_comp(v.0, sdot(v, v));
    lemma_sunit_comp(v.1, sdot(v, v));
    lemma_sunit_comp(v.2, sdot(v, v));
}

/// A vector scaled by a fixed-point factor keeps bounded components.
pub proof fn lemma_sscale_bound(v: (int, int, int), k: int, mv: int, mk: int)
    requires
        sbounded(v, mv),
        -mk <= k <= mk,
        0 <= mv,
        0 <= mk,
    ensures
        sbounded(sscale(v, k), (mv * mk) / (FRAC as int) + 1),
{
    lemma_fmul_s_bound(v.0, k, mv, mk);
    lemma_fmul_s_bound(v.1, k, mv, mk);
    lemma_fmul_s_bound(v.2, k, mv, mk);
}

/// Mirror reflection of `v` about the surface normal `n`: the component
/// of `v` along `n` is removed twice.
pub open spec fn sreflect(v: (int, int, int), n: (int, int, int)) -> (int, int, int) {
    ssub(v, sscale(n, 2 * sdot(v, n)))
}

/// Reflects a vector about a surface normal.
pub fn reflect(v: &Vec3, n: &Vec3) -> (r: Vec3)
    requires
        sbounded(v3(*v), UNIT_LIM as int),
        sbounded(v3(*n), UNIT_LIM as int),
    ensures
        v3(r) == sreflect(v3(*v), v3(*n)),
{
    proof {
        lemma_sdot_bound(v3(*v), v3(*n), UNIT_LIM as int, UNIT_LIM as int);
    }
    let d: i64 = dot(v, n);
    let t2: i64 = 2 * d;
    proof {
        lemma_sscale_bound(v3(*n), t2 as int, UNIT_LIM as int, 6291460);
    }
    let sc = n.scaled(t2);
    v.minus(&sc)
}

/// Refraction of the unit direction `uv` at a surface with normal `n`
/// and ratio of refraction indices `ratio`, by splitting the refracted
/// ray into components perpendicular and parallel to the normal.
pub open spec fn srefract(uv: (int, int, int), n: (int, int, int), ratio: int) -> (int, int, int) {
    let c0 = sdot(sneg(uv), n);
    let cos = if c0 > FRAC { FRAC as int } else { c0 };
    let perp = sscale(sadd(uv, sscale(n, cos)), ratio);
    let w = FRAC - sdot(perp, perp);
    let aw = if w < 0 { -w } else { w };
    sadd(perp, sscale(n, -fsqrt_s(aw)))
}

/// Refracts a unit direction through a surface.
pub fn refract(uv: &Vec3, n: &Vec3, etai_over_etat: i64) -> (r: Vec3)
    requires
        sbounded(v3(*uv), UNIT_LIM as int),
        sbounded(v3(*n), UNIT_LIM as int),
        0 <= etai_over_etat <= 4 * FRAC,
    ensures
        v3(r) == srefract(v3(*uv), v3(*n), etai_over_etat as int),
{
    let nuv = uv.negated();
    proof {
        lemma_sdot_bound(v3(nuv), v3(*n), UNIT_LIM as int, UNIT_LIM as int);
    }
    let c0: i64 = dot(&nuv, n);
    let cos: i64 = if c0 > FRAC {
        FRAC
    } else {
        c0
    };
    proof {
        lemma_sscale_bound(v3(*n), cos as int, UNIT_LIM as int, 3145729);
    }
    let scn = n.scaled(cos);
    let inner = uv.plus(&scn);
    proof {
        lemma_sscale_bound(v3(inner), etai_over_etat as int, 12845061, 4 * FRAC as int);
    }
    let perp = inner.scaled(etai_over_etat);
    proof {
        lemma_sdot_bound(v3(perp), v3(perp), 51380245, 51380245);
    }
    let pls: i64 = perp.length_squared();
    let w: i64 = FRAC - pls;
    let aw: i64 = if w < 0 {
        -w
    } else {
        w
    };
    let sq: i64 = fsqrt(aw);
    proof {
        crate::fx::lemma_isqrt_s(aw as int * FRAC as int);
        assert(sq <= 89_000_000) by (nonlinear_arith)
            requires
                0 <= sq,
                sq * sq <= aw as int * FRAC as int,
                0 <= aw <= 120_851_444_000,
                FRAC == 65536i64,
        ;
        lemma_sscale_bound(v3(*n), -(sq as int), UNIT_LIM as int, 89_000_000);
    }
    let par = n.scaled(-sq);
    perp.plus(&par)
}

impl Vec3 {
    /// A vector with each component drawn uniformly from `[0, 1)`.
    pub fn random_01(rng: &mut RandSource) -> (r: Vec3)
        ensures
            0 <= r.x < FRAC,
            0 <= r.y < FRAC,
            0 <= r.z < FRAC,
    {
        let x = crate::rng::random_01(rng);
        let y = crate::rng::random_01(rng);
        let z = crate::rng::random_01(rng);
        Vec3 { x, y, z }
    }

    /// A vector with each component drawn uniformly from `[min, max]`.
    pub fn random(rng: &mut RandSource, min: i64, max: i64) -> (r: Vec3)
        requires
            -FX_LIM <= min <= max <= FX_LIM,
            max - min <= FX_LIM,
        ensures
            min <= r.x <= max,
            min <= r.y <= max,
            min <= r.z <= max,
    {
        let x = random_range(rng, min, max);
        let y = random_range(rng, min, max);
        let z = random_range(rng, min, max);
        Vec3 { x, y, z }
    }
}

/// A point drawn uniformly from the unit ball, by rejection sampling
/// over the enclosing cube.
pub fn random_in_unit_sphere(rng: &mut RandSource) -> (r: Vec3)
    ensures
        sbounded(v3(r), FRAC as int),
        sdot(v3(r), v3(r)) < FRAC,
{
    let mut tries: usize = 0;
    while tries < 100000
        invariant
            true,
        decreases 100000 - tries,
    {
        let p = Vec3::random(rng, -FRAC, FRAC);
        let ls = p.length_squared();
        if ls < FRAC {
            return p;
        }
        tries = tries + 1;
    }
    Vec3 { x: 0, y: 0, z: 0 }
}

/// A point drawn uniformly from the unit disk in the `z == 0` plane, by
/// rejection sampling over the enclosing square.
pub fn random_in_unit_disk(rng: &mut RandSource) -> (r: Vec3)
    ensures
        sbounded(v3(r), FRAC as int),
        r.z == 0,
        sdot(v3(r), v3(r)) < FRAC,
{
    let mut tries: usize = 0;
    while tries < 100000
        invariant
            true,
        decreases 100000 - tries,
    {
        let p = Vec3 {
            x: random_range(rng, -FRAC, FRAC),
            y: random_range(rng, -FRAC, FRAC),
            z: 0,
        };
        let ls = p.length_squared();
        if ls < FRAC {
            return p;
        }
        tries = tries + 1;
    }
    Vec3 { x: 0, y: 0, z: 0 }
}

/// A direction drawn uniformly from the unit sphere's surface: a draw
/// from a spherical shell, normalized.  Draws whose length falls below
/// one half are redrawn, which leaves the direction distribution
/// unchanged and keeps the normalization well conditioned.
pub fn random_unit_vector(rng: &mut RandSource) -> (r: Vec3)
    ensures
        sbounded(v3(r), 2 * FRAC as int + 1),
        FRAC - 8 <= sdot(v3(r), v3(r)) <= FRAC + 15,
        (exists|p: (int, int, int)|
            {
                &&& #[trigger] sunit(p) == v3(r)
                &&& sbounded(p, FRAC as int)
                &&& 16384 <= sdot(p, p) < FRAC
            }) || (r.x == FRAC && r.y == 0 && r.z == 0),
{
    let mut tries: usize = 0;
    while tries < 100000
        invariant
            true,
        decreases 100000 - tries,
    {
        let p = Vec3::random(rng, -FRAC, FRAC);
        let ls = p.length_squared();
        if 16384 <= ls && ls < FRAC {
            proof {
                crate::fx::lemma_isqrt_s_ge(ls as int * FRAC as int, 32768);
                assert(32768 * 32768 <= ls as int * FRAC as int) by (nonlinear_arith)
                    requires
                        16384 <= ls,
                        FRAC == 65536i64,
                ;
                lemma_fdiv_s_bound(p.x as int, slen(v3(p)), FRAC as int, 32768);
                lemma_fdiv_s_bound(p.y as int, slen(v3(p)), FRAC as int, 32768);
                lemma_fdiv_s_bound(p.z as int, slen(v3(p)), FRAC as int, 32768);
                crate::laws::lemma_normalize_length(v3(p));
            }
            return unit_vector(&p);
        }
        tries = tries + 1;
    }
    proof {
        assert((65536int * 65536) / 65536 == 65536);
    }
    Vec3 { x: FRAC, y: 0, z: 0 }
}

/// A draw from the unit ball, flipped into the hemisphere around the
/// given normal.
pub fn random_in_hemisphere(rng: &mut RandSource, normal: &Vec3) -> (r: Vec3)
    requires
        vec_ok(*normal),
    ensures
        sbounded(v3(r), FRAC as int),
        sdot(v3(r), v3(r)) < FRAC,
        -1 <= sdot(v3(r), v3(*normal)),
        exists|p: (int, int, int)|
            {
                &&& #[trigger] sdot(p, p) < FRAC
                &&& sbounded(p, FRAC as int)
                &&& (v3(r) == p || v3(r) == sneg(p))
            },
{
    let in_unit_sphere = random_in_unit_sphere(rng);
    if dot(&in_unit_sphere, normal) > 0 {
        in_unit_sphere
    } else {
        proof {
            // Negating flips the inner product up to one unit of floor
            // rounding: the flipped dot product is at least minus one.
            let u = v3(in_unit_sphere);
            let n = v3(*normal);
            let f = FRAC as int;
            let sp = u.0 * n.0 + u.1 * n.1 + u.2 * n.2;
            vstd::arithmetic::div_mod::lemma_fundamental_div_mod(sp, f);
            assert(sp <= f - 1) by (nonlinear_arith)
                requires
                    sp == f * (sp / f) + sp % f,
                    0 <= sp % f < f,
                    sp / f <= 0,
            ;
            assert((-u.0) * n.0 == -(u.0 * n.0)) by (nonlinear_arith);
            assert((-u.1) * n.1 == -(u.1 * n.1)) by (nonlinear_arith);
            assert((-u.2) * n.2 == -(u.2 * n.2)) by (nonlinear_arith);
            vstd::arithmetic::div_mod::lemma_fundamental_div_mod_converse_div(1 - f, f, -1, 1);
            lemma_div_is_ordered(1 - f, -sp, f);
        }
        proof {
            let u = v3(in_unit_sphere);
            assert(sdot(sneg(u), sneg(u)) == sdot(u, u)) by {
                assert((-u.0) * (-u.0) == u.0 * u.0) by (nonlinear_arith);
                assert((-u.1) * (-u.1) == u.1 * u.1) by (nonlinear_arith);
                assert((-u.2) * (-u.2) == u.2 * u.2) by (nonlinear_arith);
            };
        }
        in_unit_sphere.negated()
    }
}

} // verus!
