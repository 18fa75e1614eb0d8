use vstd::prelude::*;
use crate::fx::{FRAC, lemma_isqrt_s, lemma_isqrt_s_ge};
use crate::vec3::{sbounded, sdot, slen, sunit, sreflect};
use vstd::arithmetic::div_mod::{
    lemma_fundamental_div_mod, lemma_div_is_ordered, lemma_div_multiples_vanish,
};
use vstd::arithmetic::mul::{
    lemma_mul_is_distributive_add, lemma_mul_is_distributive_sub,
    lemma_mul_is_distributive_add_other_way, lemma_mul_is_distributive_sub_other_way,
    lemma_mul_is_commutative,
};

verus! {

/// The squared norm of an integer triple, in exact (unscaled) integer
/// arithmetic.
pub open spec fn sqn(v: (int, int, int)) -> int {
    v.0 * v.0 + v.1 * v.1 + v.2 * v.2
}

/// The inner product of two integer triples, in exact integer
/// arithmetic.
pub open spec fn inner(u: (int, int, int), v: (int, int, int)) -> int {
    u.0 * v.0 + u.1 * v.1 + u.2 * v.2
}

/// The square of a sum, by distributivity.
proof fn lemma_binomial_add(a: int, b: int)
    ensures
        (a + b) * (a + b) == a * a + 2 * (a * b) + b * b,
{
    lemma_mul_is_distributive_add_other_way(a + b, a, b);
    lemma_mul_is_distributive_add(a, a, b);
    lemma_mul_is_distributive_add(b, a, b);
    lemma_mul_is_commutative(b, a);
}

/// The square of a difference, by distributivity.
proof fn lemma_binomial_sub(a: int, b: int)
    ensures
        (a - b) * (a - b) == a * a - 2 * (a * b) + b * b,
{
    lemma_mul_is_distributive_sub_other_way(a - b, a, b);
    lemma_mul_is_distributive_sub(a, a, b);
    lemma_mul_is_distributive_sub(b, a, b);
    lemma_mul_is_commutative(b, a);
}

/// One component of the scaled reflection, squared and rearranged.
proof fn lemma_reflect_component(vi: int, ni: int, nn: int, vn: int)
    ensures
        (vi * nn - 2 * vn * ni) * (vi * nn - 2 * vn * ni) == (nn * nn) * (vi * vi) - 4 * ((nn * vn)
            * (vi * ni)) + 4 * ((vn * vn) * (ni * ni)),
{
    lemma_binomial_sub(vi * nn, 2 * vn * ni);
    assert((vi * nn) * (vi * nn) == (nn * nn) * (vi * vi)) by (nonlinear_arith);
    assert((vi * nn) * (2 * vn * ni) == 2 * ((nn * vn) * (vi * ni))) by (nonlinear_arith);
    assert((2 * vn * ni) * (2 * vn * ni) == 4 * ((vn * vn) * (ni * ni))) by (nonlinear_arith);
}

/// Reflection preserves length.  Stated exactly: scaling every term of
/// `v - 2 (v.n) n` by `n.n` keeps it in the integers, and the squared
/// norm of that scaled reflection equals the squared norm of `v` scaled
/// by `(n.n)^2` - for a unit normal this is precisely
/// `|reflect(v, n)| == |v|`.  The executable `reflect` adds only
/// fixed-point rounding to this identity.
pub proof fn lemma_reflect_preserves_length(v: (int, int, int), n: (int, int, int))
    ensures
        sqn(
            (
                v.0 * sqn(n) - 2 * inner(v, n) * n.0,
                v.1 * sqn(n) - 2 * inner(v, n) * n.1,
                v.2 * sqn(n) - 2 * inner(v, n) * n.2,
            ),
        ) == sqn(n) * sqn(n) * sqn(v),
{
    let nn = sqn(n);
    let vn = inner(v, n);
    lemma_reflect_component(v.0, n.0, nn, vn);
    lemma_reflect_component(v.1, n.1, nn, vn);
    lemma_reflect_component(v.2, n.2, nn, vn);
    assert((nn * nn) * sqn(v) == (nn * nn) * (v.0 * v.0) + (nn * nn) * (v.1 * v.1) + (nn * nn) * (
    v.2 * v.2)) by {
        lemma_mul_is_distributive_add(nn * nn, v.0 * v.0 + v.1 * v.1, v.2 * v.2);
        lemma_mul_is_distributive_add(nn * nn, v.0 * v.0, v.1 * v.1);
    };
    assert((nn * vn) * vn == (nn * vn) * (v.0 * n.0) + (nn * vn) * (v.1 * n.1) + (nn * vn) * (v.2
        * n.2)) by {
        lemma_mul_is_distributive_add(nn * vn, v.0 * n.0 + v.1 * n.1, v.2 * n.2);
        lemma_mul_is_distributive_add(nn * vn, v.0 * n.0, v.1 * n.1);
    };
    assert((vn * vn) * nn == (vn * vn) * (n.0 * n.0) + (vn * vn) * (n.1 * n.1) + (vn * vn) * (n.2
        * n.2)) by {
        lemma_mul_is_distributive_add(vn * vn, n.0 * n.0 + n.1 * n.1, n.2 * n.2);
        lemma_mul_is_distributive_add(vn * vn, n.0 * n.0, n.1 * n.1);
    };
    assert((nn * vn) * vn == (vn * vn) * nn) by (nonlinear_arith);
    assert(nn * nn * sqn(v) == (nn * nn) * sqn(v)) by (nonlinear_arith);
}

/// The same law for the fixed-point `sreflect` itself, at an exactly
/// representable unit normal: reflecting about the axis normal flips one
/// component and leaves the squared norm unchanged, with no rounding at
/// all.
pub proof fn lemma_sreflect_axis_preserves_length(v: (int, int, int))
    requires
        sbounded(v, 0x1_0000_0000_0000),
    ensures
        sreflect(v, (FRAC as int, 0, 0)) == (-v.0, v.1, v.2),
        sqn(sreflect(v, (FRAC as int, 0, 0))) == sqn(v),
{
    let f = FRAC as int;
    let n = (f, 0, 0);
    assert(v.0 * f + v.1 * 0 + v.2 * 0 == f * v.0) by (nonlinear_arith);
    lemma_div_multiples_vanish(v.0, f);
    assert(sdot(v, n) == v.0);
    assert(f * (2 * v.0) == (2 * v.0) * f) by (nonlinear_arith);
    lemma_div_multiples_vanish(2 * v.0, f);
    assert(0 * (2 * v.0) == 0) by (nonlinear_arith);
    crate::fx::lemma_div_range(0, f);
    assert(sreflect(v, n) == (v.0 - 2 * v.0, v.1 - 0, v.2 - 0));
    assert((-v.0) * (-v.0) == v.0 * v.0) by (nonlinear_arith);
}

/// One component of the scaled hit point, squared and rearranged.
proof fn lemma_point_component(oci: int, di: int, p: int, q: int)
    ensures
        (q * oci + p * di) * (q * oci + p * di) == (q * q) * (oci * oci) + 2 * ((p * q) * (oci
            * di)) + (p * p) * (di * di),
{
    lemma_binomial_add(q * oci, p * di);
    assert((q * oci) * (q * oci) == (q * q) * (oci * oci)) by (nonlinear_arith);
    assert((q * oci) * (p * di) == (p * q) * (oci * di)) by (nonlinear_arith);
    assert((p * di) * (p * di) == (p * p) * (di * di)) by (nonlinear_arith);
}

/// A hit point lies exactly on the sphere.  Stated exactly: if the
/// rational parameter `p / q` solves the ray-sphere quadratic
/// `|d|^2 t^2 + 2 (oc.d) t + (|oc|^2 - rad^2) == 0`, then the vector
/// `q oc + p d` from the center to the scaled hit point has squared norm
/// exactly `(q rad)^2`.  The executable `Sphere::hit` computes the same
/// root with fixed-point rounding of the square root and the division.
pub proof fn lemma_root_on_sphere(
    oc: (int, int, int),
    d: (int, int, int),
    rad: int,
    p: int,
    q: int,
)
    requires
        sqn(d) * (p * p) + 2 * (inner(oc, d) * (p * q)) + (sqn(oc) - rad * rad) * (q * q) == 0,
    ensures
        sqn((q * oc.0 + p * d.0, q * oc.1 + p * d.1, q * oc.2 + p * d.2)) == (q * rad) * (q * rad),
{
    lemma_point_component(oc.0, d.0, p, q);
    lemma_point_component(oc.1, d.1, p, q);
    lemma_point_component(oc.2, d.2, p, q);
    assert((q * q) * sqn(oc) == (q * q) * (oc.0 * oc.0) + (q * q) * (oc.1 * oc.1) + (q * q) * (
    oc.2 * oc.2)) by {
        lemma_mul_is_distributive_add(q * q, oc.0 * oc.0 + oc.1 * oc.1, oc.2 * oc.2);
        lemma_mul_is_distributive_add(q * q, oc.0 * oc.0, oc.1 * oc.1);
    };
    assert((p * q) * inner(oc, d) == (p * q) * (oc.0 * d.0) + (p * q) * (oc.1 * d.1) + (p * q) * (
    oc.2 * d.2)) by {
        lemma_mul_is_distributive_add(p * q, oc.0 * d.0 + oc.1 * d.1, oc.2 * d.2);
        lemma_mul_is_distributive_add(p * q, oc.0 * d.0, oc.1 * d.1);
    };
    assert((p * p) * sqn(d) == (p * p) * (d.0 * d.0) + (p * p) * (d.1 * d.1) + (p * p) * (d.2
        * d.2)) by {
        lemma_mul_is_distributive_add(p * p, d.0 * d.0 + d.1 * d.1, d.2 * d.2);
        lemma_mul_is_distributive_add(p * p, d.0 * d.0, d.1 * d.1);
    };
    assert((p * p) * sqn(d) == sqn(d) * (p * p)) by (nonlinear_arith);
    assert((p * q) * inner(oc, d) == inner(oc, d) * (p * q)) by (nonlinear_arith);
    assert((q * q) * (sqn(oc) - rad * rad) == (sqn(oc) - rad * rad) * (q * q)) by (nonlinear_arith);
    assert((q * q) * sqn(oc) == (q * q) * (sqn(oc) - rad * rad) + (q * q) * (rad * rad)) by {
        lemma_mul_is_distributive_sub(q * q, sqn(oc), rad * rad);
    };
    assert((q * rad) * (q * rad) == (q * q) * (rad * rad)) by (nonlinear_arith);
}

/// One component of the normalized vector, squared and bounded: writing
/// the flooring division as an exact equation with remainder, the
/// squared scaled component differs from the exact squared component by
/// at most the mixed term and the squared remainder.
proof fn lemma_unit_component(vi: int, ui: int, si: int, l: int, f: int)
    requires
        vi * f == l * ui + si,
        0 <= si < l,
        -(l + 257) <= vi <= l + 257,
        32768 <= l,
        f == 65536,
    ensures
        (vi * vi) * (f * f) - 2 * ((l + 257) * (f * l)) <= (ui * ui) * (l * l) <= (vi * vi) * (f
            * f) + 2 * ((l + 257) * (f * l)) + l * l,
{
    lemma_binomial_sub(vi * f, si);
    assert((l * ui) * (l * ui) == (ui * ui) * (l * l)) by (nonlinear_arith);
    assert((vi * f - si) * (vi * f - si) == (l * ui) * (l * ui)) by (nonlinear_arith)
        requires
            vi * f == l * ui + si,
    ;
    assert((vi * f) * (vi * f) == (vi * vi) * (f * f)) by (nonlinear_arith);
    assert(-((l + 257) * (f * l)) <= (vi * f) * si <= (l + 257) * (f * l)) by (nonlinear_arith)
        requires
            -(l + 257) <= vi <= l + 257,
            0 <= si < l,
            32768 <= l,
            f == 65536,
    ;
    assert(0 <= si * si <= l * l) by (nonlinear_arith)
        requires
            0 <= si < l,
    ;
}

/// Normalization yields a vector of length one, up to fixed-point
/// rounding: for any vector of length at least one half (and components
/// within the world range), the squared length of `sunit(v)` is within
/// a relative error of a few parts in sixty-five thousand of one.
pub proof fn lemma_normalize_length(v: (int, int, int))
    requires
        sbounded(v, 0x4000_0000),
        16384 <= sdot(v, v),
    ensures
        FRAC - 8 <= sdot(sunit(v), sunit(v)) <= FRAC + 15,
{
    let f = FRAC as int;
    let sig = sqn(v);
    let dd = sdot(v, v);
    let l = slen(v);
    // Step 1: relate the plain squared norm, its fixed-point form, and
    // the fixed-point length.
    lemma_fundamental_div_mod(sig, f);
    assert(dd * f <= sig < (dd + 1) * f) by (nonlinear_arith)
        requires
            sig == f * dd + sig % f,
            0 <= sig % f < f,
    ;
    lemma_isqrt_s(dd * f);
    assert(l * l <= dd * f < (l + 1) * (l + 1));
    assert(32768 * 32768 <= dd * f) by (nonlinear_arith)
        requires
            16384 <= dd,
            f == 65536,
    ;
    lemma_isqrt_s_ge(dd * f, 32768);
    // Step 2: each component is within 257 of the length.
    assert(sig < (l + 1) * (l + 1) + f) by (nonlinear_arith)
        requires
            sig < (dd + 1) * f,
            dd * f < (l + 1) * (l + 1),
            0 < f,
    ;
    assert(v.0 * v.0 <= sig && v.1 * v.1 <= sig && v.2 * v.2 <= sig) by (nonlinear_arith)
        requires
            sig == v.0 * v.0 + v.1 * v.1 + v.2 * v.2,
    ;
    assert(-(l + 257) <= v.0 <= l + 257 && -(l + 257) <= v.1 <= l + 257 && -(l + 257) <= v.2 <= l
        + 257) by (nonlinear_arith)
        requires
            v.0 * v.0 <= sig,
            v.1 * v.1 <= sig,
            v.2 * v.2 <= sig,
            sig < (l + 1) * (l + 1) + f,
            32768 <= l,
            f == 65536,
    ;
    // Step 3: write each normalized component with its division
    // remainder.
    let u = sunit(v);
    lemma_fundamental_div_mod(v.0 * f, l);
    lemma_fundamental_div_mod(v.1 * f, l);
    lemma_fundamental_div_mod(v.2 * f, l);
    let s0 = (v.0 * f) % l;
    let s1 = (v.1 * f) % l;
    let s2 = (v.2 * f) % l;
    assert(u.0 == (v.0 * f) / l && u.1 == (v.1 * f) / l && u.2 == (v.2 * f) / l);
    // Step 4: bound the exact squared norm of the normalized vector,
    // one component at a time.
    lemma_unit_component(v.0, u.0, s0, l, f);
    lemma_unit_component(v.1, u.1, s1, l, f);
    lemma_unit_component(v.2, u.2, s2, l, f);
    assert(sqn(u) * (l * l) == (u.0 * u.0) * (l * l) + (u.1 * u.1) * (l * l) + (u.2 * u.2) * (l
        * l)) by {
        lemma_mul_is_distributive_add_other_way(l * l, u.0 * u.0 + u.1 * u.1, u.2 * u.2);
        lemma_mul_is_distributive_add_other_way(l * l, u.0 * u.0, u.1 * u.1);
    };
    assert(sig * (f * f) == (v.0 * v.0) * (f * f) + (v.1 * v.1) * (f * f) + (v.2 * v.2) * (f * f))
        by {
        lemma_mul_is_distributive_add_other_way(f * f, v.0 * v.0 + v.1 * v.1, v.2 * v.2);
        lemma_mul_is_distributive_add_other_way(f * f, v.0 * v.0, v.1 * v.1);
    };
    // Step 5: squeeze the squared norm between the target bounds.
    assert(sig * (f * f) - 6 * ((l + 257) * (f * l)) <= sqn(u) * (l * l));
    assert(sqn(u) * (l * l) <= sig * (f * f) + 6 * ((l + 257) * (f * l)) + 3 * (l * l));
    assert((f * f - 8 * f) * (l * l) <= sig * (f * f) - 6 * ((l + 257) * (f * l)))
        by (nonlinear_arith)
        requires
            l * l <= dd * f,
            dd * f <= sig,
            32768 <= l,
            f == 65536,
    ;
    assert(sig * (f * f) + 6 * ((l + 257) * (f * l)) + 3 * (l * l) <= (f * f + 15 * f) * (l * l))
        by (nonlinear_arith)
        requires
            sig < (l + 1) * (l + 1) + f,
            32768 <= l,
            f == 65536,
    ;
    assert(f * f - 8 * f <= sqn(u) <= f * f + 15 * f) by (nonlinear_arith)
        requires
            (f * f - 8 * f) * (l * l) <= sqn(u) * (l * l),
            sqn(u) * (l * l) <= (f * f + 15 * f) * (l * l),
            0 < l,
    ;
    // Step 6: back to the fixed-point dot product.
    lemma_div_is_ordered(f * f - 8 * f, sqn(u), f);
    lemma_div_is_ordered(sqn(u), f * f + 15 * f, f);
    assert(f * f - 8 * f == f * (f - 8) && f * f + 15 * f == f * (f + 15)) by (nonlinear_arith);
    lemma_div_multiples_vanish(f - 8, f);
    lemma_div_multiples_vanish(f + 15, f);
    assert(sdot(u, u) == sqn(u) / f);
}

} // verus!
