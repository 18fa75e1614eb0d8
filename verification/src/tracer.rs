use vstd::prelude::*;
use crate::fx::{
    FRAC, fmul, fmul_s, clamp, clamp_s, lemma_div_range, lemma_fmul_s_bound,
};
use crate::vec3::{Vec3, Color, v3, sunit, unit_vector, lemma_sunit_bound};
use crate::ray::{Ray, ray_ok, T_MAX};
use crate::hittable_list::{HittableList, world_ok, list_hit_upto_s};
use crate::material::{color_ok, lemma_unit_len_ok};
use crate::rng::RandSource;
use vstd::arithmetic::div_mod::{lemma_div_is_ordered, lemma_div_multiples_vanish};

verus! {

/// Lower intersection bound that suppresses self-intersection of
/// scattered rays, about `0.001` at this scale.
pub const T_EPS: i64 = 66;

/// The sky gradient: linear interpolation between white at the horizon
/// and sky blue straight up, driven by the vertical component of the
/// normalized ray direction.
pub open spec fn background_s(d: (int, int, int)) -> (int, int, int) {
    let ud = sunit(d);
    let t = clamp_s(fmul_s(ud.1, 32768) + 32768, 0, FRAC as int);
    (
        fmul_s(FRAC as int, FRAC - t) + fmul_s(32768, t),
        fmul_s(FRAC as int, FRAC - t) + fmul_s(45875, t),
        fmul_s(FRAC as int, FRAC - t) + fmul_s(65536, t),
    )
}

/// A blend of two unit-range channels with weights `1 - t` and `t` stays
/// inside the unit range.
proof fn lemma_blend_channel(t: int, b: int)
    requires
        0 <= t <= FRAC,
        0 <= b <= FRAC,
    ensures
        0 <= fmul_s(FRAC as int, FRAC - t) + fmul_s(b, t) <= FRAC,
{
    let f = FRAC as int;
    lemma_div_multiples_vanish(f - t, f);
    assert(f * (f - t) == (f - t) * f) by (nonlinear_arith);
    assert(0 <= b * t <= f * t) by (nonlinear_arith)
        requires
            0 <= t,
            0 <= b <= f,
    ;
    lemma_div_range(b * t, f);
    lemma_div_is_ordered(b * t, f * t, f);
    lemma_div_multiples_vanish(t, f);
}

/// A fixed-point product of two unit-range scalars stays in the unit
/// range.
pub proof fn lemma_fmul_unit(a: int, b: int)
    requires
        0 <= a <= FRAC,
        0 <= b <= FRAC,
    ensures
        0 <= fmul_s(a, b) <= FRAC,
{
    let f = FRAC as int;
    assert(0 <= a * b <= f * f) by (nonlinear_arith)
        requires
            0 <= a <= f,
            0 <= b <= f,
    ;
    lemma_div_range(a * b, f);
    lemma_div_is_ordered(a * b, f * f, f);
    lemma_div_multiples_vanish(f, f);
}

/// The radiance along a ray: black once the bounce budget is exhausted,
/// the sky gradient on a miss, black on absorption, and the scattered
/// radiance attenuated by the material's color otherwise.  The result is
/// always a unit-range color; on a miss it is exactly the gradient, and
/// on a hit whose winning material absorbs it is exactly black.
pub fn ray_color(rng: &mut RandSource, r: &Ray, world: &HittableList, depth: i64) -> (c: Color)
    requires
        ray_ok(*r),
        world_ok(*world),
    ensures
        color_ok(c),
        depth <= 0 ==> c.x == 0 && c.y == 0 && c.z == 0,
        depth > 0 && list_hit_upto_s(
            world.objects@,
            v3(r.origin),
            v3(r.direction),
            T_EPS as int,
            T_MAX as int,
            world.objects@.len() as int,
        ) is None ==> v3(c) == background_s(v3(r.direction)),
        ({
            let fold = list_hit_upto_s(
                world.objects@,
                v3(r.origin),
                v3(r.direction),
                T_EPS as int,
                T_MAX as int,
                world.objects@.len() as int,
            );
            depth > 0 && fold is Some && world.objects@[fold.unwrap().4].material is Null
        }) ==> c.x == 0 && c.y == 0 && c.z == 0,
    decreases depth,
{
    if depth <= 0 {
        return Vec3 { x: 0, y: 0, z: 0 };
    }
    let res = world.hit(r, T_EPS, T_MAX);
    match res {
        Some(rec) => {
            match rec.material.scatter(rng, r, &rec) {
                Some((attenuation, scattered)) => {
                    let bounced = ray_color(rng, &scattered, world, depth - 1);
                    proof {
                        lemma_fmul_unit(attenuation.x as int, bounced.x as int);
                        lemma_fmul_unit(attenuation.y as int, bounced.y as int);
                        lemma_fmul_unit(attenuation.z as int, bounced.z as int);
                    }
                    attenuation.times(&bounced)
                },
                None => Vec3 { x: 0, y: 0, z: 0 },
            }
        },
        None => {
            proof {
                lemma_unit_len_ok(v3(r.direction));
                lemma_sunit_bound(v3(r.direction));
            }
            let ud = unit_vector(&r.direction);
            proof {
                lemma_fmul_s_bound(ud.y as int, 32768, 131074, 32768);
            }
            let t = clamp(fmul(ud.y, 32768) + 32768, 0, FRAC);
            proof {
                lemma_blend_channel(t as int, 32768);
                lemma_blend_channel(t as int, 45875);
                lemma_blend_channel(t as int, 65536);
            }
            let wgt: i64 = FRAC - t;
            Vec3 {
                x: fmul(FRAC, wgt) + fmul(32768, t),
                y: fmul(FRAC, wgt) + fmul(45875, t),
                z: fmul(FRAC, wgt) + fmul(65536, t),
            }
        },
    }
}

} // verus!
