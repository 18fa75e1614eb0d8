use vstd::prelude::*;
use crate::fx::{FRAC, fmul, fdiv, fsqrt, fmul_s, fdiv_s, fsqrt_s};
use crate::vec3::{
    Vec3, Color, v3, vec_ok, sbounded, sdot, sadd, sneg, sscale, sunit, sreflect, srefract,
    reflect, refract, unit_vector, random_unit_vector, random_in_unit_sphere, lemma_sdot_bound,
    lemma_sscale_bound, lemma_sunit_bound, dot,
};
use crate::ray::{Ray, ray_ok, DIR_MIN};
use crate::rng::{RandSource, random_01};
use crate::hittable::{HitRecord, rec_ok};

verus! {

/// A color with every channel inside `[0, 1]`.
pub open spec fn color_ok(c: Color) -> bool {
    &&& 0 <= c.x <= FRAC
    &&& 0 <= c.y <= FRAC
    &&& 0 <= c.z <= FRAC
}

/// A material that absorbs every ray.
#[derive(Clone, Copy, Debug)]
pub struct NullMaterial;

/// A diffuse material: bounces into a random direction around the
/// surface normal and attenuates by its albedo.
#[derive(Clone, Copy, Debug)]
pub struct Lambertian {
    pub albedo: Color,
}

/// A reflective material: mirrors the incoming direction, perturbed by a
/// fuzz radius, and attenuates by its albedo.
#[derive(Clone, Copy, Debug)]
pub struct Metal {
    pub albedo: Color,
    pub fuzz: i64,
}

/// A transparent refractive material with the given index of refraction;
/// it never absorbs.
#[derive(Clone, Copy, Debug)]
pub struct Dielectric {
    pub ir: i64,
}

/// The closed set of material behaviors, dispatched by variant.
#[derive(Clone, Copy, Debug)]
pub enum Material {
    Null(NullMaterial),
    Lambertian(Lambertian),
    Metal(Metal),
    Dielectric(Dielectric),
}

/// Well-formed materials: albedo channels in `[0, 1]`, fuzz in `[0, 1]`,
/// and a refraction index between one quarter and four.
pub open spec fn material_ok(m: Material) -> bool {
    match m {
        Material::Null(_) => true,
        Material::Lambertian(l) => color_ok(l.albedo),
        Material::Metal(mt) => color_ok(mt.albedo) && 0 <= mt.fuzz <= FRAC,
        Material::Dielectric(d) => FRAC / 4 <= d.ir <= 4 * FRAC,
    }
}

impl Metal {
    /// Builds a metal, restricting the fuzz radius to at most one.
    pub fn new(albedo: Color, fuzz: i64) -> (r: Self)
        requires
            0 <= fuzz,
        ensures
            r.albedo == albedo,
            r.fuzz == if fuzz <= FRAC { fuzz as int } else { FRAC as int },
    {
        Metal { albedo, fuzz: if fuzz <= FRAC { fuzz } else { FRAC } }
    }
}

impl Dielectric {
    pub fn new(index_of_refraction: i64) -> (r: Self)
        ensures
            r.ir == index_of_refraction,
    {
        Dielectric { ir: index_of_refraction }
    }

    /// Schlick's polynomial approximation of the Fresnel reflection
    /// coefficient.
    pub open spec fn reflectance_s(cosine: int, ref_idx: int) -> int {
        let r0 = fdiv_s(FRAC - ref_idx, FRAC + ref_idx);
        let r0sq = fmul_s(r0, r0);
        let om = FRAC - cosine;
        let om2 = fmul_s(om, om);
        let om4 = fmul_s(om2, om2);
        let om5 = fmul_s(om4, om);
        r0sq + fmul_s(FRAC - r0sq, om5)
    }

    /// Schlick reflectance, computed in fixed point.
    pub fn reflectance(cosine: i64, ref_idx: i64) -> (r: i64)
        requires
            1 <= ref_idx <= 4 * FRAC,
            -16 * FRAC <= cosine <= FRAC,
        ensures
            r == Self::reflectance_s(cosine as int, ref_idx as int),
    {
        let r0 = fdiv(FRAC - ref_idx, FRAC + ref_idx);
        proof {
            crate::fx::lemma_fdiv_s_bound(
                FRAC - ref_idx as int,
                FRAC + ref_idx as int,
                262144,
                65536,
            );
            crate::fx::lemma_fmul_s_bound(r0 as int, r0 as int, 262145, 262145);
        }
        let r0sq = fmul(r0, r0);
        let om = FRAC - cosine;
        proof {
            crate::fx::lemma_fmul_s_bound(om as int, om as int, 1114112, 1114112);
            crate::fx::lemma_fmul_s_bound(
                fmul_s(om as int, om as int),
                fmul_s(om as int, om as int),
                18939905,
                18939905,
            );
            crate::fx::lemma_fmul_s_bound(
                fmul_s(fmul_s(om as int, om as int), fmul_s(om as int, om as int)),
                om as int,
                5473632835,
                1114112,
            );
            crate::fx::lemma_fmul_s_bound(
                FRAC - fmul_s(r0 as int, r0 as int),
                fmul_s(
                    fmul_s(fmul_s(om as int, om as int), fmul_s(om as int, om as int)),
                    om as int,
                ),
                1179648,
                93051758196,
            );
        }
        let om2 = fmul(om, om);
        let om4 = fmul(om2, om2);
        let om5 = fmul(om4, om);
        r0sq + fmul(FRAC - r0sq, om5)
    }
}

/// The ratio of refraction indices across the surface being crossed:
/// entering uses the reciprocal of the material's index.
pub open spec fn refraction_ratio_s(ir: int, front_face: bool) -> int {
    if front_face {
        fdiv_s(FRAC as int, ir)
    } else {
        ir
    }
}

/// The cosine of the angle between the reversed incident unit direction
/// and the surface normal, capped at one.
pub open spec fn incidence_cos_s(ud: (int, int, int), n: (int, int, int)) -> int {
    let c = sdot(sneg(ud), n);
    if c > FRAC {
        FRAC as int
    } else {
        c
    }
}

/// The sine recovered from the cosine, with the radicand floored at zero.
pub open spec fn incidence_sin_s(cos: int) -> int {
    let w = FRAC - fmul_s(cos, cos);
    fsqrt_s(if w < 0 { 0 } else { w })
}

/// Total internal reflection: Snell's law admits no refracted angle, so a
/// dielectric must reflect, whatever the reflectance draw says.
pub open spec fn tir_forced_s(d: Dielectric, r_in: Ray, rec: HitRecord) -> bool {
    let ud = sunit(v3(r_in.direction));
    let ratio = refraction_ratio_s(d.ir as int, rec.front_face);
    let cos = incidence_cos_s(ud, v3(rec.normal));
    fmul_s(ratio, incidence_sin_s(cos)) > FRAC
}

/// The direction a forced reflection produces: the mirrored unit
/// direction, or the surface normal when the mirror image degenerates.
pub open spec fn forced_reflect_dir_s(r_in: Ray, rec: HitRecord) -> (int, int, int) {
    let refl = sreflect(sunit(v3(r_in.direction)), v3(rec.normal));
    if sdot(refl, refl) >= DIR_MIN {
        refl
    } else {
        v3(rec.normal)
    }
}

/// A candidate scatter direction, or the surface normal when the
/// candidate is too short to normalize.
pub open spec fn guarded_dir_s(d: (int, int, int), rec: HitRecord) -> (int, int, int) {
    if sdot(d, d) >= DIR_MIN {
        d
    } else {
        v3(rec.normal)
    }
}

impl Material {
    /// How an incoming ray bounces off a surface with this material:
    /// either an attenuation color and a scattered ray, or absorption.
    /// Absorption happens exactly for the null material; every scattered
    /// ray starts at the hit point and is well formed.  Under total
    /// internal reflection a dielectric always reflects, independently of
    /// the random reflectance draw.
    pub fn scatter(&self, rng: &mut RandSource, r_in: &Ray, rec: &HitRecord) -> (result: Option<
        (Color, Ray),
    >)
        requires
            material_ok(*self),
            ray_ok(*r_in),
            rec_ok(*rec),
        ensures
            (result is None) == (*self is Null),
            result matches Some(pair) ==> {
                &&& ray_ok(pair.1)
                &&& pair.1.origin == rec.p
                &&& pair.1.time == 0
                &&& color_ok(pair.0)
                &&& ((*self) matches Material::Lambertian(l) ==> pair.0 == l.albedo)
                &&& ((*self) matches Material::Metal(m) ==> pair.0 == m.albedo)
                &&& ((*self) matches Material::Dielectric(d) ==> pair.0.x == FRAC && pair.0.y
                    == FRAC && pair.0.z == FRAC)
                &&& ((*self) matches Material::Dielectric(d) ==> (tir_forced_s(d, *r_in, *rec)
                    ==> v3(pair.1.direction) == forced_reflect_dir_s(*r_in, *rec)))
                &&& ((*self) matches Material::Lambertian(l) ==> exists|u: (int, int, int)|
                    #![trigger sadd(v3(rec.normal), u)]
                    {
                        &&& sbounded(u, 2 * FRAC + 1)
                        &&& FRAC - 8 <= sdot(u, u) <= FRAC + 15
                        &&& v3(pair.1.direction) == guarded_dir_s(sadd(v3(rec.normal), u), *rec)
                    })
                &&& ((*self) matches Material::Metal(m) ==> exists|p: (int, int, int)|
                    #![trigger sscale(p, m.fuzz as int)]
                    {
                        &&& sbounded(p, FRAC as int)
                        &&& sdot(p, p) < FRAC
                        &&& v3(pair.1.direction) == guarded_dir_s(
                            sadd(
                                sreflect(sunit(v3(r_in.direction)), v3(rec.normal)),
                                sscale(p, m.fuzz as int),
                            ),
                            *rec,
                        )
                    })
                &&& ((*self) matches Material::Dielectric(d) ==> {
                    let ud = sunit(v3(r_in.direction));
                    let n = v3(rec.normal);
                    ||| v3(pair.1.direction) == guarded_dir_s(sreflect(ud, n), *rec)
                    ||| v3(pair.1.direction) == guarded_dir_s(
                        srefract(ud, n, refraction_ratio_s(d.ir as int, rec.front_face)),
                        *rec,
                    )
                })
            },
    {
        match self {
            Material::Null(_) => None,
            Material::Lambertian(l) => {
                let ruv = random_unit_vector(rng);
                let sum = rec.normal.plus(&ruv);
                let ls = sum.length_squared();
                // The classical near-zero test at this scale: directions
                // shorter than one half fall back to the plain normal, so
                // that the scattered ray can always be normalized.
                let direction = if ls < DIR_MIN {
                    rec.normal
                } else {
                    sum
                };
                proof {
                    assert(v3(direction) == guarded_dir_s(sadd(v3(rec.normal), v3(ruv)), *rec));
                }
                Some((l.albedo, Ray::new(&rec.p, &direction)))
            },
            Material::Metal(m) => {
                proof {
                    lemma_unit_len_ok(v3(r_in.direction));
                    lemma_sunit_bound(v3(r_in.direction));
                }
                let ud = unit_vector(&r_in.direction);
                proof {
                    lemma_sdot_bound(v3(ud), v3(rec.normal), 131074, 131072);
                    lemma_sscale_bound(
                        v3(rec.normal),
                        2 * sdot(v3(ud), v3(rec.normal)),
                        131072,
                        1572890,
                    );
                }
                let reflected = reflect(&ud, &rec.normal);
                let pert = random_in_unit_sphere(rng);
                let fzv = pert.scaled(m.fuzz);
                proof {
                    lemma_sscale_bound(v3(pert), m.fuzz as int, 65536, 65536);
                }
                let sum = reflected.plus(&fzv);
                let ls = sum.length_squared();
                let direction = if ls < DIR_MIN {
                    rec.normal
                } else {
                    sum
                };
                proof {
                    assert(v3(direction) == guarded_dir_s(
                        sadd(
                            sreflect(sunit(v3(r_in.direction)), v3(rec.normal)),
                            sscale(v3(pert), m.fuzz as int),
                        ),
                        *rec,
                    ));
                }
                Some((m.albedo, Ray::new(&rec.p, &direction)))
            },
            Material::Dielectric(d) => {
                proof {
                    lemma_unit_len_ok(v3(r_in.direction));
                    lemma_sunit_bound(v3(r_in.direction));
                }
                let unit_direction = unit_vector(&r_in.direction);
                let ratio: i64 = if rec.front_face {
                    proof {
                        crate::fx::lemma_div_range(FRAC as int * FRAC as int, d.ir as int);
                        vstd::arithmetic::div_mod::lemma_div_is_ordered_by_denominator(
                            FRAC as int * FRAC as int,
                            16384,
                            d.ir as int,
                        );
                        vstd::arithmetic::div_mod::lemma_div_is_ordered_by_denominator(
                            FRAC as int * FRAC as int,
                            d.ir as int,
                            4 * FRAC as int,
                        );
                    }
                    fdiv(FRAC, d.ir)
                } else {
                    d.ir
                };
                let nud = unit_direction.negated();
                proof {
                    lemma_sdot_bound(v3(nud), v3(rec.normal), 131074, 131072);
                }
                let c0 = dot(&nud, &rec.normal);
                let cos_theta: i64 = if c0 > FRAC {
                    FRAC
                } else {
                    c0
                };
                proof {
                    crate::fx::lemma_fmul_s_bound(
                        cos_theta as int,
                        cos_theta as int,
                        786445,
                        786445,
                    );
                }
                let c2 = fmul(cos_theta, cos_theta);
                let w = FRAC - c2;
                let wc: i64 = if w < 0 {
                    0
                } else {
                    w
                };
                let sin_theta = fsqrt(wc);
                proof {
                    crate::fx::lemma_isqrt_s(wc as int * FRAC as int);
                    assert(sin_theta <= 789171) by (nonlinear_arith)
                        requires
                            0 <= sin_theta,
                            sin_theta * sin_theta <= wc as int * FRAC as int,
                            0 <= wc <= 9503033,
                            FRAC == 65536i64,
                    ;
                }
                let cannot_refract = fmul(ratio, sin_theta) > FRAC;
                let must_reflect: bool = if cannot_refract {
                    true
                } else {
                    let refl_chance = Dielectric::reflectance(cos_theta, ratio);
                    let draw = random_01(rng);
                    refl_chance > draw
                };
                let direction: Vec3 = if must_reflect {
                    proof {
                        lemma_sdot_bound(
                            v3(unit_direction),
                            v3(rec.normal),
                            131074,
                            131072,
                        );
                        lemma_sscale_bound(
                            v3(rec.normal),
                            2 * sdot(v3(unit_direction), v3(rec.normal)),
                            131072,
                            1572890,
                        );
                    }
                    reflect(&unit_direction, &rec.normal)
                } else {
                    refract(&unit_direction, &rec.normal, ratio)
                };
                proof {
                    if !must_reflect {
                        lemma_srefract_bound(
                            v3(unit_direction),
                            v3(rec.normal),
                            ratio as int,
                        );
                    }
                }
                let ls = direction.length_squared();
                let final_dir = if ls < DIR_MIN {
                    rec.normal
                } else {
                    direction
                };
                proof {
                    if must_reflect {
                        assert(v3(final_dir) == guarded_dir_s(
                            sreflect(sunit(v3(r_in.direction)), v3(rec.normal)),
                            *rec,
                        ));
                    } else {
                        assert(v3(final_dir) == guarded_dir_s(
                            srefract(
                                sunit(v3(r_in.direction)),
                                v3(rec.normal),
                                refraction_ratio_s(d.ir as int, rec.front_face),
                            ),
                            *rec,
                        ));
                    }
                }
                Some((Vec3 { x: FRAC, y: FRAC, z: FRAC }, Ray::new(&rec.p, &final_dir)))
            },
        }
    }
}

/// A well-formed ray direction is long enough for its length to be at
/// least one.
pub proof fn lemma_unit_len_ok(d: (int, int, int))
    requires
        16384 <= sdot(d, d),
    ensures
        32768 <= crate::vec3::slen(d),
{
    assert(32768 * 32768 <= sdot(d, d) * (FRAC as int)) by (nonlinear_arith)
        requires
            16384 <= sdot(d, d),
            FRAC == 65536i64,
    ;
    crate::fx::lemma_isqrt_s_ge(sdot(d, d) * (FRAC as int), 32768);
}

/// The refracted direction of a unit incident ray keeps components well
/// inside the direction cap.
pub proof fn lemma_srefract_bound(uv: (int, int, int), n: (int, int, int), ratio: int)
    requires
        sbounded(uv, 2 * FRAC + 2),
        sbounded(n, 2 * FRAC as int),
        0 <= ratio <= 4 * FRAC,
    ensures
        sbounded(srefract(uv, n, ratio), 600 * FRAC as int),
{
    let f = FRAC as int;
    let c0 = sdot(sneg(uv), n);
    let cos = if c0 > FRAC { FRAC as int } else { c0 };
    lemma_sdot_bound(sneg(uv), n, 131074, 131072);
    lemma_sscale_bound(n, cos, 131072, 786445);
    let scn = sscale(n, cos);
    let inner = sadd(uv, scn);
    lemma_sscale_bound(inner, ratio, 1703965, 262144);
    let perp = sscale(inner, ratio);
    lemma_sdot_bound(perp, perp, 6815861, 6815861);
    let w = f - sdot(perp, perp);
    let aw = if w < 0 { -w } else { w };
    crate::fx::lemma_isqrt_s(aw * f);
    let sq = crate::fx::fsqrt_s(aw);
    assert(sq <= 11805600) by (nonlinear_arith)
        requires
            0 <= sq,
            sq * sq <= aw * f,
            0 <= aw <= 2126650673,
            f == 65536,
    ;
    lemma_sscale_bound(n, -sq, 131072, 11805600);
}

} // verus!
