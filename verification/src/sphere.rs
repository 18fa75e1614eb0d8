use vstd::prelude::*;
use crate::fx::{FRAC, FX_LIM, fmul, fmul_s, isqrt_s, floor_div, lemma_mul_bound, lemma_isqrt_s};
use crate::vec3::{Vec3, Point3, v3, vec_ok, sbounded, sdot, ssub, sneg, sdiv, dot, lemma_sdot_bound};
use crate::ray::{Ray, ray_ok, sat, P_LIM, DIR_MIN, T_MAX};
use crate::material::{Material, material_ok};
use crate::hittable::{HitRecord, rec_ok};

verus! {

/// Magnitude cap on the components of a sphere center.
pub const CENTER_LIM: i64 = 0x4_0000_0000;

/// Least and greatest sphere radius the intersection code accepts: one
/// sixteenth of a unit up to the world scale.
pub const RAD_MIN: i64 = 4096;

pub const RAD_MAX: i64 = 0x4_0000_0000;

/// A sphere with a shared, immutable material.
#[derive(Clone, Copy, Debug)]
pub struct Sphere {
    pub center: Point3,
    pub radius: i64,
    pub material: Material,
}

/// A well-formed sphere: center inside the world box, radius within the
/// supported range, material well formed.
pub open spec fn sphere_ok(s: Sphere) -> bool {
    &&& sbounded(v3(s.center), CENTER_LIM as int)
    &&& RAD_MIN <= s.radius <= RAD_MAX
    &&& material_ok(s.material)
}

/// The accepted root of the ray–sphere quadratic
/// `a t^2 + 2 half_b t + c == 0`, if any: the smaller root is preferred,
/// the larger tried next, and a root counts only inside `(t_min, t_max]`.
/// The discriminant is carried at twice the fixed-point scale and its
/// square root brings the scale back.
pub open spec fn sphere_root_s(
    c: (int, int, int),
    rad: int,
    o: (int, int, int),
    d: (int, int, int),
    t_min: int,
    t_max: int,
) -> Option<int> {
    let oc = ssub(o, c);
    let a = sdot(d, d);
    let half_b = sdot(oc, d);
    let cc = sdot(oc, oc) - fmul_s(rad, rad);
    let disc = half_b * half_b - a * cc;
    if disc < 0 {
        None
    } else {
        let sd = isqrt_s(disc);
        let r1 = ((-half_b - sd) * FRAC) / a;
        let r2 = ((-half_b + sd) * FRAC) / a;
        if t_min < r1 <= t_max {
            Some(r1)
        } else if t_min < r2 <= t_max {
            Some(r2)
        } else {
            None
        }
    }
}

/// The full outcome of a ray–sphere intersection test: the accepted ray
/// parameter, the hit point, the oriented unit normal, and the facing
/// flag.  A hit whose point leaves the world box or whose computed
/// normal is numerically degenerate is discarded.
pub open spec fn sphere_hit_s(
    c: (int, int, int),
    rad: int,
    o: (int, int, int),
    d: (int, int, int),
    t_min: int,
    t_max: int,
) -> Option<(int, (int, int, int), (int, int, int), bool)> {
    match sphere_root_s(c, rad, o, d, t_min, t_max) {
        None => None,
        Some(t) => {
            let p = sat(o, d, t);
            if !sbounded(p, P_LIM as int) {
                None
            } else {
                let outward = sdiv(ssub(p, c), rad);
                if !sbounded(outward, 2 * FRAC as int) || sdot(outward, outward) < DIR_MIN {
                    None
                } else {
                    let front = sdot(d, outward) < 0;
                    Some((t, p, if front { outward } else { sneg(outward) }, front))
                }
            }
        },
    }
}

impl Sphere {
    pub fn new(center: Point3, radius: i64, material: Material) -> (r: Self)
        requires
            sbounded(v3(center), CENTER_LIM as int),
            RAD_MIN <= radius <= RAD_MAX,
            material_ok(material),
        ensures
            r.center == center,
            r.radius == radius,
            r.material == material,
            sphere_ok(r),
    {
        Sphere { center, radius, material }
    }

    /// The nearest intersection of a ray with this sphere inside
    /// `(t_min, t_max]`, if there is one.
    pub fn hit(&self, r: &Ray, t_min: i64, t_max: i64) -> (result: Option<HitRecord>)
        requires
            sphere_ok(*self),
            ray_ok(*r),
            0 <= t_min <= t_max <= T_MAX,
        ensures
            (result is None) == (sphere_hit_s(
                v3(self.center),
                self.radius as int,
                v3(r.origin),
                v3(r.direction),
                t_min as int,
                t_max as int,
            ) is None),
            result matches Some(rec) ==> {
                &&& sphere_hit_s(
                    v3(self.center),
                    self.radius as int,
                    v3(r.origin),
                    v3(r.direction),
                    t_min as int,
                    t_max as int,
                ) == Some((rec.t as int, v3(rec.p), v3(rec.normal), rec.front_face))
                &&& rec.material == self.material
                &&& t_min < rec.t <= t_max
                &&& rec_ok(rec)
            },
    {
        let oc = r.origin.minus(&self.center);
        let a = r.direction.length_squared();
        proof {
            lemma_sdot_bound(v3(r.direction), v3(r.direction), 0x2_0000_0000, 0x2_0000_0000);
            lemma_sdot_bound(v3(oc), v3(r.direction), 0xC_0000_0000, 0x2_0000_0000);
            lemma_sdot_bound(v3(oc), v3(oc), 0xC_0000_0000, 0xC_0000_0000);
            crate::fx::lemma_fmul_s_bound(
                self.radius as int,
                self.radius as int,
                0x4_0000_0000,
                0x4_0000_0000,
            );
        }
        let half_b = dot(&oc, &r.direction);
        let c2 = oc.length_squared();
        let rr = fmul(self.radius, self.radius);
        let cv: i64 = c2 - rr;
        proof {
            lemma_mul_bound(half_b as int, half_b as int, 20266198323167233, 20266198323167233);
            lemma_mul_bound(a as int, cv as int, 3377699720527873, 126100789566373890);
        }
        let hb128: i128 = half_b as i128;
        let disc: i128 = hb128 * hb128 - (a as i128) * (cv as i128);
        if disc < 0 {
            return None;
        }
        let sdu: u128 = crate::fx::isqrt(disc as u128);
        proof {
            assert(sdu <= 28924892327381819) by (nonlinear_arith)
                requires
                    0 <= sdu,
                    sdu * sdu <= disc,
                    0 <= disc
                        <= 836649396150631578376409769312259,
            ;
        }
        let sd: i128 = sdu as i128;
        let num1: i128 = (-hb128 - sd) * (FRAC as i128);
        let num2: i128 = (-hb128 + sd) * (FRAC as i128);
        let root1: i128 = floor_div(num1, a as i128);
        let root2: i128 = floor_div(num2, a as i128);
        let tl: i128 = t_min as i128;
        let th: i128 = t_max as i128;
        let root128: i128 = if tl < root1 && root1 <= th {
            root1
        } else if tl < root2 && root2 <= th {
            root2
        } else {
            return None;
        };
        let root: i64 = root128 as i64;
        let p = r.at(root);
        if p.x > P_LIM || p.x < -P_LIM || p.y > P_LIM || p.y < -P_LIM || p.z > P_LIM || p.z
            < -P_LIM {
            return None;
        }
        let pc = p.minus(&self.center);
        let outward = pc.divided(self.radius);
        if outward.x > 2 * FRAC || outward.x < -2 * FRAC || outward.y > 2 * FRAC || outward.y < -2
            * FRAC || outward.z > 2 * FRAC || outward.z < -2 * FRAC {
            return None;
        }
        let ols = outward.length_squared();
        if ols < DIR_MIN {
            return None;
        }
        let mut rec = HitRecord {
            t: root,
            p,
            normal: Vec3 { x: 0, y: 0, z: 0 },
            front_face: false,
            material: self.material,
        };
        rec.set_face_normal(r, &outward);
        proof {
            let u = v3(outward);
            assert(sdot(sneg(u), sneg(u)) == sdot(u, u)) by {
                assert((-u.0) * (-u.0) == u.0 * u.0) by (nonlinear_arith);
                assert((-u.1) * (-u.1) == u.1 * u.1) by (nonlinear_arith);
                assert((-u.2) * (-u.2) == u.2 * u.2) by (nonlinear_arith);
            };
        }
        Some(rec)
    }
}

} // verus!
