use vstd::prelude::*;
use crate::fx::{
    FRAC, FX_LIM, RAD_PER_DEG, fmul, fdiv, fmul_s, fdiv_s, lemma_fmul_s_bound, lemma_fdiv_s_bound,
    lemma_div_range,
};
use crate::vec3::{
    Vec3, Point3, v3, vec_ok, sbounded, sadd, ssub, sscale, sdiv, sdot, scross, sunit, cross,
    unit_vector, random_in_unit_disk, lemma_sunit_bound, lemma_sscale_bound, lemma_sdot_bound,
};
use crate::ray::{Ray, ray_ok, DIR_LIM, DIR_MIN};
use crate::rng::RandSource;

verus! {

/// Magnitude cap on the camera's anchor points.
pub const LOOK_LIM: i64 = 0x4000_0000;

/// Caps on the remaining camera parameters.
pub const VUP_LIM: i64 = 262144;

pub const FOV_LIM: i64 = 11141120;

pub const ASPECT_LIM: i64 = 262144;

pub const APERTURE_LIM: i64 = 0x20_0000;

pub const FOCUS_LIM: i64 = 0x100_0000;

/// Truncated Taylor series for the sine of an angle in `[0, 3]` radians.
pub open spec fn sin_s(x: int) -> int {
    let x2 = fmul_s(x, x);
    let x3 = fmul_s(x2, x);
    let x4 = fmul_s(x2, x2);
    let x5 = fmul_s(x4, x);
    let x6 = fmul_s(x4, x2);
    let x7 = fmul_s(x6, x);
    x - x3 / 6 + x5 / 120 - x7 / 5040
}

/// Truncated Taylor series for the cosine of an angle in `[0, 3]` radians.
pub open spec fn cos_s(x: int) -> int {
    let x2 = fmul_s(x, x);
    let x4 = fmul_s(x2, x2);
    let x6 = fmul_s(x4, x2);
    FRAC - x2 / 2 + x4 / 24 - x6 / 720
}

/// The tangent as the ratio of the two series.
pub open spec fn tan_s(x: int) -> int {
    fdiv_s(sin_s(x), cos_s(x))
}

/// Establishes the ranges of every power of `x` used by the series.
proof fn lemma_trig_powers(x: int)
    requires
        0 <= x <= 196608,
    ensures
        0 <= fmul_s(x, x) <= 589824,
        0 <= fmul_s(fmul_s(x, x), x) <= 1769472,
        0 <= fmul_s(fmul_s(x, x), fmul_s(x, x)) <= 5308416,
        0 <= fmul_s(fmul_s(fmul_s(x, x), fmul_s(x, x)), x) <= 15925248,
        0 <= fmul_s(fmul_s(fmul_s(x, x), fmul_s(x, x)), fmul_s(x, x)) <= 47775744,
        0 <= fmul_s(fmul_s(fmul_s(fmul_s(x, x), fmul_s(x, x)), fmul_s(x, x)), x) <= 143327232,
{
    let f = FRAC as int;
    let x2 = fmul_s(x, x);
    crate::fx::lemma_mul_bound(x, x, 196608, 196608);
    lemma_div_range(x * x, f);
    vstd::arithmetic::div_mod::lemma_div_is_ordered(x * x, 196608int * 196608, f);
    let x3 = fmul_s(x2, x);
    crate::fx::lemma_mul_bound(x2, x, 589824, 196608);
    lemma_div_range(x2 * x, f);
    vstd::arithmetic::div_mod::lemma_div_is_ordered(x2 * x, 589824int * 196608, f);
    let x4 = fmul_s(x2, x2);
    crate::fx::lemma_mul_bound(x2, x2, 589824, 589824);
    lemma_div_range(x2 * x2, f);
    vstd::arithmetic::div_mod::lemma_div_is_ordered(x2 * x2, 589824int * 589824, f);
    let x5 = fmul_s(x4, x);
    crate::fx::lemma_mul_bound(x4, x, 5308416, 196608);
    lemma_div_range(x4 * x, f);
    vstd::arithmetic::div_mod::lemma_div_is_ordered(x4 * x, 5308416int * 196608, f);
    let x6 = fmul_s(x4, x2);
    crate::fx::lemma_mul_bound(x4, x2, 5308416, 589824);
    lemma_div_range(x4 * x2, f);
    vstd::arithmetic::div_mod::lemma_div_is_ordered(x4 * x2, 5308416int * 589824, f);
    let x7 = fmul_s(x6, x);
    crate::fx::lemma_mul_bound(x6, x, 47775744, 196608);
    lemma_div_range(x6 * x, f);
    vstd::arithmetic::div_mod::lemma_div_is_ordered(x6 * x, 47775744int * 196608, f);
}

/// The sine series, computed in fixed point.
pub fn sin_fx(x: i64) -> (r: i64)
    requires
        0 <= x <= 196608,
    ensures
        r == sin_s(x as int),
        -655360 <= r <= 655360,
{
    proof {
        lemma_trig_powers(x as int);
        lemma_div_range(fmul_s(fmul_s(x as int, x as int), x as int), 6);
        lemma_div_range(
            fmul_s(fmul_s(fmul_s(x as int, x as int), fmul_s(x as int, x as int)), x as int),
            120,
        );
        lemma_div_range(
            fmul_s(
                fmul_s(fmul_s(fmul_s(x as int, x as int), fmul_s(x as int, x as int)),
                    fmul_s(x as int, x as int)),
                x as int,
            ),
            5040,
        );
    }
    let x2 = fmul(x, x);
    let x3 = fmul(x2, x);
    let x4 = fmul(x2, x2);
    let x5 = fmul(x4, x);
    let x6 = fmul(x4, x2);
    let x7 = fmul(x6, x);
    x - x3 / 6 + x5 / 120 - x7 / 5040
}

/// The cosine series, computed in fixed point.
pub fn cos_fx(x: i64) -> (r: i64)
    requires
        0 <= x <= 196608,
    ensures
        r == cos_s(x as int),
        -655360 <= r <= 655360,
{
    proof {
        lemma_trig_powers(x as int);
        lemma_div_range(fmul_s(x as int, x as int), 2);
        lemma_div_range(fmul_s(fmul_s(x as int, x as int), fmul_s(x as int, x as int)), 24);
        lemma_div_range(
            fmul_s(fmul_s(fmul_s(x as int, x as int), fmul_s(x as int, x as int)),
                fmul_s(x as int, x as int)),
            720,
        );
    }
    let x2 = fmul(x, x);
    let x4 = fmul(x2, x2);
    let x6 = fmul(x4, x2);
    FRAC - x2 / 2 + x4 / 24 - x6 / 720
}

/// The tangent, defined where the cosine series stays positive.
pub fn tan_fx(x: i64) -> (r: i64)
    requires
        0 <= x <= 196608,
        1 <= cos_s(x as int),
    ensures
        r == tan_s(x as int),
        1024 <= cos_s(x as int) ==> -41943041 <= r <= 41943041,
{
    let s = sin_fx(x);
    let c = cos_fx(x);
    proof {
        if 1024 <= c {
            lemma_fdiv_s_bound(s as int, c as int, 655360, 1024);
        }
    }
    fdiv(s, c)
}

/// A thin-lens camera: the orthonormal view basis, the viewport anchors,
/// and the lens radius, computed once from the configuration.
#[derive(Clone, Copy, Debug)]
pub struct Camera {
    pub origin: Point3,
    pub lower_left_corner: Point3,
    pub horizontal: Vec3,
    pub vertical: Vec3,
    pub u: Vec3,
    pub v: Vec3,
    pub w: Vec3,
    pub lens_radius: i64,
}

/// The half view angle in radians for a field of view in degrees.
pub open spec fn half_theta_s(vfov: int) -> int {
    fmul_s(vfov, RAD_PER_DEG as int) / 2
}

/// Bounds on a built camera that ray generation relies on.
pub open spec fn camera_ok(c: Camera) -> bool {
    &&& sbounded(v3(c.origin), LOOK_LIM as int)
    &&& sbounded(v3(c.u), 600000)
    &&& sbounded(v3(c.v), 600000)
    &&& sbounded(v3(c.horizontal), 180_000_000_000)
    &&& sbounded(v3(c.vertical), 180_000_000_000)
    &&& sbounded(v3(c.lower_left_corner), 200_000_000_000)
    &&& 0 <= c.lens_radius <= 0x10_0000
}

impl Camera {
    /// Builds the camera: viewport size from the field of view and
    /// aspect ratio, an orthonormal basis from the look direction and
    /// the up vector, and viewport vectors scaled by the focus distance.
    pub fn new(
        lookfrom: Point3,
        lookat: Point3,
        vup: Vec3,
        vfov: i64,
        aspect_ratio: i64,
        aperture: i64,
        focus_dist: i64,
    ) -> (cam: Camera)
        requires
            sbounded(v3(lookfrom), LOOK_LIM as int),
            sbounded(v3(lookat), LOOK_LIM as int),
            sbounded(v3(vup), VUP_LIM as int),
            0 <= vfov <= FOV_LIM,
            0 <= aspect_ratio <= ASPECT_LIM,
            0 <= aperture <= APERTURE_LIM,
            1 <= focus_dist <= FOCUS_LIM,
            1024 <= cos_s(half_theta_s(vfov as int)),
            DIR_MIN <= sdot(
                ssub(v3(lookfrom), v3(lookat)),
                ssub(v3(lookfrom), v3(lookat)),
            ),
            DIR_MIN <= sdot(
                scross(v3(vup), sunit(ssub(v3(lookfrom), v3(lookat)))),
                scross(v3(vup), sunit(ssub(v3(lookfrom), v3(lookat)))),
            ),
        ensures
            cam.origin == lookfrom,
            v3(cam.w) == sunit(ssub(v3(lookfrom), v3(lookat))),
            v3(cam.u) == sunit(scross(v3(vup), sunit(ssub(v3(lookfrom), v3(lookat))))),
            v3(cam.v) == scross(v3(cam.w), v3(cam.u)),
            v3(cam.horizontal) == sscale(
                sscale(v3(cam.u), focus_dist as int),
                fmul_s(aspect_ratio as int, 2 * tan_s(half_theta_s(vfov as int))),
            ),
            v3(cam.vertical) == sscale(
                sscale(v3(cam.v), focus_dist as int),
                2 * tan_s(half_theta_s(vfov as int)),
            ),
            v3(cam.lower_left_corner) == ssub(
                ssub(
                    ssub(v3(lookfrom), sdiv(v3(cam.horizontal), 2 * FRAC as int)),
                    sdiv(v3(cam.vertical), 2 * FRAC as int),
                ),
                sscale(v3(cam.w), focus_dist as int),
            ),
            cam.lens_radius == aperture as int / 2,
            camera_ok(cam),
    {
        let theta = fmul(vfov, RAD_PER_DEG);
        proof {
            lemma_fmul_s_bound(vfov as int, RAD_PER_DEG as int, FOV_LIM as int, 1144);
            lemma_div_range(vfov as int * RAD_PER_DEG as int, FRAC as int);
            lemma_div_range(fmul_s(vfov as int, RAD_PER_DEG as int), 2);
            vstd::arithmetic::div_mod::lemma_div_is_ordered(
                vfov as int * RAD_PER_DEG as int,
                11141120int * 1144,
                FRAC as int,
            );
        }
        let half: i64 = theta / 2;
        let h = tan_fx(half);
        let viewport_height: i64 = 2 * h;
        proof {
            lemma_fmul_s_bound(aspect_ratio as int, viewport_height as int, 262144, 83886082);
        }
        let viewport_width = fmul(aspect_ratio, viewport_height);

        let look_dir = lookfrom.minus(&lookat);
        proof {
            lemma_sunit_bound(v3(look_dir));
            crate::material::lemma_unit_len_ok(v3(look_dir));
        }
        let w = unit_vector(&look_dir);
        let cu = cross(&vup, &w);
        proof {
            lemma_fmul_s_bound(vup.x as int, w.y as int, 262144, 131074);
            lemma_fmul_s_bound(vup.x as int, w.z as int, 262144, 131074);
            lemma_fmul_s_bound(vup.y as int, w.x as int, 262144, 131074);
            lemma_fmul_s_bound(vup.y as int, w.z as int, 262144, 131074);
            lemma_fmul_s_bound(vup.z as int, w.x as int, 262144, 131074);
            lemma_fmul_s_bound(vup.z as int, w.y as int, 262144, 131074);
            lemma_sunit_bound(v3(cu));
            crate::material::lemma_unit_len_ok(v3(cu));
        }
        let u = unit_vector(&cu);
        let v = cross(&w, &u);
        proof {
            lemma_fmul_s_bound(w.x as int, u.y as int, 131074, 131074);
            lemma_fmul_s_bound(w.x as int, u.z as int, 131074, 131074);
            lemma_fmul_s_bound(w.y as int, u.x as int, 131074, 131074);
            lemma_fmul_s_bound(w.y as int, u.z as int, 131074, 131074);
            lemma_fmul_s_bound(w.z as int, u.x as int, 131074, 131074);
            lemma_fmul_s_bound(w.z as int, u.y as int, 131074, 131074);
            lemma_sscale_bound(v3(u), focus_dist as int, 131074, 16777216);
            lemma_sscale_bound(v3(v), focus_dist as int, 524306, 16777216);
        }
        let origin = lookfrom;
        let uf = u.scaled(focus_dist);
        let vf = v.scaled(focus_dist);
        proof {
            lemma_sscale_bound(v3(uf), viewport_width as int, 33554945, 335544330);
            lemma_sscale_bound(v3(vf), viewport_height as int, 134222337, 83886082);
        }
        let horizontal = uf.scaled(viewport_width);
        let vertical = vf.scaled(viewport_height);
        proof {
            lemma_fdiv_s_bound(horizontal.x as int, 2 * FRAC as int, 180_000_000_000, 131072);
            lemma_fdiv_s_bound(horizontal.y as int, 2 * FRAC as int, 180_000_000_000, 131072);
            lemma_fdiv_s_bound(horizontal.z as int, 2 * FRAC as int, 180_000_000_000, 131072);
            lemma_fdiv_s_bound(vertical.x as int, 2 * FRAC as int, 180_000_000_000, 131072);
            lemma_fdiv_s_bound(vertical.y as int, 2 * FRAC as int, 180_000_000_000, 131072);
            lemma_fdiv_s_bound(vertical.z as int, 2 * FRAC as int, 180_000_000_000, 131072);
            lemma_sscale_bound(v3(w), focus_dist as int, 131074, 16777216);
        }
        let half_h = horizontal.divided(2 * FRAC);
        let half_v = vertical.divided(2 * FRAC);
        let wf = w.scaled(focus_dist);
        let lower_left_corner = origin.minus(&half_h).minus(&half_v).minus(&wf);
        let lens_radius = aperture / 2;
        Camera { origin, lower_left_corner, horizontal, vertical, u, v, w, lens_radius }
    }

    /// The offset of a ray origin on the lens: the disk draw `rd`,
    /// scaled by the lens radius, projected into the `u`/`v` plane.
    pub open spec fn lens_offset_s(self, rd: (int, int, int)) -> (int, int, int) {
        sadd(
            sscale(v3(self.u), fmul_s(rd.0, self.lens_radius as int)),
            sscale(v3(self.v), fmul_s(rd.1, self.lens_radius as int)),
        )
    }

    /// The viewport point that normalized coordinates `(s, t)` address.
    pub open spec fn viewport_target_s(self, s: int, t: int) -> (int, int, int) {
        sadd(
            sadd(v3(self.lower_left_corner), sscale(v3(self.horizontal), s)),
            sscale(v3(self.vertical), t),
        )
    }

    /// The direction of the primary ray for a given lens draw: from the
    /// offset origin toward the viewport target, so the target minus the
    /// camera origin, minus the same offset that moved the origin.
    pub open spec fn camera_ray_dir_s(self, s: int, t: int, rd: (int, int, int)) -> (
        int,
        int,
        int,
    ) {
        ssub(ssub(self.viewport_target_s(s, t), v3(self.origin)), self.lens_offset_s(rd))
    }

    /// A primary ray through normalized viewport coordinates `(s, t)`,
    /// with its origin perturbed on the lens disk for depth of field and
    /// the viewport target adjusted by the same offset.  A numerically
    /// degenerate direction falls back to the view axis, so that the
    /// returned ray is always well formed.
    pub fn get_ray(&self, rng: &mut RandSource, s: i64, t: i64) -> (r: Ray)
        requires
            camera_ok(*self),
            0 <= s <= 2 * FRAC,
            0 <= t <= 2 * FRAC,
        ensures
            ray_ok(r),
            r.time == 0,
            exists|rd: (int, int, int)|
                #![trigger self.lens_offset_s(rd)]
                {
                    &&& rd.2 == 0
                    &&& sbounded(rd, FRAC as int)
                    &&& sdot(rd, rd) < FRAC
                    &&& v3(r.origin) == sadd(v3(self.origin), self.lens_offset_s(rd))
                    &&& v3(r.direction) == ({
                        let dir = self.camera_ray_dir_s(s as int, t as int, rd);
                        if sbounded(dir, DIR_LIM as int) && DIR_MIN <= sdot(dir, dir) {
                            dir
                        } else {
                            (0int, 0int, -(FRAC as int))
                        }
                    })
                    &&& ({
                        // Aim invariance: whatever the lens draw, a
                        // non-degenerate ray still passes through the
                        // addressed viewport point.
                        let dir = self.camera_ray_dir_s(s as int, t as int, rd);
                        (sbounded(dir, DIR_LIM as int) && DIR_MIN <= sdot(dir, dir)) ==> sadd(
                            v3(r.origin),
                            v3(r.direction),
                        ) == self.viewport_target_s(s as int, t as int)
                    })
                },
    {
        let rd0 = random_in_unit_disk(rng);
        proof {
            lemma_sscale_bound(v3(rd0), self.lens_radius as int, 65536, 0x10_0000);
        }
        let rd = rd0.scaled(self.lens_radius);
        proof {
            lemma_sscale_bound(v3(self.u), rd.x as int, 600000, 1048577);
            lemma_sscale_bound(v3(self.v), rd.y as int, 600000, 1048577);
        }
        let uoff = self.u.scaled(rd.x);
        let voff = self.v.scaled(rd.y);
        let offset = uoff.plus(&voff);
        let new_origin = self.origin.plus(&offset);
        proof {
            lemma_sscale_bound(v3(self.horizontal), s as int, 180_000_000_000, 131072);
            lemma_sscale_bound(v3(self.vertical), t as int, 180_000_000_000, 131072);
        }
        let sh = self.horizontal.scaled(s);
        let tv = self.vertical.scaled(t);
        let target = self.lower_left_corner.plus(&sh).plus(&tv);
        let dir = target.minus(&self.origin).minus(&offset);
        proof {
            let rdg = v3(rd0);
            assert(self.lens_offset_s(rdg) == v3(offset));
            assert(self.viewport_target_s(s as int, t as int) == v3(target));
            assert(self.camera_ray_dir_s(s as int, t as int, rdg) == v3(dir));
            assert(sadd(v3(self.origin), self.lens_offset_s(rdg)) == v3(new_origin));
        }
        let dir_ok_flag: bool = dir.x <= DIR_LIM && dir.x >= -DIR_LIM && dir.y <= DIR_LIM && dir.y
            >= -DIR_LIM && dir.z <= DIR_LIM && dir.z >= -DIR_LIM;
        if dir_ok_flag {
            let ls = dir.length_squared();
            if ls >= DIR_MIN {
                return Ray::new(&new_origin, &dir);
            }
        }
        proof {
            assert((-65536int) * (-65536int) == 4294967296int) by (nonlinear_arith);
        }
        let fallback = Vec3 { x: 0, y: 0, z: -FRAC };
        Ray::new(&new_origin, &fallback)
    }
}

} // verus!
