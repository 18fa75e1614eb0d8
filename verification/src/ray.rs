use vstd::prelude::*;
use crate::vec3::{Vec3, Point3, v3, vec_ok, sadd, sscale, sbounded, sdot, lemma_sscale_bound};
use crate::fx::FX_LIM;

verus! {

/// Magnitude cap on the components of a ray origin (and of any accepted
/// hit point).
pub const P_LIM: i64 = 0x8_0000_0000;

/// Magnitude cap on the components of a ray direction.
pub const DIR_LIM: i64 = 0x2_0000_0000;

/// Least squared length of a usable direction or surface normal: one
/// quarter, i.e. length one half.
pub const DIR_MIN: i64 = 16384;

/// Farthest ray parameter the renderer traces to; stands in for an
/// unbounded upper range.
pub const T_MAX: i64 = 0x4000_0000;

/// A ray: origin plus scaled direction.  The time parameter exists for
/// motion blur and is always zero for now.
#[derive(Clone, Copy, Debug)]
pub struct Ray {
    pub origin: Point3,
    pub direction: Vec3,
    pub time: i64,
}

/// A well-formed ray: bounded origin, bounded direction, and a direction
/// long enough to normalize.
pub open spec fn ray_ok(r: Ray) -> bool {
    &&& sbounded(v3(r.origin), P_LIM as int)
    &&& sbounded(v3(r.direction), DIR_LIM as int)
    &&& DIR_MIN <= sdot(v3(r.direction), v3(r.direction))
}

/// The point at parameter `t` along a ray from `o` in direction `d`.
pub open spec fn sat(o: (int, int, int), d: (int, int, int), t: int) -> (int, int, int) {
    sadd(o, sscale(d, t))
}

impl Ray {
    pub fn new(origin: &Point3, direction: &Vec3) -> (r: Self)
        ensures
            r.origin == *origin,
            r.direction == *direction,
            r.time == 0,
    {
        Ray { origin: *origin, direction: *direction, time: 0 }
    }

    /// The point this ray reaches at parameter `t`.
    pub fn at(&self, t: i64) -> (r: Point3)
        requires
            vec_ok(self.direction),
            -FX_LIM <= t <= FX_LIM,
            sbounded(v3(self.origin), 0x100_0000_0000_0000),
        ensures
            v3(r) == sat(v3(self.origin), v3(self.direction), t as int),
    {
        proof {
            lemma_sscale_bound(v3(self.direction), t as int, FX_LIM as int, FX_LIM as int);
        }
        let sc = self.direction.scaled(t);
        self.origin.plus(&sc)
    }
}

} // verus!
