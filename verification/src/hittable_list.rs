use vstd::prelude::*;
use crate::vec3::{v3, sdot, ssub, sbounded};
use crate::fx::{FRAC, fmul_s, isqrt_s, lemma_isqrt_s};
use crate::ray::{Ray, ray_ok, T_MAX};
use crate::sphere::{Sphere, sphere_ok, sphere_hit_s};
use crate::hittable::{HitRecord, rec_ok};
use vstd::arithmetic::div_mod::lemma_div_is_ordered;

verus! {

/// An ordered collection of spheres, tested in order for the nearest
/// intersection.
pub struct HittableList {
    pub objects: Vec<Sphere>,
}

/// Every object of the scene is well formed.
pub open spec fn world_ok(w: HittableList) -> bool {
    forall|i: int| 0 <= i < w.objects@.len() ==> sphere_ok(#[trigger] w.objects@[i])
}

/// The nearest accepted hit over the first `n` objects, together with
/// the index of the winning object.  Each object is tested against the
/// interval capped by the best parameter so far, and an equal parameter
/// does not displace an earlier winner, so ties resolve to the first
/// object in iteration order.
pub open spec fn list_hit_upto_s(
    objs: Seq<Sphere>,
    o: (int, int, int),
    d: (int, int, int),
    t_min: int,
    t_max: int,
    n: int,
) -> Option<(int, (int, int, int), (int, int, int), bool, int)>
    decreases n,
{
    if n <= 0 {
        None
    } else {
        let prev = list_hit_upto_s(objs, o, d, t_min, t_max, n - 1);
        let cur_max = match prev {
            None => t_max,
            Some(ph) => ph.0,
        };
        match sphere_hit_s(
            v3(objs[n - 1].center),
            objs[n - 1].radius as int,
            o,
            d,
            t_min,
            cur_max,
        ) {
            None => prev,
            Some(h) => match prev {
                None => Some((h.0, h.1, h.2, h.3, n - 1)),
                Some(ph) => if h.0 < ph.0 {
                    Some((h.0, h.1, h.2, h.3, n - 1))
                } else {
                    prev
                },
            },
        }
    }
}

impl HittableList {
    /// Appends an object to the scene.
    pub fn add(&mut self, object: Sphere)
        ensures
            final(self).objects@ == old(self).objects@.push(object),
    {
        self.objects.push(object);
    }

    /// The nearest intersection of a ray with any object of the scene
    /// inside `(t_min, t_max]`: each object is tested against the best
    /// parameter so far, and the first object wins ties.
    pub fn hit(&self, r: &Ray, t_min: i64, t_max: i64) -> (result: Option<HitRecord>)
        requires
            world_ok(*self),
            ray_ok(*r),
            0 <= t_min <= t_max <= T_MAX,
        ensures
            (result is None) == (list_hit_upto_s(
                self.objects@,
                v3(r.origin),
                v3(r.direction),
                t_min as int,
                t_max as int,
                self.objects@.len() as int,
            ) is None),
            result matches Some(rec) ==> list_hit_upto_s(
                self.objects@,
                v3(r.origin),
                v3(r.direction),
                t_min as int,
                t_max as int,
                self.objects@.len() as int,
            ) matches Some(h) && {
                &&& h.0 == rec.t
                &&& h.1 == v3(rec.p)
                &&& h.2 == v3(rec.normal)
                &&& h.3 == rec.front_face
                &&& 0 <= h.4 < self.objects@.len()
                &&& rec.material == self.objects@[h.4].material
                &&& t_min < rec.t <= t_max
                &&& rec_ok(rec)
            },
    {
        let mut hit_anything: Option<HitRecord> = None;
        let mut closest_so_far: i64 = t_max;
        let ghost mut widx: int = 0int;
        let n = self.objects.len();
        let mut i: usize = 0;
        while i < n
            invariant
                n == self.objects.len(),
                0 <= i <= n,
                world_ok(*self),
                ray_ok(*r),
                0 <= t_min <= t_max <= T_MAX,
                match hit_anything {
                    None => closest_so_far == t_max && list_hit_upto_s(
                        self.objects@,
                        v3(r.origin),
                        v3(r.direction),
                        t_min as int,
                        t_max as int,
                        i as int,
                    ) is None,
                    Some(rec) => {
                        &&& closest_so_far == rec.t
                        &&& t_min < rec.t <= t_max
                        &&& 0 <= widx < i
                        &&& rec.material == self.objects@[widx].material
                        &&& rec_ok(rec)
                        &&& list_hit_upto_s(
                            self.objects@,
                            v3(r.origin),
                            v3(r.direction),
                            t_min as int,
                            t_max as int,
                            i as int,
                        ) == Some((rec.t as int, v3(rec.p), v3(rec.normal), rec.front_face, widx))
                    },
                },
            decreases n - i,
        {
            let obj = &self.objects[i];
            let res = obj.hit(r, t_min, closest_so_far);
            if let Some(rec) = res {
                let take: bool = match hit_anything {
                    None => true,
                    Some(prev_rec) => rec.t < closest_so_far,
                };
                if take {
                    closest_so_far = rec.t;
                    hit_anything = Some(rec);
                    proof {
                        widx = i as int;
                    }
                }
            }
            i += 1;
        }
        hit_anything
    }
}

/// The two candidate roots of the ray-sphere quadratic are ordered:
/// the first root never exceeds the second.
proof fn lemma_roots_ordered(c: (int, int, int), rad: int, o: (int, int, int), d: (int, int, int))
    requires
        1 <= sdot(d, d),
        0 <= sdot(ssub(o, c), d) * sdot(ssub(o, c), d) - sdot(d, d) * (sdot(ssub(o, c), ssub(o, c))
            - fmul_s(rad, rad)),
    ensures
        ({
            let oc = ssub(o, c);
            let a = sdot(d, d);
            let hb = sdot(oc, d);
            let cc = sdot(oc, oc) - fmul_s(rad, rad);
            let sd = isqrt_s(hb * hb - a * cc);
            ((-hb - sd) * FRAC) / a <= ((-hb + sd) * FRAC) / a
        }),
{
    let oc = ssub(o, c);
    let a = sdot(d, d);
    let hb = sdot(oc, d);
    let cc = sdot(oc, oc) - fmul_s(rad, rad);
    let disc = hb * hb - a * cc;
    lemma_isqrt_s(disc);
    let sd = isqrt_s(disc);
    assert((-hb - sd) * FRAC <= (-hb + sd) * FRAC) by (nonlinear_arith)
        requires
            0 <= sd,
            0 < FRAC,
    ;
    lemma_div_is_ordered((-hb - sd) * FRAC, (-hb + sd) * FRAC, a);
}

/// A sphere that reports a hit at parameter `t` reports nothing once the
/// search interval is capped below `t`: shrinking the range cannot
/// surface an earlier root.
proof fn lemma_sphere_hit_gone_below(
    c: (int, int, int),
    rad: int,
    o: (int, int, int),
    d: (int, int, int),
    t_min: int,
    cap: int,
    t_max: int,
)
    requires
        1 <= sdot(d, d),
        sphere_hit_s(c, rad, o, d, t_min, t_max) is Some,
        t_min <= cap,
        cap < sphere_hit_s(c, rad, o, d, t_min, t_max).unwrap().0,
    ensures
        sphere_hit_s(c, rad, o, d, t_min, cap) is None,
{
    lemma_roots_ordered(c, rad, o, d);
}

/// A sphere's reported hit does not change when the upper bound of the
/// search interval shrinks but stays at or above the reported parameter.
proof fn lemma_sphere_hit_kept(
    c: (int, int, int),
    rad: int,
    o: (int, int, int),
    d: (int, int, int),
    t_min: int,
    cap: int,
    t_max: int,
)
    requires
        1 <= sdot(d, d),
        sphere_hit_s(c, rad, o, d, t_min, t_max) is Some,
        sphere_hit_s(c, rad, o, d, t_min, t_max).unwrap().0 <= cap <= t_max,
    ensures
        sphere_hit_s(c, rad, o, d, t_min, cap) == sphere_hit_s(c, rad, o, d, t_min, t_max),
{
    lemma_roots_ordered(c, rad, o, d);
}

/// The scene returns the nearer sphere's hit - and so its material -
/// whichever order the two spheres were inserted in: when both spheres
/// intersect the ray and the first's parameter is smaller, the winning
/// index of the two-object scene denotes the nearer sphere in either
/// insertion order, with the nearer parameter.
pub proof fn lemma_nearest_sphere_wins(
    s0: Sphere,
    s1: Sphere,
    o: (int, int, int),
    d: (int, int, int),
    t_min: int,
    t_max: int,
)
    requires
        1 <= sdot(d, d),
        sphere_hit_s(v3(s0.center), s0.radius as int, o, d, t_min, t_max) is Some,
        sphere_hit_s(v3(s1.center), s1.radius as int, o, d, t_min, t_max) is Some,
        sphere_hit_s(v3(s0.center), s0.radius as int, o, d, t_min, t_max).unwrap().0
            < sphere_hit_s(v3(s1.center), s1.radius as int, o, d, t_min, t_max).unwrap().0,
    ensures
        list_hit_upto_s(seq![s0, s1], o, d, t_min, t_max, 2) matches Some(h) && h.4 == 0 && h.0
            == sphere_hit_s(v3(s0.center), s0.radius as int, o, d, t_min, t_max).unwrap().0
            && seq![s0, s1][h.4].material == s0.material,
        list_hit_upto_s(seq![s1, s0], o, d, t_min, t_max, 2) matches Some(h) && h.4 == 1 && h.0
            == sphere_hit_s(v3(s0.center), s0.radius as int, o, d, t_min, t_max).unwrap().0
            && seq![s1, s0][h.4].material == s0.material,
{
    let h0 = sphere_hit_s(v3(s0.center), s0.radius as int, o, d, t_min, t_max).unwrap();
    let h1 = sphere_hit_s(v3(s1.center), s1.radius as int, o, d, t_min, t_max).unwrap();
    assert(t_min < h0.0 <= t_max);
    assert(t_min < h1.0 <= t_max);
    let q01 = seq![s0, s1];
    let q10 = seq![s1, s0];
    assert(list_hit_upto_s(q01, o, d, t_min, t_max, 0) is None);
    assert(list_hit_upto_s(q01, o, d, t_min, t_max, 1) == Some((h0.0, h0.1, h0.2, h0.3, 0int)));
    lemma_sphere_hit_gone_below(
        v3(s1.center),
        s1.radius as int,
        o,
        d,
        t_min,
        h0.0,
        t_max,
    );
    assert(list_hit_upto_s(q01, o, d, t_min, t_max, 2) == Some((h0.0, h0.1, h0.2, h0.3, 0int)));
    assert(list_hit_upto_s(q10, o, d, t_min, t_max, 0) is None);
    assert(list_hit_upto_s(q10, o, d, t_min, t_max, 1) == Some((h1.0, h1.1, h1.2, h1.3, 0int)));
    lemma_sphere_hit_kept(v3(s0.center), s0.radius as int, o, d, t_min, h1.0, t_max);
    assert(list_hit_upto_s(q10, o, d, t_min, t_max, 2) == Some((h0.0, h0.1, h0.2, h0.3, 1int)));
}

} // verus!
