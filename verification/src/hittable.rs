use vstd::prelude::*;
use crate::vec3::{Vec3, Point3, v3, vec_ok, sbounded, sdot, sneg, dot};
use crate::ray::{Ray, P_LIM, DIR_MIN};
use crate::material::{Material, NullMaterial, material_ok};
use crate::fx::FRAC;

verus! {

/// The record of one accepted ray–object intersection.
#[derive(Clone, Copy, Debug)]
pub struct HitRecord {
    pub p: Point3,
    pub normal: Vec3,
    pub material: Material,
    pub t: i64,
    pub front_face: bool,
}

/// A well-formed hit record: hit point inside the world box, a normal of
/// roughly unit length oriented by `front_face`, and a positive ray
/// parameter.
pub open spec fn rec_ok(rec: HitRecord) -> bool {
    &&& sbounded(v3(rec.p), P_LIM as int)
    &&& sbounded(v3(rec.normal), 2 * FRAC as int)
    &&& DIR_MIN <= sdot(v3(rec.normal), v3(rec.normal))
    &&& 0 < rec.t
    &&& material_ok(rec.material)
}

impl HitRecord {
    /// Orients the stored normal against the incident ray: the outward
    /// normal is kept on a front face and flipped on a back face.
    pub fn set_face_normal(&mut self, r: &Ray, outward_normal: &Vec3)
        requires
            vec_ok(r.direction),
            vec_ok(*outward_normal),
        ensures
            final(self).front_face == (sdot(v3(r.direction), v3(*outward_normal)) < 0),
            final(self).front_face ==> final(self).normal == *outward_normal,
            !final(self).front_face ==> v3(final(self).normal) == sneg(v3(*outward_normal)),
            final(self).p == old(self).p,
            final(self).t == old(self).t,
            final(self).material == old(self).material,
    {
        self.front_face = dot(&r.direction, outward_normal) < 0;
        self.normal = if self.front_face {
            *outward_normal
        } else {
            outward_normal.negated()
        };
    }
}

impl Default for HitRecord {
    /// An empty record: the origin, a zero normal, and a material that
    /// absorbs everything.
    fn default() -> (r: Self)
        ensures
            r.p.x == 0 && r.p.y == 0 && r.p.z == 0,
            r.normal.x == 0 && r.normal.y == 0 && r.normal.z == 0,
            r.t == 0,
            !r.front_face,
            r.material is Null,
    {
        HitRecord {
            p: Vec3 { x: 0, y: 0, z: 0 },
            normal: Vec3 { x: 0, y: 0, z: 0 },
            material: Material::Null(NullMaterial),
            t: 0,
            front_face: false,
        }
    }
}

} // verus!
