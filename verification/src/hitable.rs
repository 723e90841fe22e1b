//! Intersection records and the interface of things a ray can hit.

use vstd::prelude::*;
use crate::material::MaterialTypes;
use crate::ray::Ray;
use crate::sphere::Sphere;
use crate::vec3::Vec3;

verus! {

/// The result of a successful ray-primitive intersection: the ray
/// parameter, the hit point, the outward surface normal, and the hit
/// primitive's material (copied out, so the record owns everything).
#[derive(Clone, Copy, PartialEq, Eq, Structural, Debug)]
pub struct HitRecord {
    pub t: i64,
    pub p: Vec3,
    pub normal: Vec3,
    pub mat_type: MaterialTypes,
}

impl HitRecord {
    /// The record for parameter `t` on `ray` against `sphere`: the hit
    /// point is the ray at `t`, and the normal is the offset from the
    /// center scaled by the inverse radius (outward, unit length up to
    /// rounding).
    pub open spec fn spec_record_hit(t: i64, ray: Ray, sphere: Sphere) -> HitRecord {
        let p = ray.spec_at(t);
        HitRecord {
            t,
            p,
            normal: p.spec_sub(sphere.center).spec_div_scalar(sphere.radius),
            mat_type: sphere.material,
        }
    }

    pub fn record_hit(t: i64, ray: &Ray, sphere: &Sphere) -> (r: HitRecord)
        ensures
            r == HitRecord::spec_record_hit(t, *ray, *sphere),
    {
        let p = ray.point_at_parameter(t);
        HitRecord {
            t,
            p,
            normal: p.sub(sphere.center).div_scalar(sphere.radius),
            mat_type: sphere.material,
        }
    }

    pub fn get_mat(&self) -> (r: &MaterialTypes)
        ensures
            *r == self.mat_type,
    {
        &self.mat_type
    }
}

/// Anything a ray can intersect within a parameter window.  The precise
/// contracts live on the inherent `hit` methods of the implementing types;
/// this trait only fixes the shape of the query.
pub trait Hitable {
    fn hit(&self, ray: &Ray, t_min: i64, t_max: i64) -> Option<HitRecord>;
}

} // verus!
