//! Parametric rays: the point `origin + t * direction` for a fixed-point
//! parameter `t`.

use vstd::prelude::*;
use crate::vec3::Vec3;

verus! {

/// A ray with an origin and a (not necessarily unit) direction.
#[derive(Clone, Copy, PartialEq, Eq, Structural, Debug)]
pub struct Ray {
    pub origin: Vec3,
    pub direction: Vec3,
}

impl Ray {
    pub open spec fn spec_new(origin: Vec3, direction: Vec3) -> Ray {
        Ray { origin, direction }
    }

    #[verifier::when_used_as_spec(spec_new)]
    pub fn new(origin: Vec3, direction: Vec3) -> (r: Ray)
        ensures
            r == Ray::spec_new(origin, direction),
    {
        Ray { origin, direction }
    }

    pub open spec fn spec_at(self, t: i64) -> Vec3 {
        self.origin.spec_add(self.direction.spec_scale(t))
    }

    /// The point the ray reaches at parameter `t`.
    #[verifier::when_used_as_spec(spec_at)]
    pub fn point_at_parameter(self, t: i64) -> (r: Vec3)
        ensures
            r == self.spec_at(t),
    {
        self.origin.add(self.direction.scale(t))
    }
}

} // verus!
