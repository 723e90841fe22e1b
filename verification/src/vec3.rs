//! Three-component vectors over fixed-point scalars, used for points,
//! directions and colors alike.

use vstd::prelude::*;
use crate::fixed::{fx_add, fx_sub, fx_mul, fx_div, fx_sqrt};

verus! {

/// A vector (or point, or color) with fixed-point components.
#[derive(Clone, Copy, PartialEq, Eq, Structural, Debug)]
pub struct Vec3 {
    pub x: i64,
    pub y: i64,
    pub z: i64,
}

impl Vec3 {
    pub open spec fn spec_new(x: i64, y: i64, z: i64) -> Vec3 {
        Vec3 { x, y, z }
    }

    #[verifier::when_used_as_spec(spec_new)]
    pub fn new(x: i64, y: i64, z: i64) -> (r: Vec3)
        ensures
            r == Vec3::spec_new(x, y, z),
    {
        Vec3 { x, y, z }
    }

    pub open spec fn spec_zero() -> Vec3 {
        Vec3 { x: 0, y: 0, z: 0 }
    }

    #[verifier::when_used_as_spec(spec_zero)]
    pub fn zero() -> (r: Vec3)
        ensures
            r == Vec3::spec_zero(),
    {
        Vec3 { x: 0, y: 0, z: 0 }
    }

    pub open spec fn spec_add(self, o: Vec3) -> Vec3 {
        Vec3 { x: fx_add(self.x, o.x), y: fx_add(self.y, o.y), z: fx_add(self.z, o.z) }
    }

    /// Componentwise sum.
    #[verifier::when_used_as_spec(spec_add)]
    pub fn add(self, o: Vec3) -> (r: Vec3)
        ensures
            r == self.spec_add(o),
    {
        Vec3 { x: fx_add(self.x, o.x), y: fx_add(self.y, o.y), z: fx_add(self.z, o.z) }
    }

    pub open spec fn spec_sub(self, o: Vec3) -> Vec3 {
        Vec3 { x: fx_sub(self.x, o.x), y: fx_sub(self.y, o.y), z: fx_sub(self.z, o.z) }
    }

    /// Componentwise difference.
    #[verifier::when_used_as_spec(spec_sub)]
    pub fn sub(self, o: Vec3) -> (r: Vec3)
        ensures
            r == self.spec_sub(o),
    {
        Vec3 { x: fx_sub(self.x, o.x), y: fx_sub(self.y, o.y), z: fx_sub(self.z, o.z) }
    }

    pub open spec fn spec_neg(self) -> Vec3 {
        Vec3 { x: fx_sub(0, self.x), y: fx_sub(0, self.y), z: fx_sub(0, self.z) }
    }

    /// Componentwise negation (saturating at the `i64` minimum).
    #[verifier::when_used_as_spec(spec_neg)]
    pub fn neg(self) -> (r: Vec3)
        ensures
            r == self.spec_neg(),
    {
        Vec3 { x: fx_sub(0, self.x), y: fx_sub(0, self.y), z: fx_sub(0, self.z) }
    }

    pub open spec fn spec_scale(self, k: i64) -> Vec3 {
        Vec3 { x: fx_mul(k, self.x), y: fx_mul(k, self.y), z: fx_mul(k, self.z) }
    }

    /// The vector scaled by the fixed-point factor `k`.
    #[verifier::when_used_as_spec(spec_scale)]
    pub fn scale(self, k: i64) -> (r: Vec3)
        ensures
            r == self.spec_scale(k),
    {
        Vec3 { x: fx_mul(k, self.x), y: fx_mul(k, self.y), z: fx_mul(k, self.z) }
    }

    pub open spec fn spec_comp_mul(self, o: Vec3) -> Vec3 {
        Vec3 { x: fx_mul(self.x, o.x), y: fx_mul(self.y, o.y), z: fx_mul(self.z, o.z) }
    }

    /// Componentwise product, as color attenuation multiplies colors.
    #[verifier::when_used_as_spec(spec_comp_mul)]
    pub fn comp_mul(self, o: Vec3) -> (r: Vec3)
        ensures
            r == self.spec_comp_mul(o),
    {
        Vec3 { x: fx_mul(self.x, o.x), y: fx_mul(self.y, o.y), z: fx_mul(self.z, o.z) }
    }

    pub open spec fn spec_dot(self, o: Vec3) -> i64 {
        fx_add(fx_add(fx_mul(self.x, o.x), fx_mul(self.y, o.y)), fx_mul(self.z, o.z))
    }

    /// The dot product of the two vectors.
    #[verifier::when_used_as_spec(spec_dot)]
    pub fn dot(self, o: Vec3) -> (r: i64)
        ensures
            r == self.spec_dot(o),
    {
        fx_add(fx_add(fx_mul(self.x, o.x), fx_mul(self.y, o.y)), fx_mul(self.z, o.z))
    }

    pub open spec fn spec_cross(self, o: Vec3) -> Vec3 {
        Vec3 {
            x: fx_sub(fx_mul(self.y, o.z), fx_mul(self.z, o.y)),
            y: fx_sub(fx_mul(self.z, o.x), fx_mul(self.x, o.z)),
            z: fx_sub(fx_mul(self.x, o.y), fx_mul(self.y, o.x)),
        }
    }

    /// The cross product of the two vectors.
    #[verifier::when_used_as_spec(spec_cross)]
    pub fn cross(self, o: Vec3) -> (r: Vec3)
        ensures
            r == self.spec_cross(o),
    {
        Vec3 {
            x: fx_sub(fx_mul(self.y, o.z), fx_mul(self.z, o.y)),
            y: fx_sub(fx_mul(self.z, o.x), fx_mul(self.x, o.z)),
            z: fx_sub(fx_mul(self.x, o.y), fx_mul(self.y, o.x)),
        }
    }

    pub open spec fn spec_squared_length(self) -> i64 {
        self.spec_dot(self)
    }

    /// The squared Euclidean length.
    #[verifier::when_used_as_spec(spec_squared_length)]
    pub fn squared_length(self) -> (r: i64)
        ensures
            r == self.spec_squared_length(),
    {
        self.dot(self)
    }

    pub open spec fn spec_length(self) -> i64 {
        fx_sqrt(self.spec_squared_length())
    }

    /// The Euclidean length, rounded down; never negative.
    #[verifier::when_used_as_spec(spec_length)]
    pub fn length(self) -> (r: i64)
        ensures
            r == self.spec_length(),
            r >= 0,
    {
        fx_sqrt(self.squared_length())
    }

    pub open spec fn spec_div_scalar(self, k: i64) -> Vec3 {
        Vec3 { x: fx_div(self.x, k), y: fx_div(self.y, k), z: fx_div(self.z, k) }
    }

    /// The vector divided componentwise by the fixed-point scalar `k`
    /// (zero when `k` is zero, as scalar division is).
    #[verifier::when_used_as_spec(spec_div_scalar)]
    pub fn div_scalar(self, k: i64) -> (r: Vec3)
        ensures
            r == self.spec_div_scalar(k),
    {
        Vec3 { x: fx_div(self.x, k), y: fx_div(self.y, k), z: fx_div(self.z, k) }
    }

    pub open spec fn spec_unit(self) -> Vec3 {
        let l = self.spec_length();
        if l == 0 {
            Vec3::spec_zero()
        } else {
            Vec3 { x: fx_div(self.x, l), y: fx_div(self.y, l), z: fx_div(self.z, l) }
        }
    }

    /// The direction of the vector scaled to unit length (approximately,
    /// by the rounding of the scalar operations); the zero vector, and any
    /// vector short enough that its length rounds to zero, maps to zero.
    #[verifier::when_used_as_spec(spec_unit)]
    pub fn unit_vector(self) -> (r: Vec3)
        ensures
            r == self.spec_unit(),
    {
        let l = self.length();
        if l == 0 {
            Vec3::zero()
        } else {
            Vec3 { x: fx_div(self.x, l), y: fx_div(self.y, l), z: fx_div(self.z, l) }
        }
    }
}

/// The componentwise product of two unit-box colors stays in the unit
/// box.
pub proof fn lemma_comp_mul_unit_box(a: Vec3, b: Vec3)
    requires
        in_unit_box(a),
        in_unit_box(b),
    ensures
        in_unit_box(a.spec_comp_mul(b)),
{
    crate::fixed::lemma_fx_mul_unit(a.x, b.x);
    crate::fixed::lemma_fx_mul_unit(a.y, b.y);
    crate::fixed::lemma_fx_mul_unit(a.z, b.z);
}

/// Whether every component lies in the color range `[0, ONE]`.
pub open spec fn in_unit_box(v: Vec3) -> bool {
    0 <= v.x <= crate::fixed::ONE && 0 <= v.y <= crate::fixed::ONE && 0 <= v.z
        <= crate::fixed::ONE
}

} // verus!
