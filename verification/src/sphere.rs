//! The sphere primitive and its ray-intersection query.

use vstd::prelude::*;
use crate::fixed::{fx_add, fx_sub, fx_mul, fx_div, fx_sqrt};
use crate::hitable::{HitRecord, Hitable};
use crate::material::MaterialTypes;
use crate::ray::Ray;

verus! {

/// A sphere with its owned material.
#[derive(Clone, Copy, PartialEq, Eq, Structural, Debug)]
pub struct Sphere {
    pub center: crate::vec3::Vec3,
    pub radius: i64,
    pub material: MaterialTypes,
}

impl Sphere {
    pub open spec fn spec_new(center: crate::vec3::Vec3, radius: i64, material: MaterialTypes) -> Sphere {
        Sphere { center, radius, material }
    }

    #[verifier::when_used_as_spec(spec_new)]
    pub fn new(center: crate::vec3::Vec3, radius: i64, material: MaterialTypes) -> (r: Sphere)
        ensures
            r == Sphere::spec_new(center, radius, material),
    {
        Sphere { center, radius, material }
    }

    /// A well-formed sphere has a positive radius and a well-formed
    /// material.
    pub open spec fn wf(self) -> bool {
        self.radius > 0 && self.material.wf()
    }

    /// The offset from the sphere's center to the ray's origin.
    pub open spec fn oc(self, ray: Ray) -> crate::vec3::Vec3 {
        ray.origin.spec_sub(self.center)
    }

    /// The quadratic coefficient `a = dot(direction, direction)`.
    pub open spec fn quad_a(self, ray: Ray) -> i64 {
        ray.direction.spec_dot(ray.direction)
    }

    /// The quadratic half-coefficient `b = dot(oc, direction)`.
    pub open spec fn quad_b(self, ray: Ray) -> i64 {
        self.oc(ray).spec_dot(ray.direction)
    }

    /// The quadratic constant `c = dot(oc, oc) - radius^2`.
    pub open spec fn quad_c(self, ray: Ray) -> i64 {
        fx_sub(self.oc(ray).spec_dot(self.oc(ray)), fx_mul(self.radius, self.radius))
    }

    /// The discriminant `b^2 - a * c`: the ray meets the sphere exactly
    /// when it is positive.
    pub open spec fn discriminant(self, ray: Ray) -> i64 {
        fx_sub(
            fx_mul(self.quad_b(ray), self.quad_b(ray)),
            fx_mul(self.quad_a(ray), self.quad_c(ray)),
        )
    }

    /// The nearer root `(-b - sqrt(disc)) / a`.
    pub open spec fn root_near(self, ray: Ray) -> i64 {
        fx_div(fx_sub(fx_sub(0, self.quad_b(ray)), fx_sqrt(self.discriminant(ray))), self.quad_a(ray))
    }

    /// The farther root `(-b + sqrt(disc)) / a`, computed with the square
    /// root of the discriminant.
    pub open spec fn root_far(self, ray: Ray) -> i64 {
        fx_div(fx_add(fx_sub(0, self.quad_b(ray)), fx_sqrt(self.discriminant(ray))), self.quad_a(ray))
    }

    /// What the intersection query returns: when the discriminant is
    /// positive, the record for the nearer root if it lies strictly inside
    /// `(t_min, t_max)`, else for the farther root under the same test,
    /// else nothing.
    pub open spec fn spec_hit(self, ray: Ray, t_min: i64, t_max: i64) -> Option<HitRecord> {
        if self.discriminant(ray) > 0 {
            if t_min < self.root_near(ray) && self.root_near(ray) < t_max {
                Some(HitRecord::spec_record_hit(self.root_near(ray), ray, self))
            } else if t_min < self.root_far(ray) && self.root_far(ray) < t_max {
                Some(HitRecord::spec_record_hit(self.root_far(ray), ray, self))
            } else {
                None
            }
        } else {
            None
        }
    }

    /// The intersection query, exactly as `spec_hit` describes it.  All
    /// arithmetic is total fixed-point arithmetic, so degenerate rays
    /// cannot produce an undefined comparison: a zero direction makes both
    /// root divisions zero and the window test rejects them.
    pub fn hit(&self, ray: &Ray, t_min: i64, t_max: i64) -> (r: Option<HitRecord>)
        ensures
            r == self.spec_hit(*ray, t_min, t_max),
    {
        let oc = ray.origin.sub(self.center);
        let a = ray.direction.dot(ray.direction);
        let b = oc.dot(ray.direction);
        let c = fx_sub(oc.dot(oc), fx_mul(self.radius, self.radius));
        let discriminant = fx_sub(fx_mul(b, b), fx_mul(a, c));

        if discriminant > 0 {
            let sq = fx_sqrt(discriminant);
            let temp = fx_div(fx_sub(fx_sub(0, b), sq), a);
            if t_min < temp && temp < t_max {
                return Some(HitRecord::record_hit(temp, ray, self));
            }

            let temp = fx_div(fx_add(fx_sub(0, b), sq), a);
            if t_min < temp && temp < t_max {
                return Some(HitRecord::record_hit(temp, ray, self));
            }
        }

        None
    }
}

impl Hitable for Sphere {
    fn hit(&self, ray: &Ray, t_min: i64, t_max: i64) -> Option<HitRecord> {
        Sphere::hit(self, ray, t_min, t_max)
    }
}

/// A positive value times the negated fixed-point one is its exact
/// negation.
proof fn lemma_fx_mul_neg_unit(v: i64)
    requires
        0 < v <= 67108864,
    ensures
        fx_mul(v, -65536i64) == (-v) as i64,
{
    let si = crate::fixed::SCALE as int;
    crate::fixed::lemma_iabs_mul(v as int, -65536);
    assert(crate::fixed::iabs(-65536int) == si);
    assert((v as int) * (-65536int) < 0) by (nonlinear_arith)
        requires v > 0;
    assert(crate::fixed::iabs((v as int) * (-65536)) == (v as int) * si);
    assert(((si * (v as int))) / si == v as int) by {
        vstd::arithmetic::div_mod::lemma_div_multiples_vanish(v as int, si);
    }
    assert((v as int) * si == si * (v as int)) by (nonlinear_arith);
}

/// For a ray fired straight along the axis at a sphere's center from
/// outside, the hit normal is exactly antiparallel to the ray direction
/// (both lateral components vanish and the axial component is
/// positive), and the hit point lies on the sphere's surface up to the
/// rounding of the square roots: its distance from the center is within
/// two units in the last place of the radius.  The coordinate bounds
/// keep the fixed-point intermediates exact.
pub proof fn lemma_center_aimed_hit(c: i64, r: i64, m: MaterialTypes, t_min: i64, t_max: i64)
    requires
        32770 <= r < c <= 1048576,
        0 <= t_min < c - r,
        c - r + 1 < t_max,
    ensures
        ({
            let s = Sphere::spec_new(crate::vec3::Vec3::spec_new(0, 0, (-c) as i64), r, m);
            let ray = Ray::spec_new(
                crate::vec3::Vec3::spec_new(0, 0, 0),
                crate::vec3::Vec3::spec_new(0, 0, -65536i64),
            );
            &&& s.spec_hit(ray, t_min, t_max) is Some
            &&& (s.spec_hit(ray, t_min, t_max)->0).normal.x == 0
            &&& (s.spec_hit(ray, t_min, t_max)->0).normal.y == 0
            &&& (s.spec_hit(ray, t_min, t_max)->0).normal.z > 0
            &&& crate::fixed::iabs(
                (s.spec_hit(ray, t_min, t_max)->0).p.spec_sub(s.center).spec_length() - r,
            ) <= 2
        }),
{
    let si = crate::fixed::SCALE as int;
    let s = Sphere::spec_new(crate::vec3::Vec3::spec_new(0, 0, (-c) as i64), r, m);
    let ray = Ray::spec_new(
        crate::vec3::Vec3::spec_new(0, 0, 0),
        crate::vec3::Vec3::spec_new(0, 0, -65536i64),
    );
    crate::fixed::lemma_fx_mul_zero(0);
    assert(s.oc(ray) == crate::vec3::Vec3::spec_new(0, 0, c));

    // a = dot(direction, direction) = 1
    assert(fx_mul(-65536i64, -65536i64) == 65536) by {
        crate::fixed::lemma_iabs_mul(-65536, -65536);
        assert((-65536int) * (-65536int) > 0) by (nonlinear_arith);
        assert(crate::fixed::iabs((-65536int) * (-65536int)) == si * si);
        assert((si * si) / si == si) by {
            vstd::arithmetic::div_mod::lemma_div_multiples_vanish(si, si);
        }
    }
    assert(s.quad_a(ray) == 65536i64);

    // b = dot(oc, direction) = -c
    lemma_fx_mul_neg_unit(c);
    assert(s.quad_b(ray) == (-c) as i64);

    // c = dot(oc, oc) - r^2, and the discriminant collapses to r^2
    let c2 = fx_mul(c, c);
    let r2 = fx_mul(r, r);
    crate::fixed::lemma_square_bounds(c);
    crate::fixed::lemma_square_bounds(r);
    assert(s.quad_c(ray) == (c2 - r2) as i64);
    assert(fx_mul((-c) as i64, (-c) as i64) == c2) by {
        assert(((-c) as i64) as int == -(c as int));
        assert((-(c as int)) * (-(c as int)) == (c as int) * (c as int)) by (nonlinear_arith);
    }
    crate::fixed::lemma_fx_mul_one((c2 - r2) as i64);
    assert(s.discriminant(ray) == r2);

    // sqrt of the discriminant brackets the radius
    crate::fixed::lemma_fx_sqrt_of_square(r);
    let sq = fx_sqrt(r2);
    assert(r - 1 <= sq <= r);
    assert(r2 > 0);

    // near root: t = c - sqrt(disc), inside the window
    assert(fx_sub(fx_sub(0, (-c) as i64), sq) == (c - sq) as i64);
    assert(fx_div((c - sq) as i64, 65536i64) == (c - sq) as i64) by {
        let x = (c - sq) as int;
        crate::fixed::lemma_iabs_mul(x, si);
        assert(x > 0);
        assert(x * si > 0) by (nonlinear_arith)
            requires x > 0, si > 0;
        assert(crate::fixed::iabs(x * si) == x * si);
        assert((si * x) / si == x) by {
            vstd::arithmetic::div_mod::lemma_div_multiples_vanish(x, si);
        }
        assert(x * si == si * x) by (nonlinear_arith);
    }
    let t1 = (c - sq) as i64;
    assert(s.root_near(ray) == t1);
    assert(t_min < t1 && t1 < t_max);
    assert(s.spec_hit(ray, t_min, t_max) == Some(HitRecord::spec_record_hit(t1, ray, s)));

    // the hit point is on the axis, the normal is purely axial
    crate::fixed::lemma_fx_mul_zero(t1);
    lemma_fx_mul_neg_unit(t1);
    let p = ray.spec_at(t1);
    assert(p == crate::vec3::Vec3::spec_new(0, 0, (-t1) as i64));
    let off = p.spec_sub(s.center);
    assert(off == crate::vec3::Vec3::spec_new(0, 0, sq));
    let rec = HitRecord::spec_record_hit(t1, ray, s);
    assert(rec.normal.x == fx_div(0, r) && rec.normal.y == fx_div(0, r));
    assert(fx_div(0, r) == 0) by {
        assert(0int * si == 0) by (nonlinear_arith);
        vstd::arithmetic::div_mod::lemma_div_of0(r as int);
    }
    assert(rec.normal.z == fx_div(sq, r));
    assert(fx_div(sq, r) >= 1) by {
        crate::fixed::lemma_iabs_mul(sq as int, si);
        assert((sq as int) * si > 0) by (nonlinear_arith)
            requires sq > 0, si > 0;
        assert(crate::fixed::iabs((sq as int) * si) == (sq as int) * si);
        assert((sq as int) * si >= r as int) by (nonlinear_arith)
            requires sq as int >= r as int - 1, r >= 2, si == 65536;
        vstd::arithmetic::div_mod::lemma_div_is_ordered(r as int, (sq as int) * si, r as int);
        assert((r as int) / (r as int) == 1) by {
            vstd::arithmetic::div_mod::lemma_div_multiples_vanish(1int, r as int);
            assert((r as int) * 1 == r as int) by (nonlinear_arith);
        }
    }

    // the hit point sits on the surface up to rounding
    crate::fixed::lemma_square_bounds(sq);
    assert(off.spec_squared_length() == fx_mul(sq, sq));
    crate::fixed::lemma_fx_sqrt_of_square(sq);
    assert(sq - 1 <= off.spec_length() <= sq);
}

/// A ray whose discriminant against a sphere is positive but whose two
/// roots both lie outside the acceptance window is a miss.
pub proof fn lemma_hit_none_outside_window(s: Sphere, ray: Ray, t_min: i64, t_max: i64)
    requires
        s.discriminant(ray) > 0,
        !(t_min < s.root_near(ray) && s.root_near(ray) < t_max),
        !(t_min < s.root_far(ray) && s.root_far(ray) < t_max),
    ensures
        s.spec_hit(ray, t_min, t_max) is None,
{
}

} // verus!
