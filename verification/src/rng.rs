//! Random samples for the Monte Carlo estimator.
//!
//! The only trusted call is the draw of a raw `u64`; everything derived
//! from it (ranges, points in the unit sphere and unit disk) is verified.

use vstd::prelude::*;
use crate::fixed::ONE;
use crate::vec3::Vec3;

verus! {

/// Relies on `rand::random`: a `u64` drawn from the thread-local generator
/// under the `StandardUniform` distribution.  Nothing is promised of the
/// value.
#[verifier::external_body]
fn random_u64() -> u64 {
    rand::random()
}

/// A fixed-point sample in `[0, 1)`.
pub fn random_unit() -> (r: i64)
    ensures
        0 <= r < ONE,
{
    (random_u64() % 65536) as i64
}

/// A fixed-point sample in `[-1, 1)`, as `2 * u - 1` maps `[0, 1)`.
pub fn random_symmetric() -> (r: i64)
    ensures
        -ONE <= r < ONE,
{
    2 * random_unit() - ONE
}

/// A point strictly inside the unit sphere, drawn by rejection from the
/// enclosing cube.  The number of draws is bounded so that the function
/// provably terminates; after that many rejections (astronomically
/// unlikely) the center is used.
pub fn random_in_unit_sphere() -> (r: Vec3)
    ensures
        r.spec_squared_length() < ONE,
{
    let mut tries: u32 = 64;
    while tries > 0
        decreases tries,
    {
        let p = Vec3::new(random_symmetric(), random_symmetric(), random_symmetric());
        if p.squared_length() < ONE {
            return p;
        }
        tries = tries - 1;
    }
    let center = Vec3::zero();
    proof {
        crate::fixed::lemma_fx_mul_zero(0);
    }
    center
}

/// A point strictly inside the unit disk in the `z = 0` plane, drawn by
/// rejection from the enclosing square, with the same bounded retry as
/// the sphere sampler.
pub fn random_in_unit_disk() -> (r: Vec3)
    ensures
        r.spec_squared_length() < ONE,
        r.z == 0,
{
    let mut tries: u32 = 64;
    while tries > 0
        decreases tries,
    {
        let p = Vec3::new(random_symmetric(), random_symmetric(), 0);
        if p.squared_length() < ONE {
            return p;
        }
        tries = tries - 1;
    }
    let center = Vec3::zero();
    proof {
        crate::fixed::lemma_fx_mul_zero(0);
    }
    center
}

} // verus!
