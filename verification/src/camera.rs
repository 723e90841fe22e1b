//! The thin-lens camera: derived viewport state and primary-ray
//! generation.

use vstd::prelude::*;
use crate::fixed::{fx_add, fx_sub, fx_mul, fx_div, ONE, TWO, lemma_fx_mul_zero};
use crate::ray::Ray;
use crate::rng::random_in_unit_disk;
use crate::vec3::Vec3;

verus! {

/// The fixed-point value of pi.
pub const PI_FX: i64 = 205887;

/// The fixed-point value of 180, for degree-to-radian conversion.
pub const DEG_180: i64 = 11796480;

/// The fixed-point values of 6, 24 and 120: the factorials in the series
/// below.
pub const SIX: i64 = 393216;

pub const TWENTY_FOUR: i64 = 1572864;

pub const ONE_TWENTY: i64 = 7864320;

/// What the tangent approximation returns: the quotient of the truncated
/// series `x - x^3/6 + x^5/120` and `1 - x^2/2 + x^4/24`.
pub open spec fn spec_tan(x: i64) -> i64 {
    let x2 = fx_mul(x, x);
    let x3 = fx_mul(x2, x);
    let x5 = fx_mul(fx_mul(x2, x2), x);
    let sin_x = fx_add(fx_sub(x, fx_div(x3, SIX)), fx_div(x5, ONE_TWENTY));
    let cos_x = fx_add(fx_sub(ONE, fx_div(x2, TWO)), fx_div(fx_mul(x2, x2), TWENTY_FOUR));
    fx_div(sin_x, cos_x)
}

/// The tangent by truncated sine and cosine series: accurate for the
/// moderate half-angles a camera's field of view produces.
#[verifier::when_used_as_spec(spec_tan)]
pub fn tan_approx(x: i64) -> (r: i64)
    ensures
        r == spec_tan(x),
{
    let x2 = fx_mul(x, x);
    let x3 = fx_mul(x2, x);
    let x5 = fx_mul(fx_mul(x2, x2), x);
    let sin_x = fx_add(fx_sub(x, fx_div(x3, SIX)), fx_div(x5, ONE_TWENTY));
    let cos_x = fx_add(fx_sub(ONE, fx_div(x2, TWO)), fx_div(fx_mul(x2, x2), TWENTY_FOUR));
    fx_div(sin_x, cos_x)
}

/// The camera's derived, immutable state.
#[derive(Clone, Copy, PartialEq, Eq, Structural, Debug)]
pub struct Camera {
    pub lower_left_corner: Vec3,
    pub horizontal: Vec3,
    pub vertical: Vec3,
    pub origin: Vec3,
    pub lens_radius: i64,
    pub w: Vec3,
    pub u: Vec3,
    pub v: Vec3,
}

impl Camera {
    /// The derived state: the orthonormal basis `(u, v, w)` looks from
    /// `look_from` toward `look_at` with `v_up` overhead; the vertical
    /// field of view (in fixed-point degrees) gives the viewport half
    /// height through the tangent of its half angle; corner and extents
    /// are scaled by the focus distance; the lens radius is half the
    /// aperture.
    pub open spec fn spec_new(
        look_from: Vec3,
        look_at: Vec3,
        v_up: Vec3,
        v_fov: i64,
        aspect: i64,
        aperture: i64,
        focus_dist: i64,
    ) -> Camera {
        let lens_radius = fx_div(aperture, TWO);
        let theta = fx_div(fx_mul(v_fov, PI_FX), DEG_180);
        let half_height = spec_tan(fx_div(theta, TWO));
        let half_width = fx_mul(aspect, half_height);
        let origin = look_from;
        let w = look_from.spec_sub(look_at).spec_unit();
        let u = v_up.spec_cross(w).spec_unit();
        let v = w.spec_cross(u);
        let lower_left_corner = origin.spec_sub(u.spec_scale(fx_mul(half_width, focus_dist)))
            .spec_sub(v.spec_scale(fx_mul(half_height, focus_dist)))
            .spec_sub(w.spec_scale(focus_dist));
        let horizontal = u.spec_scale(fx_mul(fx_mul(TWO, half_width), focus_dist));
        let vertical = v.spec_scale(fx_mul(fx_mul(TWO, half_height), focus_dist));
        Camera { lower_left_corner, horizontal, vertical, origin, lens_radius, w, u, v }
    }

    pub fn new(
        look_from: Vec3,
        look_at: Vec3,
        v_up: Vec3,
        v_fov: i64,
        aspect: i64,
        aperture: i64,
        focus_dist: i64,
    ) -> (r: Camera)
        ensures
            r == Camera::spec_new(look_from, look_at, v_up, v_fov, aspect, aperture, focus_dist),
    {
        let lens_radius = fx_div(aperture, TWO);
        let theta = fx_div(fx_mul(v_fov, PI_FX), DEG_180);
        let half_height = tan_approx(fx_div(theta, TWO));
        let half_width = fx_mul(aspect, half_height);

        let origin = look_from;
        let w = look_from.sub(look_at).unit_vector();
        let u = v_up.cross(w).unit_vector();
        let v = w.cross(u);

        let lower_left_corner = origin.sub(u.scale(fx_mul(half_width, focus_dist))).sub(
            v.scale(fx_mul(half_height, focus_dist)),
        ).sub(w.scale(focus_dist));
        let horizontal = u.scale(fx_mul(fx_mul(TWO, half_width), focus_dist));
        let vertical = v.scale(fx_mul(fx_mul(TWO, half_height), focus_dist));

        Camera { lower_left_corner, horizontal, vertical, origin, lens_radius, w, u, v }
    }

    /// The primary ray for screen coordinates `(s, t)` and the lens
    /// sample `d`: the origin is offset within the lens disk, and the ray
    /// aims at the viewport point `lower_left + s * horizontal +
    /// t * vertical`, corrected for the offset.
    pub open spec fn spec_ray(self, s: i64, t: i64, d: Vec3) -> Ray {
        let rd = d.spec_scale(self.lens_radius);
        let offset = self.u.spec_scale(rd.x).spec_add(self.v.spec_scale(rd.y));
        Ray::spec_new(
            self.origin.spec_add(offset),
            self.lower_left_corner.spec_add(self.horizontal.spec_scale(s)).spec_add(
                self.vertical.spec_scale(t),
            ).spec_sub(self.origin).spec_sub(offset),
        )
    }

    /// A primary ray for `(s, t)`: the ray of some lens sample strictly
    /// inside the unit disk.  With a pinhole camera (zero lens radius)
    /// the sample does not matter and the ray is deterministic.
    pub fn get_ray(&self, s: i64, t: i64) -> (r: Ray)
        ensures
            exists|d: Vec3| #[trigger] d.spec_squared_length() < ONE && d.z == 0 && r
                == self.spec_ray(s, t, d),
            self.lens_radius == 0 ==> r == self.spec_ray(s, t, Vec3::spec_zero()),
    {
        let d = random_in_unit_disk();
        let rd = d.scale(self.lens_radius);
        let offset = self.u.scale(rd.x).add(self.v.scale(rd.y));
        let r = Ray::new(
            self.origin.add(offset),
            self.lower_left_corner.add(self.horizontal.scale(s)).add(self.vertical.scale(t)).sub(
                self.origin,
            ).sub(offset),
        );
        proof {
            assert(d.spec_squared_length() < ONE && d.z == 0 && r == self.spec_ray(s, t, d));
            if self.lens_radius == 0 {
                lemma_fx_mul_zero(d.x);
                lemma_fx_mul_zero(d.y);
                lemma_fx_mul_zero(d.z);
                lemma_fx_mul_zero(0);
                assert(d.spec_scale(0) == Vec3::spec_zero().spec_scale(0));
                assert(r == self.spec_ray(s, t, Vec3::spec_zero()));
            }
        }
        r
    }
}

} // verus!
