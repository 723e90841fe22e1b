//! The closed set of surface materials and their scatter behavior.
//!
//! Scattering is split in two layers: a deterministic core with an exact
//! contract, taking the random samples as arguments, and a sampling
//! wrapper that draws the samples and states what holds of every outcome.

use vstd::prelude::*;
use crate::fixed::{fx_add, fx_sub, fx_mul, fx_div, fx_sqrt, ONE, TWO, clamp01};
use crate::fixed::{lemma_fx_mul_zero, lemma_fx_mul_mono, lemma_fx_mul_unit};
use crate::hitable::HitRecord;
use crate::ray::Ray;
use crate::rng::{random_unit, random_in_unit_sphere};
use crate::vec3::{Vec3, in_unit_box};

verus! {

/// The reflection of `v` about the normal `n`: `v - 2 * dot(v, n) * n`.
pub open spec fn spec_reflect(v: Vec3, n: Vec3) -> Vec3 {
    v.spec_sub(n.spec_scale(fx_mul(TWO, v.spec_dot(n))))
}

/// Mirror reflection about a surface normal.
pub fn reflect(v: &Vec3, n: &Vec3) -> (r: Vec3)
    ensures
        r == spec_reflect(*v, *n),
{
    v.sub(n.scale(fx_mul(TWO, v.dot(*n))))
}

/// What refraction returns: with `uv` the unit incoming direction and
/// `dt = dot(uv, n)`, the refraction discriminant is
/// `1 - ratio^2 * (1 - dt^2)`; when it is positive the refracted direction
/// is `ratio * (uv - n * dt) - n * sqrt(disc)`, else refraction is
/// impossible (total internal reflection).
pub open spec fn spec_refract(v: Vec3, n: Vec3, ni_over_nt: i64) -> Option<Vec3> {
    let uv = v.spec_unit();
    let dt = uv.spec_dot(n);
    let disc = fx_sub(ONE, fx_mul(fx_mul(ni_over_nt, ni_over_nt), fx_sub(ONE, fx_mul(dt, dt))));
    if disc > 0 {
        Some(uv.spec_sub(n.spec_scale(dt)).spec_scale(ni_over_nt).spec_sub(n.spec_scale(fx_sqrt(disc))))
    } else {
        None
    }
}

/// Snell refraction in vector form, `None` on total internal reflection.
pub fn refract(v: &Vec3, n: &Vec3, ni_over_nt: i64) -> (r: Option<Vec3>)
    ensures
        r == spec_refract(*v, *n, ni_over_nt),
{
    let uv = v.unit_vector();
    let dt = uv.dot(*n);
    let disc = fx_sub(ONE, fx_mul(fx_mul(ni_over_nt, ni_over_nt), fx_sub(ONE, fx_mul(dt, dt))));
    if disc > 0 {
        Some(uv.sub(n.scale(dt)).scale(ni_over_nt).sub(n.scale(fx_sqrt(disc))))
    } else {
        None
    }
}

/// A diffuse surface: scatters toward the normal offset by a random point
/// in the unit sphere; never absorbs.
#[derive(Clone, Copy, PartialEq, Eq, Structural, Debug)]
pub struct Lambertian {
    pub albedo: Vec3,
}

impl Lambertian {
    pub fn new(albedo: Vec3) -> (r: Lambertian)
        ensures
            r.albedo == albedo,
    {
        Lambertian { albedo }
    }

    /// Diffuse scatter: always `Some`, attenuated by the albedo, leaving
    /// from the hit point toward the normal plus a point strictly inside
    /// the unit sphere.
    pub fn scatter(&self, _r_in: &Ray, rec: &HitRecord) -> (r: Option<(Vec3, Ray)>)
        ensures
            r is Some,
            (r->0).0 == self.albedo,
            (r->0).1.origin == rec.p,
            exists|s: Vec3| #[trigger] s.spec_squared_length() < ONE
                && (r->0).1.direction == rec.normal.spec_add(s),
    {
        let s = random_in_unit_sphere();
        let scattered = Ray::new(rec.p, rec.normal.add(s));
        proof {
            assert(s.spec_squared_length() < ONE && scattered.direction == rec.normal.spec_add(s));
        }
        Some((self.albedo, scattered))
    }
}

/// A specular surface with roughness: reflects the incoming direction and
/// perturbs it by `fuzz` times a random point in the unit sphere; absorbs
/// when the perturbed direction points into the surface.
#[derive(Clone, Copy, PartialEq, Eq, Structural, Debug)]
pub struct Metal {
    pub albedo: Vec3,
    pub fuzz: i64,
}

impl Metal {
    /// The roughness parameter is clamped into `[0, 1]` at construction.
    pub fn new(albedo: Vec3, f: i64) -> (r: Metal)
        ensures
            r.albedo == albedo,
            r.fuzz == clamp01(f),
    {
        Metal { albedo, fuzz: clamp01(f) }
    }

    /// The perturbed specular direction for the fuzz sample `f`.
    pub open spec fn spec_scatter_dir(self, r_in: Ray, rec: HitRecord, f: Vec3) -> Vec3 {
        spec_reflect(r_in.direction.spec_unit(), rec.normal).spec_add(f.spec_scale(self.fuzz))
    }

    /// What metal scatter returns for the fuzz sample `f`: `Some` exactly
    /// when the perturbed direction leaves the surface, i.e. its dot
    /// product with the normal is positive; absorbed (`None`) otherwise.
    pub open spec fn spec_scatter_outcome(self, r_in: Ray, rec: HitRecord, f: Vec3) -> Option<
        (Vec3, Ray),
    > {
        let d = self.spec_scatter_dir(r_in, rec, f);
        if d.spec_dot(rec.normal) > 0 {
            Some((self.albedo, Ray::spec_new(rec.p, d)))
        } else {
            None
        }
    }

    /// The deterministic scatter core, with the fuzz sample as an
    /// argument: returns `None` exactly when the scattered direction does
    /// not leave the surface.
    pub fn scatter_with(&self, r_in: &Ray, rec: &HitRecord, f: Vec3) -> (r: Option<(Vec3, Ray)>)
        ensures
            r == self.spec_scatter_outcome(*r_in, *rec, f),
            (r is Some) <==> self.spec_scatter_dir(*r_in, *rec, f).spec_dot(rec.normal) > 0,
    {
        let reflected = reflect(&r_in.direction.unit_vector(), &rec.normal);
        let scattered = Ray::new(rec.p, reflected.add(f.scale(self.fuzz)));
        if scattered.direction.dot(rec.normal) > 0 {
            Some((self.albedo, scattered))
        } else {
            None
        }
    }

    /// Metal scatter: the outcome for some fuzz sample strictly inside the
    /// unit sphere.  With `fuzz == 0` the perturbation vanishes and the
    /// reflection is deterministic: the outcome is that of the zero
    /// sample, whose direction is exactly the mirror reflection.
    pub fn scatter(&self, r_in: &Ray, rec: &HitRecord) -> (r: Option<(Vec3, Ray)>)
        ensures
            r is Some ==> (r->0).0 == self.albedo && (r->0).1.origin == rec.p,
            exists|f: Vec3| #[trigger] f.spec_squared_length() < ONE
                && r == self.spec_scatter_outcome(*r_in, *rec, f),
            self.fuzz == 0 ==> r == self.spec_scatter_outcome(*r_in, *rec, Vec3::spec_zero()),
    {
        let f = random_in_unit_sphere();
        let r = self.scatter_with(r_in, rec, f);
        proof {
            assert(f.spec_squared_length() < ONE && r == self.spec_scatter_outcome(*r_in, *rec, f));
            if self.fuzz == 0 {
                lemma_fx_mul_zero(f.x);
                lemma_fx_mul_zero(f.y);
                lemma_fx_mul_zero(f.z);
                lemma_fx_mul_zero(0);
                assert(f.spec_scale(0) == Vec3::spec_zero().spec_scale(0));
                assert(self.spec_scatter_dir(*r_in, *rec, f)
                    == self.spec_scatter_dir(*r_in, *rec, Vec3::spec_zero()));
            }
        }
        r
    }
}

/// A clear refractive surface (glass, water): always scatters, splitting
/// between reflection and refraction by Schlick's approximation.
#[derive(Clone, Copy, PartialEq, Eq, Structural, Debug)]
pub struct Dielectric {
    pub ref_idx: i64,
}

/// The Schlick base reflectance `r0 = ((1 - ri) / (1 + ri))^2`.
pub open spec fn spec_schlick_r0(ri: i64) -> i64 {
    let r0a = fx_div(fx_sub(ONE, ri), fx_add(ONE, ri));
    fx_mul(r0a, r0a)
}

/// Schlick's reflectance approximation
/// `r0 + (1 - r0) * (1 - cosine)^5`.
pub open spec fn spec_schlick(ri: i64, cosine: i64) -> i64 {
    let r0 = spec_schlick_r0(ri);
    let x = fx_sub(ONE, cosine);
    let x2 = fx_mul(x, x);
    let x4 = fx_mul(x2, x2);
    let x5 = fx_mul(x4, x);
    fx_add(r0, fx_mul(fx_sub(ONE, r0), x5))
}

impl Dielectric {
    pub fn new(ref_idx: i64) -> (r: Dielectric)
        ensures
            r.ref_idx == ref_idx,
    {
        Dielectric { ref_idx }
    }

    /// Schlick's reflectance; at `cosine == 1` (incidence parallel to the
    /// normal) it is exactly the base reflectance `r0`.
    pub fn schlick(&self, cosine: i64) -> (r: i64)
        ensures
            r == spec_schlick(self.ref_idx, cosine),
            cosine == ONE ==> r == spec_schlick_r0(self.ref_idx),
    {
        let r0a = fx_div(fx_sub(ONE, self.ref_idx), fx_add(ONE, self.ref_idx));
        let r0 = fx_mul(r0a, r0a);
        let x = fx_sub(ONE, cosine);
        let x2 = fx_mul(x, x);
        let x4 = fx_mul(x2, x2);
        let x5 = fx_mul(x4, x);
        proof {
            if cosine == ONE {
                lemma_fx_mul_zero(0);
                lemma_fx_mul_zero(fx_sub(ONE, r0));
            }
        }
        fx_add(r0, fx_mul(fx_sub(ONE, r0), x5))
    }

    /// The scattered ray for the reflectance sample `u` in `[0, 1)`:
    /// refraction when possible and the sample falls below the Schlick
    /// reflectance, reflection otherwise (always, on total internal
    /// reflection, since every sample is below a reflectance of one).
    pub open spec fn spec_scatter_ray(self, r_in: Ray, rec: HitRecord, u: i64) -> Ray {
        let reflected = spec_reflect(r_in.direction, rec.normal);
        let dp = r_in.direction.spec_dot(rec.normal);
        let outward = if dp > 0 { rec.normal.spec_neg() } else { rec.normal };
        let ni_over_nt = if dp > 0 { self.ref_idx } else { fx_div(ONE, self.ref_idx) };
        let cosine = if dp > 0 {
            fx_div(fx_mul(self.ref_idx, dp), r_in.direction.spec_length())
        } else {
            fx_div(fx_sub(0, dp), r_in.direction.spec_length())
        };
        match spec_refract(r_in.direction, outward, ni_over_nt) {
            Some(refracted) => if u < spec_schlick(self.ref_idx, cosine) {
                Ray::spec_new(rec.p, reflected)
            } else {
                Ray::spec_new(rec.p, refracted)
            },
            None => Ray::spec_new(rec.p, reflected),
        }
    }

    /// The deterministic scatter core, with the reflectance sample as an
    /// argument: always `Some`, with neutral attenuation.
    pub fn scatter_with(&self, r_in: &Ray, rec: &HitRecord, u: i64) -> (r: Option<(Vec3, Ray)>)
        requires
            0 <= u < ONE,
        ensures
            r == Some((Vec3::spec_new(ONE, ONE, ONE), self.spec_scatter_ray(*r_in, *rec, u))),
    {
        let reflected = reflect(&r_in.direction, &rec.normal);
        let attenuation = Vec3::new(ONE, ONE, ONE);

        let dp = r_in.direction.dot(rec.normal);
        let (ni_over_nt, outward_normal, cosine) = if dp > 0 {
            let cosine = fx_div(fx_mul(self.ref_idx, dp), r_in.direction.length());
            (self.ref_idx, rec.normal.neg(), cosine)
        } else {
            let cosine = fx_div(fx_sub(0, dp), r_in.direction.length());
            (fx_div(ONE, self.ref_idx), rec.normal, cosine)
        };

        let scattered = match refract(&r_in.direction, &outward_normal, ni_over_nt) {
            Some(refracted) => {
                if u < self.schlick(cosine) {
                    Ray::new(rec.p, reflected)
                } else {
                    Ray::new(rec.p, refracted)
                }
            },
            None => Ray::new(rec.p, reflected),
        };

        Some((attenuation, scattered))
    }

    /// Dielectric scatter: always `Some` (the surface never absorbs), the
    /// attenuation is always the neutral color, and the ray leaves from
    /// the hit point as the reflectance sample decides.
    pub fn scatter(&self, r_in: &Ray, rec: &HitRecord) -> (r: Option<(Vec3, Ray)>)
        ensures
            r is Some,
            (r->0).0 == Vec3::spec_new(ONE, ONE, ONE),
            (r->0).1.origin == rec.p,
            exists|u: i64| 0 <= u < ONE && r == Some(
                (Vec3::spec_new(ONE, ONE, ONE), #[trigger] self.spec_scatter_ray(*r_in, *rec, u)),
            ),
    {
        let u = random_unit();
        let r = self.scatter_with(r_in, rec, u);
        proof {
            assert(0 <= u < ONE && r == Some(
                (Vec3::spec_new(ONE, ONE, ONE), self.spec_scatter_ray(*r_in, *rec, u)),
            ));
        }
        r
    }
}

/// The closed set of materials, dispatched by pattern match.
#[derive(Clone, Copy, PartialEq, Eq, Structural, Debug)]
pub enum MaterialTypes {
    D(Dielectric),
    L(Lambertian),
    M(Metal),
}

impl MaterialTypes {
    /// The attenuation a successful scatter applies: the albedo for
    /// diffuse and metal surfaces, the neutral color for dielectrics.
    pub open spec fn spec_attenuation(self) -> Vec3 {
        match self {
            MaterialTypes::D(_) => Vec3::spec_new(ONE, ONE, ONE),
            MaterialTypes::L(l) => l.albedo,
            MaterialTypes::M(m) => m.albedo,
        }
    }

    /// A well-formed material has its albedo in the unit color box, its
    /// fuzz in `[0, 1]`, and a positive refractive index.
    pub open spec fn wf(self) -> bool {
        match self {
            MaterialTypes::D(d) => d.ref_idx > 0,
            MaterialTypes::L(l) => in_unit_box(l.albedo),
            MaterialTypes::M(m) => in_unit_box(m.albedo) && 0 <= m.fuzz <= ONE,
        }
    }

    /// Scatter, dispatched to the variant: diffuse and dielectric
    /// surfaces never absorb; every scattered ray leaves from the hit
    /// point with the variant's attenuation; and each variant's own
    /// outcome shape carries through the dispatch.
    pub fn scatter(&self, r_in: &Ray, rec: &HitRecord) -> (r: Option<(Vec3, Ray)>)
        ensures
            (self matches MaterialTypes::L(_)) ==> r is Some,
            (self matches MaterialTypes::D(_)) ==> r is Some,
            r is Some ==> (r->0).0 == self.spec_attenuation() && (r->0).1.origin == rec.p,
            self matches MaterialTypes::L(_) ==> exists|s: Vec3|
                #[trigger] s.spec_squared_length() < ONE && (r->0).1.direction
                    == rec.normal.spec_add(s),
            self matches MaterialTypes::M(met) ==> (exists|f: Vec3|
                #[trigger] f.spec_squared_length() < ONE && r == met.spec_scatter_outcome(
                    *r_in,
                    *rec,
                    f,
                )) && (met.fuzz == 0 ==> r == met.spec_scatter_outcome(
                *r_in,
                *rec,
                Vec3::spec_zero(),
            )),
            self matches MaterialTypes::D(diel) ==> exists|u: i64|
                0 <= u < ONE && r == Some(
                    (
                        Vec3::spec_new(ONE, ONE, ONE),
                        #[trigger] diel.spec_scatter_ray(*r_in, *rec, u),
                    ),
                ),
    {
        match self {
            MaterialTypes::D(diel) => diel.scatter(r_in, rec),
            MaterialTypes::L(lamb) => lamb.scatter(r_in, rec),
            MaterialTypes::M(met) => met.scatter(r_in, rec),
        }
    }
}

/// A well-formed material attenuates by a color in the unit box.
pub proof fn lemma_wf_attenuation(m: MaterialTypes)
    requires
        m.wf(),
    ensures
        in_unit_box(m.spec_attenuation()),
{
}

/// The scatter capability, shared by every material.  The contracts live
/// on the inherent `scatter` methods of the variants.
pub trait Material {
    fn scatter(&self, r_in: &Ray, rec: &HitRecord) -> Option<(Vec3, Ray)>;
}

impl Material for Lambertian {
    fn scatter(&self, r_in: &Ray, rec: &HitRecord) -> Option<(Vec3, Ray)> {
        Lambertian::scatter(self, r_in, rec)
    }
}

impl Material for Metal {
    fn scatter(&self, r_in: &Ray, rec: &HitRecord) -> Option<(Vec3, Ray)> {
        Metal::scatter(self, r_in, rec)
    }
}

impl Material for Dielectric {
    fn scatter(&self, r_in: &Ray, rec: &HitRecord) -> Option<(Vec3, Ray)> {
        Dielectric::scatter(self, r_in, rec)
    }
}

impl Material for MaterialTypes {
    fn scatter(&self, r_in: &Ray, rec: &HitRecord) -> Option<(Vec3, Ray)> {
        MaterialTypes::scatter(self, r_in, rec)
    }
}

/// Schlick's reflectance never decreases as the cosine of incidence
/// falls from 1 toward 0: grazing rays reflect at least as much as
/// direct ones.  The bound on the refractive index keeps the fixed-point
/// intermediates away from saturation.
pub proof fn lemma_schlick_monotone(ri: i64, c1: i64, c2: i64)
    requires
        0 < ri <= i64::MAX - ONE,
        0 <= c1 <= c2 <= ONE,
    ensures
        spec_schlick(ri, c2) <= spec_schlick(ri, c1),
{
    let r0 = spec_schlick_r0(ri);
    lemma_schlick_r0_range(ri);

    let x1 = fx_sub(ONE, c1);
    let x2 = fx_sub(ONE, c2);
    assert(0 <= x2 <= x1 <= ONE);
    let p1a = fx_mul(x1, x1);
    let p2a = fx_mul(x2, x2);
    lemma_fx_mul_mono(x2, x2, x1, x1);
    lemma_fx_mul_unit(x1, x1);
    let p1b = fx_mul(p1a, p1a);
    let p2b = fx_mul(p2a, p2a);
    lemma_fx_mul_mono(p2a, p2a, p1a, p1a);
    lemma_fx_mul_unit(p1a, p1a);
    let p1 = fx_mul(p1b, x1);
    let p2 = fx_mul(p2b, x2);
    lemma_fx_mul_mono(p2b, x2, p1b, x1);
    lemma_fx_mul_unit(p1b, x1);
    assert(0 <= p2 <= p1 <= ONE);

    lemma_fx_mul_mono(fx_sub(ONE, r0), p2, fx_sub(ONE, r0), p1);
}

/// The Schlick base reflectance of a positive refractive index lies in
/// `[0, 1]`.
pub proof fn lemma_schlick_r0_range(ri: i64)
    requires
        0 < ri <= i64::MAX - ONE,
    ensures
        0 <= spec_schlick_r0(ri) <= ONE,
{
    let num = fx_sub(ONE, ri);
    let den = fx_add(ONE, ri);
    assert(den == ONE + ri);
    assert(num == ONE - ri);
    assert(crate::fixed::iabs(num as int) <= den);
    let r0a = fx_div(num, den);
    lemma_fx_div_small(num, den);
    assert(-ONE <= r0a <= ONE);
    lemma_fx_mul_square_range(r0a);
}

/// Dividing by a larger-magnitude positive divisor keeps the quotient in
/// `[-1, 1]`.
proof fn lemma_fx_div_small(a: i64, b: i64)
    requires
        b > 0,
        crate::fixed::iabs(a as int) <= b,
    ensures
        -ONE <= fx_div(a, b) <= ONE,
{
    let s = crate::fixed::SCALE as int;
    let m = crate::fixed::iabs(a as int);
    crate::fixed::lemma_iabs_mul(a as int, s);
    assert(crate::fixed::iabs((a as int) * s) == m * s);
    assert(m * s <= (b as int) * s) by (nonlinear_arith)
        requires 0 <= m <= b as int, s > 0;
    vstd::arithmetic::div_mod::lemma_div_is_ordered(m * s, (b as int) * s, b as int);
    vstd::arithmetic::div_mod::lemma_div_pos_is_pos(m * s, b as int);
    assert(((b as int) * s) / (b as int) == s) by {
        vstd::arithmetic::div_mod::lemma_div_multiples_vanish(s, b as int);
    }
    assert(0 <= (m * s) / (b as int) <= s);
}

/// The fixed-point square of a value in `[-1, 1]` lies in `[0, 1]`.
proof fn lemma_fx_mul_square_range(a: i64)
    requires
        -ONE <= a <= ONE,
    ensures
        0 <= fx_mul(a, a) <= ONE,
{
    let m = crate::fixed::iabs(a as int);
    assert(m == a as int || m == -(a as int));
    assert((a as int) * (a as int) == m * m) by (nonlinear_arith)
        requires m == a as int || m == -(a as int);
    assert(m * m <= (ONE as int) * (ONE as int)) by (nonlinear_arith)
        requires 0 <= m <= ONE as int;
    vstd::arithmetic::div_mod::lemma_div_is_ordered(m * m, (ONE as int) * (ONE as int), crate::fixed::SCALE as int);
    vstd::arithmetic::div_mod::lemma_div_pos_is_pos(m * m, crate::fixed::SCALE as int);
    assert(((ONE as int) * (ONE as int)) / (crate::fixed::SCALE as int) == ONE as int) by {
        vstd::arithmetic::div_mod::lemma_div_multiples_vanish(ONE as int, crate::fixed::SCALE as int);
    }
}

} // verus!
