use raytrace::fixed::{ONE, HALF};
use raytrace::hitable::HitRecord;
use raytrace::material::{reflect, refract, Dielectric, Lambertian, Metal, MaterialTypes};
use raytrace::ray::Ray;
use raytrace::vec3::Vec3;

fn record_at(p: Vec3, normal: Vec3) -> HitRecord {
    HitRecord {
        t: ONE,
        p,
        normal,
        mat_type: MaterialTypes::L(Lambertian::new(Vec3::new(HALF, HALF, HALF))),
    }
}

#[test]
fn reflect_mirrors_about_normal() {
    let v = Vec3::new(ONE, -ONE, 0);
    let n = Vec3::new(0, ONE, 0);
    assert_eq!(reflect(&v, &n), Vec3::new(ONE, ONE, 0));
}

#[test]
fn refract_straight_through() {
    // Head-on entry: the refracted ray continues along the normal.
    let v = Vec3::new(0, -ONE, 0);
    let n = Vec3::new(0, ONE, 0);
    let r = refract(&v, &n, 43690); // ratio 1/1.5
    assert_eq!(r, Some(Vec3::new(0, -ONE, 0)));
}

#[test]
fn refract_total_internal_reflection() {
    // Grazing incidence with ratio 1.5: the discriminant is negative.
    let v = Vec3::new(ONE, 0, 0);
    let n = Vec3::new(0, ONE, 0);
    assert_eq!(refract(&v, &n, 98304), None);
}

#[test]
fn lambertian_never_absorbs() {
    let albedo = Vec3::new(13107, 26214, 39321);
    let lamb = Lambertian::new(albedo);
    let rec = record_at(Vec3::new(0, 0, -2 * ONE), Vec3::new(0, 0, ONE));
    let r_in = Ray::new(Vec3::new(0, 0, 0), Vec3::new(0, 0, -ONE));
    for _ in 0..50 {
        let (attenuation, scattered) = lamb.scatter(&r_in, &rec).expect("diffuse never absorbs");
        assert_eq!(attenuation, albedo);
        assert_eq!(scattered.origin, rec.p);
        // The scatter target stays within the unit sphere around the normal.
        assert!(scattered.direction.sub(rec.normal).squared_length() < ONE);
    }
}

#[test]
fn metal_zero_fuzz_reflects_deterministically() {
    let met = Metal::new(Vec3::new(45875, 39321, 32768), 0);
    let rec = record_at(Vec3::new(0, 0, 0), Vec3::new(0, ONE, 0));
    let r_in = Ray::new(Vec3::new(-ONE, ONE, 0), Vec3::new(ONE, -ONE, 0));
    let expected = reflect(&r_in.direction.unit_vector(), &rec.normal);
    for _ in 0..20 {
        let (_, scattered) = met.scatter(&r_in, &rec).expect("reflection leaves the surface");
        assert_eq!(scattered.direction, expected);
        assert_eq!(scattered.origin, rec.p);
    }
}

#[test]
fn metal_absorbs_exactly_when_direction_enters_surface() {
    let met = Metal::new(Vec3::new(HALF, HALF, HALF), 0);
    let rec = record_at(Vec3::new(0, 0, 0), Vec3::new(0, ONE, 0));
    // Incoming along the normal: the reflection points back into the
    // surface, dot(scattered, normal) <= 0, so the ray is absorbed.
    let inward = Ray::new(Vec3::new(0, -ONE, 0), Vec3::new(0, ONE, 0));
    assert!(met.scatter_with(&inward, &rec, Vec3::new(0, 0, 0)).is_none());
    // Oblique incidence: the reflection leaves the surface.
    let oblique = Ray::new(Vec3::new(-ONE, ONE, 0), Vec3::new(ONE, -ONE, 0));
    let out = met.scatter_with(&oblique, &rec, Vec3::new(0, 0, 0));
    let (_, scattered) = out.expect("oblique reflection leaves the surface");
    assert!(scattered.direction.dot(rec.normal) > 0);
}

#[test]
fn metal_fuzz_is_clamped() {
    let met = Metal::new(Vec3::new(HALF, HALF, HALF), 3 * ONE);
    assert_eq!(met.fuzz, ONE);
    let met2 = Metal::new(Vec3::new(HALF, HALF, HALF), -ONE);
    assert_eq!(met2.fuzz, 0);
}

#[test]
fn dielectric_never_absorbs_and_attenuation_is_neutral() {
    let diel = Dielectric::new(98304);
    let rec = record_at(Vec3::new(0, 0, -2 * ONE), Vec3::new(0, 0, ONE));
    let r_in = Ray::new(Vec3::new(0, 0, 0), Vec3::new(ONE, 0, -ONE));
    for _ in 0..50 {
        let (attenuation, scattered) = diel.scatter(&r_in, &rec).expect("glass never absorbs");
        assert_eq!(attenuation, Vec3::new(ONE, ONE, ONE));
        assert_eq!(scattered.origin, rec.p);
    }
}

#[test]
fn schlick_at_parallel_incidence_is_r0() {
    let diel = Dielectric::new(98304); // index 1.5
    // r0 = ((1 - 1.5) / (1 + 1.5))^2 = 0.04, in fixed point 2621.
    assert_eq!(diel.schlick(ONE), 2621);
}

#[test]
fn schlick_increases_toward_grazing() {
    let diel = Dielectric::new(98304);
    let mut prev = diel.schlick(ONE);
    let mut cosine = ONE - 4096;
    while cosine >= 0 {
        let cur = diel.schlick(cosine);
        assert!(cur >= prev);
        prev = cur;
        cosine -= 4096;
    }
    assert!(diel.schlick(0) > diel.schlick(ONE));
}

#[test]
fn material_dispatch_matches_variants() {
    let rec = record_at(Vec3::new(0, 0, -2 * ONE), Vec3::new(0, 0, ONE));
    let r_in = Ray::new(Vec3::new(0, 0, 0), Vec3::new(0, 0, -ONE));
    let lamb = MaterialTypes::L(Lambertian::new(Vec3::new(HALF, 0, 0)));
    let (att, _) = lamb.scatter(&r_in, &rec).expect("diffuse never absorbs");
    assert_eq!(att, Vec3::new(HALF, 0, 0));
    let diel = MaterialTypes::D(Dielectric::new(98304));
    let (att, _) = diel.scatter(&r_in, &rec).expect("glass never absorbs");
    assert_eq!(att, Vec3::new(ONE, ONE, ONE));
}
