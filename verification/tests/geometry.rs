use raytrace::fixed::{fx_add, fx_div, fx_mul, fx_sqrt, fx_sub, ONE, HALF, TWO};
use raytrace::hitable_list::HitableList;
use raytrace::material::{Lambertian, MaterialTypes};
use raytrace::ray::Ray;
use raytrace::sphere::Sphere;
use raytrace::vec3::Vec3;

fn gray_sphere(center: Vec3, radius: i64) -> Sphere {
    Sphere::new(
        center,
        radius,
        MaterialTypes::L(Lambertian::new(Vec3::new(HALF, HALF, HALF))),
    )
}

#[test]
fn fixed_point_arithmetic_exact_values() {
    assert_eq!(fx_mul(HALF, HALF), 16384);
    assert_eq!(fx_mul(ONE, 12345), 12345);
    assert_eq!(fx_mul(-HALF, HALF), -16384);
    assert_eq!(fx_div(ONE, TWO), HALF);
    assert_eq!(fx_div(-ONE, TWO), -HALF);
    assert_eq!(fx_div(ONE, 0), 0);
    assert_eq!(fx_add(i64::MAX, 1), i64::MAX);
    assert_eq!(fx_sub(i64::MIN, 1), i64::MIN);
    assert_eq!(fx_sqrt(4 * ONE), 2 * ONE);
    assert_eq!(fx_sqrt(ONE), ONE);
    assert_eq!(fx_sqrt(-5), 0);
}

#[test]
fn vector_operations() {
    let a = Vec3::new(ONE, 2 * ONE, 3 * ONE);
    let b = Vec3::new(-ONE, HALF, 0);
    assert_eq!(a.add(b), Vec3::new(0, 2 * ONE + HALF, 3 * ONE));
    assert_eq!(a.sub(b), Vec3::new(2 * ONE, ONE + HALF, 3 * ONE));
    assert_eq!(a.dot(b), -ONE + ONE);
    assert_eq!(
        a.cross(b),
        Vec3::new(-(ONE + HALF), -3 * ONE, 2 * ONE + HALF)
    );
    assert_eq!(a.scale(TWO), Vec3::new(2 * ONE, 4 * ONE, 6 * ONE));
    let unit = Vec3::new(3 * ONE, 4 * ONE, 0).unit_vector();
    // length 5: components 3/5 and 4/5
    assert_eq!(unit, Vec3::new(39321, 52428, 0));
}

#[test]
fn ray_point_at_parameter() {
    let r = Ray::new(Vec3::new(ONE, 0, 0), Vec3::new(0, 0, -ONE));
    assert_eq!(r.point_at_parameter(2 * ONE), Vec3::new(ONE, 0, -2 * ONE));
}

// A ray down the negative z axis against a unit sphere at z = -3:
// roots t = 2 and t = 4.
fn axis_scene() -> (Sphere, Ray) {
    let s = gray_sphere(Vec3::new(0, 0, -3 * ONE), ONE);
    let r = Ray::new(Vec3::new(0, 0, 0), Vec3::new(0, 0, -ONE));
    (s, r)
}

#[test]
fn hit_returns_none_when_both_roots_outside_window() {
    // Discriminant is positive (roots 2 and 4) but the window ends at 1.
    let (s, r) = axis_scene();
    assert!(s.hit(&r, 66, ONE).is_none());
    // ... and a window strictly between the roots also rejects both.
    assert!(s.hit(&r, 150000, 250000).is_none());
}

#[test]
fn hit_near_root_and_record_fields() {
    let (s, r) = axis_scene();
    let rec = s.hit(&r, 66, i64::MAX).expect("ray aimed at sphere must hit");
    assert_eq!(rec.t, 2 * ONE);
    assert_eq!(rec.p, Vec3::new(0, 0, -2 * ONE));
    // The normal at the intersection is parallel to the negated ray
    // direction, exactly unit length here.
    assert_eq!(rec.normal, Vec3::new(0, 0, ONE));
    // |hitPoint - center| equals the radius exactly in this geometry.
    assert_eq!(rec.p.sub(Vec3::new(0, 0, -3 * ONE)).length(), ONE);
}

#[test]
fn hit_far_root_uses_square_root_of_discriminant() {
    let (s, r) = axis_scene();
    // Window excludes the near root t = 2, so the far root must be found.
    let rec = s.hit(&r, 150000, i64::MAX).expect("far root lies in window");
    // Independently computed reference: a = 1, b = -3, disc = 9 - 8 = 1,
    // far root (3 + sqrt(1)) / 1 = 4.
    let b: i128 = -3 * 65536;
    let sqrt_disc: i128 = 65536;
    let a: i128 = 65536;
    let expected = ((-b + sqrt_disc) * 65536 / a) as i64;
    assert_eq!(expected, 4 * ONE);
    assert_eq!(rec.t, expected);
}

#[test]
fn hit_zero_direction_is_rejected() {
    let s = gray_sphere(Vec3::new(0, 0, -3 * ONE), ONE);
    let r = Ray::new(Vec3::new(0, 0, 0), Vec3::new(0, 0, 0));
    assert!(s.hit(&r, 66, i64::MAX).is_none());
}

#[test]
fn list_returns_nearest_hit() {
    let near = gray_sphere(Vec3::new(0, 0, -3 * ONE), ONE);
    let far = gray_sphere(Vec3::new(0, 0, -6 * ONE), ONE);
    let world = HitableList::new(vec![far, near]);
    let r = Ray::new(Vec3::new(0, 0, 0), Vec3::new(0, 0, -ONE));
    let rec = world.hit(&r, 66, i64::MAX).expect("both spheres on the ray");
    assert_eq!(rec.t, 2 * ONE);
    let world2 = HitableList::new(vec![near, far]);
    let rec2 = world2.hit(&r, 66, i64::MAX).expect("both spheres on the ray");
    assert_eq!(rec2.t, 2 * ONE);
}

#[test]
fn empty_list_misses() {
    let world = HitableList::new(Vec::new());
    let r = Ray::new(Vec3::new(0, 0, 0), Vec3::new(0, 0, -ONE));
    assert!(world.hit(&r, 66, i64::MAX).is_none());
}
