use raytrace::camera::Camera;
use raytrace::fixed::{ONE, HALF};
use raytrace::hitable_list::HitableList;
use raytrace::material::{Lambertian, MaterialTypes};
use raytrace::ppm::{parse_ppm, serialize_ppm};
use raytrace::ray::Ray;
use raytrace::render::{average_color, background, color, render, render_pixel, to_pixel, Rgb, MAX_DEPTH, SKY_B, SKY_G, SKY_R};
use raytrace::scene::random_scene;
use raytrace::sphere::Sphere;
use raytrace::vec3::Vec3;

fn empty_world() -> HitableList {
    HitableList::new(Vec::new())
}

#[test]
fn background_hits_gradient_endpoints() {
    // Straight up: the gradient parameter is 1, pure sky blue.
    let up = Ray::new(Vec3::new(0, 0, 0), Vec3::new(0, ONE, 0));
    assert_eq!(color(&up, &empty_world(), 0), Vec3::new(SKY_R, SKY_G, SKY_B));
    // Straight down: the gradient parameter is 0, pure white.
    let down = Ray::new(Vec3::new(0, 0, 0), Vec3::new(0, -ONE, 0));
    assert_eq!(color(&down, &empty_world(), 0), Vec3::new(ONE, ONE, ONE));
}

#[test]
fn background_bounded_between_endpoints() {
    let dirs = [
        Vec3::new(ONE, HALF, -ONE),
        Vec3::new(-3 * ONE, ONE, 7),
        Vec3::new(123, -45678, 9999),
        Vec3::new(0, 0, -ONE),
    ];
    for d in dirs {
        let c = background(&Ray::new(Vec3::new(0, 0, 0), d));
        assert!(SKY_R <= c.x && c.x <= ONE);
        assert!(SKY_G <= c.y && c.y <= ONE);
        assert!(SKY_B <= c.z && c.z <= ONE);
    }
}

#[test]
fn integrator_at_depth_cap_returns_black() {
    let world = HitableList::new(vec![Sphere::new(
        Vec3::new(0, 0, -3 * ONE),
        ONE,
        MaterialTypes::L(Lambertian::new(Vec3::new(HALF, HALF, HALF))),
    )]);
    let r = Ray::new(Vec3::new(0, 0, 0), Vec3::new(0, 0, -ONE));
    assert_eq!(color(&r, &world, MAX_DEPTH), Vec3::new(0, 0, 0));
    assert_eq!(color(&r, &world, MAX_DEPTH + 7), Vec3::new(0, 0, 0));
}

#[test]
fn average_of_constant_samples_is_exact() {
    let c = Vec3::new(19661, 39321, 58982);
    for ns in [1u32, 7, 100] {
        let mut sum = Vec3::zero();
        for _ in 0..ns {
            sum = sum.add(c);
        }
        assert_eq!(average_color(sum, ns), c);
    }
}

#[test]
fn pixel_quantization() {
    // White maps to 255, black to 0, and a quarter (sqrt -> half) to 127.
    assert_eq!(to_pixel(Vec3::new(ONE, 0, 16384)), Rgb { r: 255, g: 0, b: 127 });
    // Values outside [0, 1] are clamped first.
    assert_eq!(to_pixel(Vec3::new(-ONE, 2 * ONE, 0)), Rgb { r: 0, g: 255, b: 0 });
}

// A pinhole camera looking down the negative z axis at a diffuse sphere
// of radius 1/2 centered at the look-at point, six units away.
fn single_sphere_setup() -> (HitableList, Camera) {
    let world = HitableList::new(vec![Sphere::new(
        Vec3::new(0, 0, -6 * ONE),
        HALF,
        MaterialTypes::L(Lambertian::new(Vec3::new(19661, 19661, 19661))),
    )]);
    let cam = Camera::new(
        Vec3::new(0, 0, 0),
        Vec3::new(0, 0, -6 * ONE),
        Vec3::new(0, ONE, 0),
        20 * ONE,
        ONE,
        0,
        ONE,
    );
    (world, cam)
}

#[test]
fn pinhole_camera_ray_is_deterministic() {
    let (_, cam) = single_sphere_setup();
    let a = cam.get_ray(HALF, HALF);
    let b = cam.get_ray(HALF, HALF);
    assert_eq!(a, b);
    assert_eq!(a.origin, Vec3::new(0, 0, 0));
    // The center ray points essentially down the negative z axis.
    assert!(a.direction.z < 0);
    assert!(a.direction.x.abs() < 2000 && a.direction.y.abs() < 2000);
}

#[test]
fn single_sphere_center_pixel_differs_from_corners() {
    let (world, cam) = single_sphere_setup();
    // One sample, 5 by 5 image: the center pixel sees the dark sphere
    // (red at most sqrt(0.3)), the corner pixels see the background
    // gradient (red at least sqrt(0.5)).
    let center = render_pixel(&world, &cam, 2, 2, 5, 5, 1);
    assert!(center.r < 160, "center pixel should show the sphere");
    for (x, y) in [(0u32, 0u32), (0, 4), (4, 0), (4, 4)] {
        let corner = render_pixel(&world, &cam, x, y, 5, 5, 1);
        assert!(corner.r > 160, "corner pixels should show the background");
    }
}

#[test]
fn render_produces_full_image() {
    let (world, cam) = single_sphere_setup();
    let img = render(&world, &cam, 4, 3, 1);
    assert_eq!(img.len(), 12);
}

#[test]
fn ppm_round_trip_exact() {
    let pixels = vec![
        Rgb { r: 0, g: 0, b: 0 },
        Rgb { r: 255, g: 255, b: 255 },
        Rgb { r: 12, g: 34, b: 56 },
        Rgb { r: 7, g: 200, b: 199 },
    ];
    let bytes = serialize_ppm(2, 2, &pixels);
    let text: Vec<u8> = b"P3\n2 2\n255\n0 0 0\n255 255 255\n12 34 56\n7 200 199\n".to_vec();
    assert_eq!(bytes, text);
    let (w, h, parsed) = parse_ppm(&bytes).expect("serialized image must parse");
    assert_eq!(w, 2);
    assert_eq!(h, 2);
    assert_eq!(parsed, pixels);
}

#[test]
fn ppm_round_trip_rendered_buffer() {
    let (world, cam) = single_sphere_setup();
    let img = render(&world, &cam, 3, 2, 1);
    let bytes = serialize_ppm(3, 2, &img);
    let (w, h, parsed) = parse_ppm(&bytes).expect("serialized render must parse");
    assert_eq!((w, h), (3, 2));
    assert_eq!(parsed, img);
}

#[test]
fn ppm_rejects_garbage() {
    assert!(parse_ppm(&b"not a ppm".to_vec()).is_none());
    assert!(parse_ppm(&Vec::new()).is_none());
}

#[test]
fn random_scene_shape() {
    let scene = random_scene();
    let n = scene.len();
    assert!(484 <= n && n <= 488);
    // Every sphere between the ground and the heroes is a small grid
    // sphere at the small-radius height, away from the metal hero's
    // column.
    for sphere in &scene.list[1..n - 3] {
        assert_eq!(sphere.radius, 13107);
        assert_eq!(sphere.center.y, 13107);
        let away = sphere
            .center
            .sub(Vec3::new(262144, 13107, 0))
            .length();
        assert!(away > 58982);
    }
    // A ray straight down from just above the origin always hits
    // something (at worst the huge ground sphere).
    let r = Ray::new(Vec3::new(0, ONE, 0), Vec3::new(0, -ONE, 0));
    assert!(scene.hit(&r, 66, i64::MAX).is_some());
}
