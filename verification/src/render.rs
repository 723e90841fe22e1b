//! The recursive radiance integrator and the render driver: per-pixel
//! multi-sample evaluation, averaging, gamma correction and quantization.

use vstd::prelude::*;
use crate::camera::Camera;
use crate::fixed::{fx_add, fx_sub, fx_mul, fx_div, fx_sqrt, clamp01, ONE, HALF};
use crate::fixed::{lemma_fx_mul_one, lemma_fx_mul_unit, iabs};
use crate::hitable_list::{HitableList, wf_list, lemma_hit_material_wf};
use crate::material::lemma_wf_attenuation;
use crate::ray::Ray;
use crate::rng::random_unit;
use crate::vec3::{Vec3, in_unit_box, lemma_comp_mul_unit_box};

verus! {

/// The recursion cap of the radiance estimator.
pub const MAX_DEPTH: i32 = 50;

/// The lower bound of the intersection window: a small epsilon that
/// suppresses self-intersection at the surface just left.
pub const T_MIN: i64 = 66;

/// The upper bound of the intersection window: effectively infinity.
pub const T_MAX: i64 = 9223372036854775807;

/// The sky gradient endpoints: white at the bottom of the gradient and
/// sky blue at the top.
pub const SKY_R: i64 = 32768;

pub const SKY_G: i64 = 45875;

pub const SKY_B: i64 = 65536;

/// One component of the background blend `(1 - t) * white + t * sky`.
pub open spec fn spec_lerp_sky(t: i64, s: i64) -> i64 {
    fx_add(fx_mul(fx_sub(ONE, t), ONE), fx_mul(t, s))
}

/// The background gradient: a vertical blend from white to sky blue by
/// the (clamped) height of the unit ray direction.
pub open spec fn spec_background(ray: Ray) -> Vec3 {
    let t = clamp01(fx_mul(HALF, fx_add(ray.direction.spec_unit().y, ONE)));
    Vec3::spec_new(spec_lerp_sky(t, SKY_R), spec_lerp_sky(t, SKY_G), spec_lerp_sky(t, SKY_B))
}

/// The environment color of a ray that hits nothing.
pub fn background(ray: &Ray) -> (r: Vec3)
    ensures
        r == spec_background(*ray),
{
    let unit_direction = ray.direction.unit_vector();
    let t = clamp01(fx_mul(HALF, fx_add(unit_direction.y, ONE)));
    Vec3::new(
        fx_add(fx_mul(fx_sub(ONE, t), ONE), fx_mul(t, SKY_R)),
        fx_add(fx_mul(fx_sub(ONE, t), ONE), fx_mul(t, SKY_G)),
        fx_add(fx_mul(fx_sub(ONE, t), ONE), fx_mul(t, SKY_B)),
    )
}

/// One blended component lies between the sky endpoint and white.
proof fn lemma_lerp_sky_range(t: i64, s: i64)
    requires
        0 <= t <= ONE,
        0 <= s <= ONE,
    ensures
        s <= spec_lerp_sky(t, s) <= ONE,
{
    let si = crate::fixed::SCALE as int;
    lemma_fx_mul_one(fx_sub(ONE, t));
    lemma_fx_mul_unit(t, s);
    lemma_fx_mul_unit(s, t);
    let b = fx_mul(t, s);
    assert(b == (t as int * s as int) / si);
    // Upper bound: b <= t, so (1 - t) + b <= 1.
    assert(spec_lerp_sky(t, s) <= ONE);
    // Lower bound: with t * s == si * q + r it suffices that
    // (si - t) * (si - s) >= r, which holds because the left side is
    // congruent to t * s modulo si and nonnegative.
    let st = t as int * s as int;
    let q = st / si;
    let r = st % si;
    vstd::arithmetic::div_mod::lemma_fundamental_div_mod(st, si);
    vstd::arithmetic::div_mod::lemma_mod_bound(st, si);
    let a2 = (si - t) * (si - s);
    assert(a2 == si * (si - t - s) + st) by (nonlinear_arith)
        requires a2 == (si - t) * (si - s), st == t as int * s as int;
    assert(a2 % si == st % si) by {
        vstd::arithmetic::div_mod::lemma_mod_multiples_vanish(si - t - s, st, si);
    }
    assert(a2 >= 0) by (nonlinear_arith)
        requires a2 == (si - t) * (si - s), 0 <= t <= si, 0 <= s <= si;
    assert(a2 % si <= a2) by {
        vstd::arithmetic::div_mod::lemma_mod_bound(a2, si);
        if a2 < si {
            vstd::arithmetic::div_mod::lemma_small_mod(a2 as nat, si as nat);
        }
    }
    assert(r <= a2);
    assert(si * q == st - r);
    assert(si * ((ONE - t) + q) >= si * (s as int)) by (nonlinear_arith)
        requires
            si * q == st - r,
            r <= a2,
            a2 == si * (si - t - s) + st,
            si == ONE as int,
    ;
    assert((ONE - t) + q >= s) by (nonlinear_arith)
        requires si * ((ONE - t) + q) >= si * (s as int), si > 0;
}

/// The background of any ray lies componentwise between the two gradient
/// endpoints, sky blue and white.
pub proof fn lemma_background_bounded(ray: Ray)
    ensures
        SKY_R <= spec_background(ray).x <= ONE,
        SKY_G <= spec_background(ray).y <= ONE,
        SKY_B <= spec_background(ray).z <= ONE,
        in_unit_box(spec_background(ray)),
{
    let t = clamp01(fx_mul(HALF, fx_add(ray.direction.spec_unit().y, ONE)));
    lemma_lerp_sky_range(t, SKY_R);
    lemma_lerp_sky_range(t, SKY_G);
    lemma_lerp_sky_range(t, SKY_B);
}

/// The recursive radiance estimator.  A miss returns exactly the
/// background gradient; a hit at the depth cap returns exactly black; a
/// hit below the cap scatters and attenuates the recursive radiance, or
/// returns black on absorption.  Over a well-formed scene the result
/// always lies in the unit color box.
pub fn color(ray: &Ray, world: &HitableList, depth: i32) -> (r: Vec3)
    requires
        0 <= depth,
    ensures
        HitableList::spec_hit(world.list@, *ray, T_MIN, T_MAX) is None ==> r == spec_background(
            *ray,
        ),
        (HitableList::spec_hit(world.list@, *ray, T_MIN, T_MAX) is Some && depth >= MAX_DEPTH)
            ==> r == Vec3::spec_zero(),
        (HitableList::spec_hit(world.list@, *ray, T_MIN, T_MAX) is Some && depth < MAX_DEPTH)
            ==> (r == Vec3::spec_zero() || exists|rest: Vec3|
                r == #[trigger] (HitableList::spec_hit(world.list@, *ray, T_MIN, T_MAX)->0)
                    .mat_type.spec_attenuation().spec_comp_mul(rest) && (wf_list(world.list@)
                    ==> in_unit_box(rest))),
        wf_list(world.list@) ==> in_unit_box(r),
    decreases MAX_DEPTH - depth,
{
    match world.hit(ray, T_MIN, T_MAX) {
        Some(rec) => {
            if depth < MAX_DEPTH {
                match rec.get_mat().scatter(ray, &rec) {
                    Some((attenuation, scattered)) => {
                        let rest = color(&scattered, world, depth + 1);
                        proof {
                            if wf_list(world.list@) {
                                lemma_hit_material_wf(world.list@, *ray, T_MIN, T_MAX);
                                lemma_wf_attenuation(rec.mat_type);
                                lemma_comp_mul_unit_box(attenuation, rest);
                            }
                            assert(attenuation.spec_comp_mul(rest)
                                == (HitableList::spec_hit(world.list@, *ray, T_MIN, T_MAX)->0)
                                    .mat_type.spec_attenuation().spec_comp_mul(rest));
                        }
                        attenuation.comp_mul(rest)
                    },
                    None => Vec3::zero(),
                }
            } else {
                Vec3::zero()
            }
        },
        None => {
            proof {
                lemma_background_bounded(*ray);
            }
            background(ray)
        },
    }
}

/// A quantized color byte: `floor(255.999 * c)` of the clamped
/// fixed-point component `c`, always in `[0, 255]`.
pub open spec fn spec_quantize(c: i64) -> int {
    (clamp01(c) as int * 255999) / 65536000
}

/// One display byte of a linear color component: clamp into `[0, 1]`,
/// gamma-correct by square root, quantize to `[0, 255]`.
pub open spec fn spec_to_byte(c: i64) -> int {
    spec_quantize(fx_sqrt(clamp01(c)))
}

fn quantize(c: i64) -> (r: u8)
    ensures
        r as int == spec_quantize(c),
{
    let cl = clamp01(c);
    let q: u64 = (cl as u64 * 255999) / 65536000;
    proof {
        assert(cl as int * 255999 <= 65536 * 255999) by (nonlinear_arith)
            requires cl <= 65536;
        vstd::arithmetic::div_mod::lemma_div_is_ordered(
            cl as int * 255999,
            65536int * 255999,
            65536000int,
        );
        assert(65536int * 255999 / 65536000 == 255);
    }
    q as u8
}

/// A pixel of the final image.
#[derive(Clone, Copy, PartialEq, Eq, Structural, Debug)]
pub struct Rgb {
    pub r: u8,
    pub g: u8,
    pub b: u8,
}

/// The display pixel of a linear color: each component clamped,
/// gamma-corrected by square root, and quantized.
pub fn to_pixel(col: Vec3) -> (p: Rgb)
    ensures
        p.r as int == spec_to_byte(col.x),
        p.g as int == spec_to_byte(col.y),
        p.b as int == spec_to_byte(col.z),
{
    Rgb {
        r: quantize(fx_sqrt(clamp01(col.x))),
        g: quantize(fx_sqrt(clamp01(col.y))),
        b: quantize(fx_sqrt(clamp01(col.z))),
    }
}

/// The fixed-point value of a sample count.
pub open spec fn spec_count_fx(ns: u32) -> i64 {
    (ns * 65536) as i64
}

/// The sum of a sequence of sample colors, componentwise.
pub open spec fn spec_sum(samples: Seq<Vec3>) -> Vec3
    decreases samples.len(),
{
    if samples.len() == 0 {
        Vec3::spec_zero()
    } else {
        spec_sum(samples.drop_last()).spec_add(samples.last())
    }
}

/// The Monte Carlo average: the accumulated sum divided by the sample
/// count.
pub open spec fn spec_average(sum: Vec3, ns: u32) -> Vec3 {
    sum.spec_div_scalar(spec_count_fx(ns))
}

/// The averaged color of a sample sum.
pub fn average_color(sum: Vec3, ns: u32) -> (r: Vec3)
    requires
        ns >= 1,
    ensures
        r == spec_average(sum, ns),
{
    let d: i64 = (ns as i64) * 65536;
    sum.div_scalar(d)
}

/// Summing equal samples and dividing by their count gives back exactly
/// the sample value, whatever the count: the Monte Carlo average of a
/// constant integrator is that constant.  (All samples being equal, the
/// grouping and order of the reduction cannot matter either.)
pub proof fn lemma_average_of_constant(samples: Seq<Vec3>, c: Vec3, ns: u32)
    requires
        samples.len() == ns,
        ns >= 1,
        forall|i: int| 0 <= i < samples.len() ==> samples[i] == c,
        in_unit_box(c),
    ensures
        spec_average(spec_sum(samples), ns) == c,
{
    lemma_sum_of_constant(samples, c);
    let n = samples.len() as int;
    let d = spec_count_fx(ns);
    let si = crate::fixed::SCALE as int;
    assert(d == n * si);
    lemma_div_count_exact(c.x, n);
    lemma_div_count_exact(c.y, n);
    lemma_div_count_exact(c.z, n);
}

/// The sum of `n` copies of a unit-box color is the componentwise
/// product `n * c`, without saturation.
proof fn lemma_sum_of_constant(samples: Seq<Vec3>, c: Vec3)
    requires
        forall|i: int| 0 <= i < samples.len() ==> samples[i] == c,
        in_unit_box(c),
        samples.len() <= 0xffffffff,
    ensures
        spec_sum(samples) == Vec3::spec_new(
            (samples.len() * c.x) as i64,
            (samples.len() * c.y) as i64,
            (samples.len() * c.z) as i64,
        ),
    decreases samples.len(),
{
    if samples.len() == 0 {
    } else {
        lemma_sum_of_constant(samples.drop_last(), c);
        let n = samples.len() as int;
        assert(n * c.x == (n - 1) * c.x + c.x) by (nonlinear_arith);
        assert(n * c.y == (n - 1) * c.y + c.y) by (nonlinear_arith);
        assert(n * c.z == (n - 1) * c.z + c.z) by (nonlinear_arith);
        assert(0 <= n * c.x <= 0xffffffff * 65536) by (nonlinear_arith)
            requires 0 <= c.x <= 65536, 0 <= n <= 0xffffffff;
        assert(0 <= n * c.y <= 0xffffffff * 65536) by (nonlinear_arith)
            requires 0 <= c.y <= 65536, 0 <= n <= 0xffffffff;
        assert(0 <= n * c.z <= 0xffffffff * 65536) by (nonlinear_arith)
            requires 0 <= c.z <= 65536, 0 <= n <= 0xffffffff;
    }
}

/// Dividing `n * v` by the fixed-point count `n` recovers `v` exactly.
proof fn lemma_div_count_exact(v: i64, n: int)
    requires
        1 <= n <= 0xffffffff,
        0 <= v <= ONE,
    ensures
        fx_div((n * v) as i64, (n * 65536) as i64) == v,
{
    let si = crate::fixed::SCALE as int;
    let a = n * v;
    let d = n * si;
    assert(0 <= a <= 0xffffffff * 65536) by (nonlinear_arith)
        requires a == n * v, 0 <= v <= 65536, 1 <= n <= 0xffffffff;
    assert(si < d <= 0xffffffff * 65536 || d == si) by (nonlinear_arith)
        requires d == n * si, 1 <= n <= 0xffffffff, si == 65536;
    assert(iabs(a) == a && iabs(d) == d);
    assert(a * si == d * v) by (nonlinear_arith)
        requires a == n * v, d == n * si;
    assert(a * si >= 0) by (nonlinear_arith)
        requires a >= 0, si > 0;
    assert(iabs(a * si) == a * si);
    assert((d * v) / d == v) by {
        vstd::arithmetic::div_mod::lemma_div_multiples_vanish(v as int, d);
    }
    assert(crate::fixed::tquot(a * si, d) == (a * si) / d);
    assert(0 <= v <= i64::MAX);
}

/// One jittered radiance sample for pixel `(x, y)` of an `nx` by `ny`
/// image: the pixel coordinate plus a uniform offset in `[0, 1)`, mapped
/// to `[0, 1]` screen coordinates, traced from the camera at depth zero.
pub fn sample_color(world: &HitableList, cam: &Camera, x: u32, y: u32, nx: u32, ny: u32) -> (r:
    Vec3)
    requires
        1 <= nx,
        1 <= ny,
        x < nx,
        y < ny,
    ensures
        wf_list(world.list@) ==> in_unit_box(r),
{
    let u = fx_div(fx_add((x as i64) * 65536, random_unit()), (nx as i64) * 65536);
    let v = fx_div(fx_add((y as i64) * 65536, random_unit()), (ny as i64) * 65536);
    let ray = cam.get_ray(u, v);
    color(&ray, world, 0)
}

/// What the driver guarantees of a finished pixel: it is the clamped,
/// gamma-corrected, quantized average of some `ns` radiance samples, all
/// of them in the unit color box when the scene is well formed.
pub open spec fn pixel_ok(spheres: Seq<crate::sphere::Sphere>, ns: u32, p: Rgb) -> bool {
    exists|samples: Seq<Vec3>|
        (#[trigger] samples.len()) == ns && (wf_list(spheres) ==> forall|j: int|
            0 <= j < samples.len() ==> in_unit_box(#[trigger] samples[j])) && p.r as int
            == spec_to_byte(spec_average(spec_sum(samples), ns).x) && p.g as int
            == spec_to_byte(spec_average(spec_sum(samples), ns).y) && p.b as int
            == spec_to_byte(spec_average(spec_sum(samples), ns).z)
}

/// The Monte Carlo color of one pixel: the average of `ns` independent
/// jittered samples, gamma-corrected and quantized.  Whatever the random
/// draws, the result is the pixel of the average of some `ns` samples,
/// all of them in the unit box when the scene is well formed.
pub fn render_pixel(world: &HitableList, cam: &Camera, x: u32, y: u32, nx: u32, ny: u32, ns: u32) -> (p: Rgb)
    requires
        1 <= nx,
        1 <= ny,
        x < nx,
        y < ny,
        1 <= ns,
    ensures
        pixel_ok(world.list@, ns, p),
{
    let mut sum = Vec3::zero();
    let ghost mut samples: Seq<Vec3> = Seq::empty();
    let mut i: u32 = 0;
    while i < ns
        invariant
            i <= ns,
            1 <= nx,
            1 <= ny,
            x < nx,
            y < ny,
            samples.len() == i,
            sum == spec_sum(samples),
            wf_list(world.list@) ==> forall|j: int|
                0 <= j < samples.len() ==> in_unit_box(#[trigger] samples[j]),
        decreases ns - i,
    {
        let s = sample_color(world, cam, x, y, nx, ny);
        sum = sum.add(s);
        proof {
            let prev = samples;
            samples = samples.push(s);
            assert(samples.drop_last() =~= prev);
            assert(samples.last() == s);
        }
        i = i + 1;
    }
    let avg = average_color(sum, ns);
    let p = to_pixel(avg);
    proof {
        assert(samples.len() == ns && (wf_list(world.list@) ==> forall|j: int|
            0 <= j < samples.len() ==> in_unit_box(#[trigger] samples[j])) && p.r as int
            == spec_to_byte(spec_average(spec_sum(samples), ns).x) && p.g as int
            == spec_to_byte(spec_average(spec_sum(samples), ns).y) && p.b as int
            == spec_to_byte(spec_average(spec_sum(samples), ns).z));
        assert(pixel_ok(world.list@, ns, p));
    }
    p
}

/// The full image: rows from the top of the image to the bottom, columns
/// left to right, one multi-sample pixel each.
pub fn render(world: &HitableList, cam: &Camera, nx: u32, ny: u32, ns: u32) -> (img: Vec<Rgb>)
    requires
        1 <= nx,
        1 <= ny,
        1 <= ns,
        nx * ny <= 0x10000000,
    ensures
        img@.len() == nx * ny,
        forall|k: int| 0 <= k < img@.len() ==> pixel_ok(world.list@, ns, #[trigger] img@[k]),
{
    let mut img: Vec<Rgb> = Vec::new();
    let mut row: u32 = ny;
    while row > 0
        invariant
            row <= ny,
            1 <= nx,
            1 <= ny,
            1 <= ns,
            nx * ny <= 0x10000000,
            img@.len() == (ny - row) * nx,
            forall|k: int| 0 <= k < img@.len() ==> pixel_ok(world.list@, ns, #[trigger] img@[k]),
        decreases row,
    {
        let y = row - 1;
        let mut x: u32 = 0;
        while x < nx
            invariant
                x <= nx,
                row <= ny,
                1 <= nx,
                1 <= ny,
                1 <= ns,
                y == row - 1,
                nx * ny <= 0x10000000,
                img@.len() == (ny - row) * nx + x,
                forall|k: int| 0 <= k < img@.len() ==> pixel_ok(world.list@, ns, #[trigger] img@[k]),
            decreases nx - x,
        {
            proof {
                assert((ny - row) * nx + nx <= ny * nx) by (nonlinear_arith)
                    requires 1 <= row <= ny, 1 <= nx;
                assert(ny * nx == nx * ny) by (nonlinear_arith);
            }
            let p = render_pixel(world, cam, x, y, nx, ny, ns);
            img.push(p);
            proof {
                assert forall|k: int| 0 <= k < img@.len() implies pixel_ok(
                    world.list@,
                    ns,
                    #[trigger] img@[k],
                ) by {
                    if k == img@.len() - 1 {
                        assert(img@[k] == p);
                    }
                }
            }
            x = x + 1;
        }
        row = row - 1;
        proof {
            assert((ny - row) * nx == (ny - (row + 1)) * nx + nx) by (nonlinear_arith);
        }
    }
    proof {
        assert((ny - 0) * nx == nx * ny) by (nonlinear_arith);
    }
    img
}

} // verus!
