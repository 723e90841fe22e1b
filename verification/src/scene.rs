//! The procedurally generated demonstration scene: a ground sphere, a
//! grid of randomly placed and randomly shaded small spheres, and three
//! fixed hero spheres.

use vstd::prelude::*;
use crate::fixed::{fx_add, fx_mul, ONE, TWO, HALF, iabs};
use crate::fixed::{
    lemma_fx_mul_mono, lemma_fx_mul_unit, lemma_fx_mul_one, lemma_fx_mul_zero,
    lemma_fx_sqrt_ge_one, lemma_square_bounds,
};
use crate::hitable_list::{HitableList, wf_list};
use crate::material::{Dielectric, Lambertian, Metal, MaterialTypes};
use crate::rng::random_unit;
use crate::sphere::Sphere;
use crate::vec3::Vec3;

verus! {

/// The fixed-point radius of the small spheres (0.2).
pub const SMALL_RADIUS: i64 = 13107;

/// The fixed-point value 0.9: the grid jitter scale, the metal
/// threshold of the material draw, and the exclusion distance around
/// the metal hero's column.
pub const NINE_TENTHS: i64 = 58982;

/// The refractive index of the glass spheres (1.5).
pub const GLASS_INDEX: i64 = 98304;

/// The large ground sphere.
pub open spec fn spec_ground_sphere() -> Sphere {
    Sphere {
        center: Vec3::spec_new(0, -65536000i64, 0),
        radius: 65536000,
        material: MaterialTypes::L(Lambertian { albedo: Vec3::spec_new(HALF, HALF, HALF) }),
    }
}

/// The fixed glass hero sphere.
pub open spec fn spec_hero_glass() -> Sphere {
    Sphere {
        center: Vec3::spec_new(0, ONE, 0),
        radius: ONE,
        material: MaterialTypes::D(Dielectric { ref_idx: GLASS_INDEX }),
    }
}

/// The fixed diffuse hero sphere.
pub open spec fn spec_hero_diffuse() -> Sphere {
    Sphere {
        center: Vec3::spec_new(-262144i64, ONE, 0),
        radius: ONE,
        material: MaterialTypes::L(Lambertian { albedo: Vec3::spec_new(26214, 13107, 6554) }),
    }
}

/// The fixed polished-metal hero sphere.
pub open spec fn spec_hero_metal() -> Sphere {
    Sphere {
        center: Vec3::spec_new(262144, ONE, 0),
        radius: ONE,
        material: MaterialTypes::M(Metal { albedo: Vec3::spec_new(45875, 39322, 32768), fuzz: 0 }),
    }
}

/// A jittered grid coordinate: the cell index scaled to fixed point,
/// plus 0.9 times a jitter draw.
pub open spec fn grid_coord(cell: i64, jitter: i64) -> i64 {
    (cell * 65536 + fx_mul(NINE_TENTHS, jitter)) as i64
}

/// One diffuse albedo component: the product of two uniform draws.
pub open spec fn diffuse_component_ok(c: i64) -> bool {
    exists|u: i64, v: i64| 0 <= u < ONE && 0 <= v < ONE && c == #[trigger] fx_mul(u, v)
}

/// One metal albedo component: `(1 + u) / 2` for a uniform draw, so in
/// `[1/2, 1]`.
pub open spec fn metal_component_ok(c: i64) -> bool {
    exists|u: i64| 0 <= u < ONE && c == #[trigger] fx_mul(HALF, fx_add(ONE, u))
}

/// A metal fuzz value: half a uniform draw, so in `[0, 1/2]`.
pub open spec fn metal_fuzz_ok(f: i64) -> bool {
    exists|u: i64| 0 <= u < ONE && f == #[trigger] fx_mul(HALF, u)
}

/// The material of a small sphere, as the uniform threshold draw shapes
/// it: diffuse with product-of-draws albedo, metal with albedo in
/// `[1/2, 1]^3` and fuzz in `[0, 1/2]`, or glass at the fixed index.
pub open spec fn small_material_ok(m: MaterialTypes) -> bool {
    match m {
        MaterialTypes::L(l) => diffuse_component_ok(l.albedo.x) && diffuse_component_ok(
            l.albedo.y,
        ) && diffuse_component_ok(l.albedo.z),
        MaterialTypes::M(mm) => metal_component_ok(mm.albedo.x) && metal_component_ok(mm.albedo.y)
            && metal_component_ok(mm.albedo.z) && metal_fuzz_ok(mm.fuzz),
        MaterialTypes::D(d) => d.ref_idx == GLASS_INDEX,
    }
}

/// The center of a small sphere: a jittered grid cell at the small
/// radius height, farther than 0.9 from the point the metal hero will
/// occupy.
pub open spec fn small_center_ok(c: Vec3) -> bool {
    c.y == SMALL_RADIUS && (exists|a: i64, j: i64|
        -11 <= a < 11 && 0 <= j < ONE && c.x == #[trigger] grid_coord(a, j)) && (exists|b: i64, j: i64|
        -11 <= b < 11 && 0 <= j < ONE && c.z == #[trigger] grid_coord(b, j))
        && c.spec_sub(Vec3::spec_new(262144, SMALL_RADIUS, 0)).spec_length() > NINE_TENTHS
}

/// Every sphere of the random grid: the small radius, a jittered grid
/// center away from the metal hero's column, and a threshold-drawn
/// material.
pub open spec fn small_sphere_ok(s: Sphere) -> bool {
    s.radius == SMALL_RADIUS && small_center_ok(s.center) && small_material_ok(s.material)
}

/// How many cells in columns before `a` can ever fail the exclusion
/// test: only the four cells `(3..=4, -1..=0)` reach within 0.9 of the
/// metal hero's column.
spec fn excluded_cols(a: i64) -> int {
    if a <= 3 {
        0
    } else if a == 4 {
        2
    } else {
        4
    }
}

/// How many cells of column `a` before row `b` can ever fail the
/// exclusion test.
spec fn col_skips(a: i64, b: i64) -> int {
    if 3 <= a <= 4 {
        if b <= -1 {
            0
        } else if b == 0 {
            1
        } else {
            2
        }
    } else {
        0
    }
}

/// Any jittered cell outside the block `(3..=4, -1..=0)` lies farther
/// than 0.9 from the metal hero's column: one of its planar offsets is
/// at least a whole unit, so the distance is at least one.
proof fn lemma_small_far(a: i64, b: i64, mx: i64, mz: i64)
    requires
        -11 <= a < 11,
        -11 <= b < 11,
        0 <= mx <= NINE_TENTHS,
        0 <= mz <= NINE_TENTHS,
        !(3 <= a && a <= 4 && -1 <= b && b <= 0),
    ensures
        Vec3::spec_new((a * 65536 + mx) as i64, SMALL_RADIUS, (b * 65536 + mz) as i64).spec_sub(
            Vec3::spec_new(262144, SMALL_RADIUS, 0),
        ).spec_length() > NINE_TENTHS,
{
    let cx: i64 = (a * 65536 + mx) as i64;
    let cz: i64 = (b * 65536 + mz) as i64;
    assert(cx == a * 65536 + mx);
    assert(cz == b * 65536 + mz);
    let d = Vec3::spec_new(cx, SMALL_RADIUS, cz).spec_sub(Vec3::spec_new(262144, SMALL_RADIUS, 0));
    assert(d.x == cx - 262144);
    assert(d.y == 0);
    assert(d.z == cz);
    assert(iabs(d.x as int) <= 1048576 && iabs(d.z as int) <= 1048576);
    assert(iabs(d.x as int) >= 65536 || iabs(d.z as int) >= 65536) by {
        if a <= 2 {
            assert(cx <= 2 * 65536 + NINE_TENTHS);
        } else if a >= 5 {
            assert(cx >= 5 * 65536);
        } else if b >= 1 {
            assert(cz >= 65536);
        } else {
            assert(b <= -2);
            assert(cz <= -2 * 65536 + NINE_TENTHS);
        }
    }
    lemma_square_bounds(d.x);
    lemma_square_bounds(d.z);
    lemma_fx_mul_zero(0);
    let dot = d.spec_dot(d);
    assert(dot >= 65536);
    lemma_fx_sqrt_ge_one(dot);
    assert(d.spec_length() >= ONE);
}

/// Appends a well-formed sphere, preserving scene well-formedness.
fn push_sphere(list: &mut Vec<Sphere>, s: Sphere)
    requires
        wf_list(old(list)@),
        s.wf(),
    ensures
        final(list)@ == old(list)@.push(s),
        wf_list(final(list)@),
{
    list.push(s);
    proof {
        assert forall|i: int| 0 <= i < list@.len() implies (#[trigger] list@[i]).wf() by {
            if i < list@.len() - 1 {
                assert(list@[i] == old(list)@[i]);
            } else {
                assert(list@[i] == s);
            }
        }
    }
}

/// Appends a small grid sphere, preserving both well-formedness and the
/// grid-sphere characterization of every index after the ground sphere.
fn push_small(list: &mut Vec<Sphere>, s: Sphere)
    requires
        wf_list(old(list)@),
        s.wf(),
        small_sphere_ok(s),
        forall|i: int| 1 <= i < old(list)@.len() ==> small_sphere_ok(#[trigger] old(list)@[i]),
    ensures
        final(list)@ == old(list)@.push(s),
        wf_list(final(list)@),
        forall|i: int| 1 <= i < final(list)@.len() ==> small_sphere_ok(#[trigger] final(list)@[i]),
{
    push_sphere(list, s);
    proof {
        assert forall|i: int| 1 <= i < list@.len() implies small_sphere_ok(
            #[trigger] list@[i],
        ) by {
            if i < list@.len() - 1 {
                assert(list@[i] == old(list)@[i]);
            } else {
                assert(list@[i] == s);
            }
        }
    }
}

/// A random small-sphere albedo component for a diffuse surface: the
/// product of two uniform draws, always inside the unit interval.
fn random_diffuse_component() -> (r: i64)
    ensures
        0 <= r <= ONE,
        diffuse_component_ok(r),
{
    let u1 = random_unit();
    let u2 = random_unit();
    proof {
        lemma_fx_mul_unit(u1, u2);
        assert(0 <= u1 < ONE && 0 <= u2 < ONE && fx_mul(u1, u2) == fx_mul(u1, u2));
    }
    fx_mul(u1, u2)
}

/// A random metal albedo component `0.5 * (1 + u)`, always in
/// `[1/2, 1]`.
fn random_metal_component() -> (r: i64)
    ensures
        0 <= r <= ONE,
        metal_component_ok(r),
{
    let u = random_unit();
    let v = fx_add(ONE, u);
    proof {
        lemma_fx_mul_mono(HALF, v, HALF, TWO);
        vstd::arithmetic::div_mod::lemma_div_multiples_vanish(65536int, 65536int);
        assert(65536int * 65536int == 4294967296int) by (nonlinear_arith);
        assert(32768int * 131072int == 4294967296int) by (nonlinear_arith);
        assert(fx_mul(HALF, TWO) == ONE);
        assert(0 <= u < ONE && fx_mul(HALF, fx_add(ONE, u)) == fx_mul(HALF, v));
    }
    fx_mul(HALF, v)
}

/// The demonstration scene: the ground sphere first, then the grid of
/// up to 484 randomly placed small spheres (diffuse below 0.5, metal
/// below 0.9, glass otherwise, with random shades), and the three hero
/// spheres last.  Every sphere is well formed; every sphere between the
/// ground and the heroes is a grid sphere as `small_sphere_ok` says; at
/// most the four grid cells nearest the metal hero's column can ever be
/// excluded, so at least 481 grid spheres remain.
pub fn random_scene() -> (r: HitableList)
    ensures
        wf_list(r.list@),
        484 <= r.list@.len() <= 488,
        r.list@[0] == spec_ground_sphere(),
        forall|i: int| 1 <= i < r.list@.len() - 3 ==> small_sphere_ok(#[trigger] r.list@[i]),
        r.list@[r.list@.len() - 3] == spec_hero_glass(),
        r.list@[r.list@.len() - 2] == spec_hero_diffuse(),
        r.list@[r.list@.len() - 1] == spec_hero_metal(),
{
    let mut list: Vec<Sphere> = Vec::new();
    push_sphere(
        &mut list,
        Sphere::new(
            Vec3::new(0, -65536000, 0),
            65536000,
            MaterialTypes::L(Lambertian::new(Vec3::new(HALF, HALF, HALF))),
        ),
    );

    let mut a: i64 = -11;
    while a < 11
        invariant
            -11 <= a <= 11,
            wf_list(list@),
            1 <= list@.len(),
            list@.len() <= 1 + (a + 11) * 22,
            list@.len() >= 1 + (a + 11) * 22 - excluded_cols(a),
            list@[0] == spec_ground_sphere(),
            forall|i: int| 1 <= i < list@.len() ==> small_sphere_ok(#[trigger] list@[i]),
        decreases 11 - a,
    {
        let mut b: i64 = -11;
        while b < 11
            invariant
                -11 <= a < 11,
                -11 <= b <= 11,
                wf_list(list@),
                1 <= list@.len(),
                list@.len() <= 1 + (a + 11) * 22 + (b + 11),
                list@.len() >= 1 + (a + 11) * 22 + (b + 11) - excluded_cols(a) - col_skips(a, b),
                list@[0] == spec_ground_sphere(),
                forall|i: int| 1 <= i < list@.len() ==> small_sphere_ok(#[trigger] list@[i]),
            decreases 11 - b,
        {
            let choose_mat = random_unit();
            let jx = random_unit();
            let jz = random_unit();
            proof {
                lemma_fx_mul_unit(jx, NINE_TENTHS);
                lemma_fx_mul_unit(jz, NINE_TENTHS);
                lemma_fx_mul_mono(NINE_TENTHS, jx, NINE_TENTHS, ONE);
                lemma_fx_mul_mono(NINE_TENTHS, jz, NINE_TENTHS, ONE);
                lemma_fx_mul_one(NINE_TENTHS);
            }
            let center = Vec3::new(
                a * 65536 + fx_mul(NINE_TENTHS, jx),
                SMALL_RADIUS,
                b * 65536 + fx_mul(NINE_TENTHS, jz),
            );
            proof {
                assert(center.x == grid_coord(a, jx));
                assert(center.z == grid_coord(b, jz));
            }

            if center.sub(Vec3::new(262144, SMALL_RADIUS, 0)).length() > NINE_TENTHS {
                proof {
                    assert(small_center_ok(center));
                }
                if choose_mat < HALF {
                    let albedo = Vec3::new(
                        random_diffuse_component(),
                        random_diffuse_component(),
                        random_diffuse_component(),
                    );
                    push_small(
                        &mut list,
                        Sphere::new(
                            center,
                            SMALL_RADIUS,
                            MaterialTypes::L(Lambertian::new(albedo)),
                        ),
                    );
                } else if choose_mat < NINE_TENTHS {
                    let albedo = Vec3::new(
                        random_metal_component(),
                        random_metal_component(),
                        random_metal_component(),
                    );
                    let u = random_unit();
                    proof {
                        lemma_fx_mul_mono(HALF, u, HALF, ONE);
                        lemma_fx_mul_one(HALF);
                        assert(0 <= u < ONE && fx_mul(HALF, u) == fx_mul(HALF, u));
                        assert(metal_fuzz_ok(fx_mul(HALF, u)));
                    }
                    let fuzz = fx_mul(HALF, u);
                    push_small(
                        &mut list,
                        Sphere::new(center, SMALL_RADIUS, MaterialTypes::M(Metal::new(albedo, fuzz))),
                    );
                } else {
                    push_small(
                        &mut list,
                        Sphere::new(
                            center,
                            SMALL_RADIUS,
                            MaterialTypes::D(Dielectric::new(GLASS_INDEX)),
                        ),
                    );
                }
            } else {
                proof {
                    if !(3 <= a && a <= 4 && -1 <= b && b <= 0) {
                        lemma_small_far(a, b, fx_mul(NINE_TENTHS, jx), fx_mul(NINE_TENTHS, jz));
                        assert(false);
                    }
                }
            }
            b = b + 1;
        }
        a = a + 1;
        proof {
            assert(1 + (a - 1 + 11) * 22 + 22 == 1 + (a + 11) * 22);
            assert(excluded_cols(a) >= excluded_cols((a - 1) as i64) + col_skips(
                (a - 1) as i64,
                11,
            ));
        }
    }

    let ghost grid = list@;
    push_sphere(
        &mut list,
        Sphere::new(Vec3::new(0, ONE, 0), ONE, MaterialTypes::D(Dielectric::new(GLASS_INDEX))),
    );
    push_sphere(
        &mut list,
        Sphere::new(
            Vec3::new(-262144, ONE, 0),
            ONE,
            MaterialTypes::L(Lambertian::new(Vec3::new(26214, 13107, 6554))),
        ),
    );
    push_sphere(
        &mut list,
        Sphere::new(
            Vec3::new(262144, ONE, 0),
            ONE,
            MaterialTypes::M(Metal::new(Vec3::new(45875, 39322, 32768), 0)),
        ),
    );
    proof {
        assert forall|i: int| 1 <= i < list@.len() - 3 implies small_sphere_ok(
            #[trigger] list@[i],
        ) by {
            assert(list@[i] == grid[i]);
        }
    }

    HitableList::new(list)
}

} // verus!
