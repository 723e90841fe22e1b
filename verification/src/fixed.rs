//! Saturating fixed-point arithmetic on `i64` values scaled by `SCALE`.
//!
//! Every geometric and color quantity in this crate is a real number
//! represented as `value * SCALE`, rounded toward zero.  All operations
//! saturate at the `i64` range instead of overflowing, and every operation
//! has an exact specification, so no caller needs side conditions to call
//! them.

use vstd::prelude::*;

verus! {

/// The fixed-point scaling factor: the representation of the real number 1.
pub const SCALE: i64 = 65536;

/// The representation of the real number 1 (an alias kept for readability
/// in color arithmetic, where values are meant to stay in `[0, ONE]`).
pub const ONE: i64 = 65536;

/// The representation of the real number 1/2.
pub const HALF: i64 = 32768;

/// The representation of the real number 2.
pub const TWO: i64 = 131072;

/// Absolute value over mathematical integers.
pub open spec fn iabs(x: int) -> int {
    if x < 0 { -x } else { x }
}

/// Quotient rounded toward zero, as Rust's `/` rounds.
pub open spec fn tquot(a: int, b: int) -> int {
    if (a < 0) == (b < 0) {
        iabs(a) / iabs(b)
    } else {
        -(iabs(a) / iabs(b))
    }
}

/// Saturation of a mathematical integer into the `i64` range.
pub open spec fn clip(x: int) -> i64 {
    if x > i64::MAX { i64::MAX } else if x < i64::MIN { i64::MIN } else { x as i64 }
}

/// What fixed-point addition returns.
pub open spec fn fx_add_spec(a: i64, b: i64) -> i64 {
    clip(a + b)
}

/// What fixed-point subtraction returns.
pub open spec fn fx_sub_spec(a: i64, b: i64) -> i64 {
    clip(a - b)
}

/// What fixed-point multiplication returns: the product of the two
/// represented reals, rounded toward zero, saturated.
pub open spec fn fx_mul_spec(a: i64, b: i64) -> i64 {
    clip(tquot(a * b, SCALE as int))
}

/// What fixed-point division returns: the quotient of the two represented
/// reals, rounded toward zero, saturated; division by zero yields zero.
pub open spec fn fx_div_spec(a: i64, b: i64) -> i64 {
    if b == 0 { 0 } else { clip(tquot(a * (SCALE as int), b as int)) }
}

/// The integer square root: the unique `r` with `r^2 <= n < (r+1)^2`.
pub open spec fn sqrt_nat(n: nat) -> nat {
    choose|r: nat| #[trigger] (r * r) <= n && n < (r + 1) * (r + 1)
}

/// What fixed-point square root returns: `sqrt(a / SCALE) * SCALE`, rounded
/// down, which is the integer square root of `a * SCALE`; nonpositive
/// arguments yield zero.
pub open spec fn fx_sqrt_spec(a: i64) -> i64 {
    if a <= 0 { 0 } else { sqrt_nat((a * SCALE) as nat) as i64 }
}

/// Clamping of a fixed-point value into the color range `[0, ONE]`.
pub open spec fn clamp01_spec(a: i64) -> i64 {
    if a < 0 { 0 } else if a > ONE { ONE } else { a }
}

/// The magnitude of a product is the product of the magnitudes.
pub proof fn lemma_iabs_mul(a: int, b: int)
    ensures
        iabs(a * b) == iabs(a) * iabs(b),
{
    assert(iabs(a * b) == iabs(a) * iabs(b)) by (nonlinear_arith);
}

proof fn lemma_sign_mul(a: int, b: int)
    ensures
        a * b > 0 ==> (a < 0) == (b < 0),
        a * b < 0 ==> (a < 0) != (b < 0),
        (a == 0 || b == 0) ==> a * b == 0,
{
    assert(a * b > 0 ==> (a < 0) == (b < 0)) by (nonlinear_arith);
    assert(a * b < 0 ==> (a < 0) != (b < 0)) by (nonlinear_arith);
    assert((a == 0 || b == 0) ==> a * b == 0) by (nonlinear_arith);
}

/// The integer square root is what its defining property says it is.
pub proof fn lemma_sqrt_nat_is(n: nat, r: nat)
    requires
        r * r <= n,
        n < (r + 1) * (r + 1),
    ensures
        sqrt_nat(n) == r,
{
    assert(exists|s: nat| #[trigger] (s * s) <= n && n < (s + 1) * (s + 1)) by {
        assert(r * r <= n && n < (r + 1) * (r + 1));
    }
    let s = sqrt_nat(n);
    assert(s * s <= n && n < (s + 1) * (s + 1));
    if s < r {
        assert((s + 1) * (s + 1) <= r * r) by (nonlinear_arith)
            requires s + 1 <= r;
        assert(false);
    }
    if r < s {
        assert((r + 1) * (r + 1) <= s * s) by (nonlinear_arith)
            requires r + 1 <= s;
        assert(false);
    }
}

proof fn lemma_clip_mono(x: int, y: int)
    requires
        x <= y,
    ensures
        clip(x) <= clip(y),
{
}

/// Multiplication of nonnegative fixed-point values is monotone in both
/// arguments and never negative.
pub proof fn lemma_fx_mul_mono(a: i64, b: i64, c: i64, d: i64)
    requires
        0 <= a <= c,
        0 <= b <= d,
    ensures
        0 <= fx_mul(a, b) <= fx_mul(c, d),
{
    assert(0 <= a * b && a * b <= c * d) by (nonlinear_arith)
        requires 0 <= a <= c, 0 <= b <= d;
    vstd::arithmetic::div_mod::lemma_div_is_ordered(a * b, c * d, SCALE as int);
    vstd::arithmetic::div_mod::lemma_div_pos_is_pos(a * b, SCALE as int);
    assert(tquot(a * b, SCALE as int) == (a * b) / (SCALE as int));
    assert(tquot(c * d, SCALE as int) == (c * d) / (SCALE as int));
    lemma_clip_mono(tquot(a * b, SCALE as int), tquot(c * d, SCALE as int));
}

/// Multiplying a value in `[0, ONE]` by a nonnegative value can only
/// shrink it: the fixed-point product stays in `[0, b]`.
pub proof fn lemma_fx_mul_unit(a: i64, b: i64)
    requires
        0 <= a <= ONE,
        0 <= b,
    ensures
        0 <= fx_mul(a, b) <= b,
        0 <= fx_mul(b, a) <= b,
{
    assert(0 <= a * b && a * b <= (SCALE as int) * b) by (nonlinear_arith)
        requires 0 <= a <= SCALE as int, 0 <= b;
    vstd::arithmetic::div_mod::lemma_div_is_ordered(a * b, (SCALE as int) * b, SCALE as int);
    vstd::arithmetic::div_mod::lemma_div_pos_is_pos(a * b, SCALE as int);
    vstd::arithmetic::div_mod::lemma_div_multiples_vanish(b as int, SCALE as int);
    assert(((SCALE as int) * b) / (SCALE as int) == b);
    assert(tquot(a * b, SCALE as int) == (a * b) / (SCALE as int));
    assert(b * a == a * b) by (nonlinear_arith);
}

/// Multiplying by the fixed-point one is exact.
pub proof fn lemma_fx_mul_one(b: i64)
    ensures
        fx_mul(ONE, b) == b,
        fx_mul(b, ONE) == b,
{
    lemma_iabs_mul(SCALE as int, b as int);
    assert(iabs(SCALE as int) == SCALE as int);
    vstd::arithmetic::div_mod::lemma_div_multiples_vanish(iabs(b as int), SCALE as int);
    assert(((SCALE as int) * iabs(b as int)) / (SCALE as int) == iabs(b as int));
    assert(iabs((SCALE as int) * (b as int)) == (SCALE as int) * iabs(b as int));
    if b >= 0 {
        assert(tquot((SCALE as int) * (b as int), SCALE as int) == b);
    } else {
        assert((SCALE as int) * (b as int) < 0) by (nonlinear_arith)
            requires b < 0;
        assert(tquot((SCALE as int) * (b as int), SCALE as int) == -iabs(b as int));
    }
    assert((b as int) * (SCALE as int) == (SCALE as int) * (b as int)) by (nonlinear_arith);
}

/// Multiplying by zero is exactly zero.
pub proof fn lemma_fx_mul_zero(b: i64)
    ensures
        fx_mul(0, b) == 0,
        fx_mul(b, 0) == 0,
{
    assert(0 * (b as int) == 0) by (nonlinear_arith);
    assert((b as int) * 0 == 0) by (nonlinear_arith);
    vstd::arithmetic::div_mod::lemma_div_of0(SCALE as int);
}

/// The integer square root exists for every argument and satisfies its
/// defining property.
pub proof fn lemma_sqrt_nat_bounds(n: nat)
    ensures
        sqrt_nat(n) * sqrt_nat(n) <= n,
        n < (sqrt_nat(n) + 1) * (sqrt_nat(n) + 1),
    decreases n,
{
    if n == 0 {
        assert((0nat + 1) * (0nat + 1) == 1) by (nonlinear_arith);
        lemma_sqrt_nat_is(0, 0);
    } else {
        lemma_sqrt_nat_bounds((n - 1) as nat);
        let r = sqrt_nat((n - 1) as nat);
        if (r + 1) * (r + 1) <= n {
            assert(n == (r + 1) * (r + 1));
            assert(n < (r + 2) * (r + 2)) by (nonlinear_arith)
                requires n == (r + 1) * (r + 1);
            lemma_sqrt_nat_is(n, r + 1);
        } else {
            lemma_sqrt_nat_is(n, r);
        }
    }
}

/// A fixed-point value of at least one has a square root of at least
/// one.
pub proof fn lemma_fx_sqrt_ge_one(s: i64)
    requires
        s >= ONE,
    ensures
        fx_sqrt_spec(s) >= ONE,
{
    let n = (s * SCALE) as nat;
    lemma_sqrt_nat_bounds(n);
    let r = sqrt_nat(n);
    assert(n >= 65536 * 65536) by (nonlinear_arith)
        requires s >= 65536, n == s * SCALE, SCALE == 65536;
    assert(n < 0x100000000000000000000) by (nonlinear_arith)
        requires n == s * SCALE, s <= 0x8000000000000000, SCALE == 65536;
    assert(r >= 65536) by (nonlinear_arith)
        requires n < (r + 1) * (r + 1), n >= 65536 * 65536;
    assert(r < 0x10000000000) by (nonlinear_arith)
        requires r * r <= n, n < 0x100000000000000000000;
}

/// The fixed-point square of a moderate value: nonnegative, bounded, and
/// at least one when the value's magnitude is at least one.
pub proof fn lemma_square_bounds(x: i64)
    requires
        iabs(x as int) <= 1048576,
    ensures
        0 <= fx_mul(x, x) <= 16777216,
        iabs(x as int) >= 65536 ==> fx_mul(x, x) >= 65536,
{
    let m = iabs(x as int);
    assert(m == x as int || m == -(x as int));
    assert((x as int) * (x as int) == m * m) by (nonlinear_arith)
        requires m == x as int || m == -(x as int);
    assert(m * m <= 1048576 * 1048576) by (nonlinear_arith)
        requires 0 <= m <= 1048576;
    vstd::arithmetic::div_mod::lemma_div_is_ordered(m * m, 1048576int * 1048576, SCALE as int);
    vstd::arithmetic::div_mod::lemma_div_pos_is_pos(m * m, SCALE as int);
    assert((1048576int * 1048576) / (SCALE as int) == 16777216) by {
        vstd::arithmetic::div_mod::lemma_div_multiples_vanish(16777216int, SCALE as int);
        assert(1048576int * 1048576 == (SCALE as int) * 16777216) by (nonlinear_arith);
    }
    assert(tquot(m * m, SCALE as int) == (m * m) / (SCALE as int));
    if m >= 65536 {
        assert(m * m >= 65536 * 65536) by (nonlinear_arith)
            requires m >= 65536;
        vstd::arithmetic::div_mod::lemma_div_is_ordered(65536int * 65536, m * m, SCALE as int);
        assert((65536int * 65536) / (SCALE as int) == 65536) by {
            vstd::arithmetic::div_mod::lemma_div_multiples_vanish(65536int, SCALE as int);
        }
    }
}

/// Squaring in fixed point and taking the square root again loses at
/// most one unit in the last place, for values of at least one half.
pub proof fn lemma_fx_sqrt_of_square(x: i64)
    requires
        32769 <= x <= 67108864,
    ensures
        x - 1 <= fx_sqrt_spec(fx_mul_spec(x, x)) <= x,
{
    let si = SCALE as int;
    let xx = (x as int) * (x as int);
    assert(32769int * 32769 <= xx <= 67108864int * 67108864) by (nonlinear_arith)
        requires 32769 <= x as int <= 67108864, xx == (x as int) * (x as int);
    let q = xx / si;
    vstd::arithmetic::div_mod::lemma_div_pos_is_pos(xx, si);
    vstd::arithmetic::div_mod::lemma_div_is_ordered(si, xx, si);
    assert(si / si == 1) by {
        vstd::arithmetic::div_mod::lemma_div_multiples_vanish(1int, si);
        assert(si * 1 == si) by (nonlinear_arith);
    }
    assert(q >= 1);
    vstd::arithmetic::div_mod::lemma_div_is_ordered(xx, 67108864int * 67108864, si);
    assert((67108864int * 67108864) / si == 68719476736) by {
        vstd::arithmetic::div_mod::lemma_div_multiples_vanish(68719476736int, si);
        assert(67108864int * 67108864 == si * 68719476736) by (nonlinear_arith)
            requires si == 65536;
    }
    assert(tquot(xx, si) == q);
    assert(fx_mul_spec(x, x) == q);
    // The represented square q * SCALE is within one SCALE of x^2.
    vstd::arithmetic::div_mod::lemma_fundamental_div_mod(xx, si);
    vstd::arithmetic::div_mod::lemma_mod_bound(xx, si);
    let n = (q * si) as nat;
    assert(q * si == si * q) by (nonlinear_arith);
    assert(xx - si < q * si <= xx);
    lemma_sqrt_nat_bounds(n);
    let r = sqrt_nat(n);
    assert(r <= x) by (nonlinear_arith)
        requires r * r <= n, n <= xx, xx == (x as int) * (x as int), r >= 0, x >= 0;
    assert((x - 1) * (x - 1) <= xx - si) by (nonlinear_arith)
        requires 2 * (x as int) - 1 >= si, xx == (x as int) * (x as int);
    assert(r >= x - 1) by (nonlinear_arith)
        requires
            n < (r + 1) * (r + 1),
            (x - 1) * (x - 1) <= xx - si,
            xx - si < n,
            r >= 0,
            x >= 1,
    ;
    assert(fx_sqrt_spec(q as i64) == r as i64);
}

/// The magnitude of an `i64`, exact also at `i64::MIN`.
pub fn abs_mag(a: i64) -> (r: u64)
    ensures
        r == iabs(a as int),
{
    if a >= 0 {
        a as u64
    } else {
        let w: i128 = -(a as i128);
        w as u64
    }
}

fn clip_mag(q: u128, neg: bool) -> (r: i64)
    ensures
        neg ==> r == clip(-(q as int)),
        !neg ==> r == clip(q as int),
{
    if neg {
        if q >= 9223372036854775808u128 {
            i64::MIN
        } else {
            -(q as i64)
        }
    } else {
        if q > i64::MAX as u128 {
            i64::MAX
        } else {
            q as i64
        }
    }
}

/// Fixed-point addition, saturating.
#[verifier::when_used_as_spec(fx_add_spec)]
pub fn fx_add(a: i64, b: i64) -> (r: i64)
    ensures
        r == fx_add_spec(a, b),
{
    let s: i128 = a as i128 + b as i128;
    if s > i64::MAX as i128 {
        i64::MAX
    } else if s < i64::MIN as i128 {
        i64::MIN
    } else {
        s as i64
    }
}

/// Fixed-point subtraction, saturating.
#[verifier::when_used_as_spec(fx_sub_spec)]
pub fn fx_sub(a: i64, b: i64) -> (r: i64)
    ensures
        r == fx_sub_spec(a, b),
{
    let s: i128 = a as i128 - b as i128;
    if s > i64::MAX as i128 {
        i64::MAX
    } else if s < i64::MIN as i128 {
        i64::MIN
    } else {
        s as i64
    }
}

/// Fixed-point multiplication, rounded toward zero, saturating.
#[verifier::when_used_as_spec(fx_mul_spec)]
pub fn fx_mul(a: i64, b: i64) -> (r: i64)
    ensures
        r == fx_mul_spec(a, b),
{
    let neg: bool = (a < 0) != (b < 0);
    let ma = abs_mag(a);
    let mb = abs_mag(b);
    proof {
        assert((ma as int) * (mb as int) < 0x100000000000000000000000000000000) by (nonlinear_arith)
            requires ma <= 0x8000000000000000, mb <= 0x8000000000000000;
    }
    let p: u128 = (ma as u128) * (mb as u128);
    let q: u128 = p / 65536u128;
    proof {
        lemma_iabs_mul(a as int, b as int);
        lemma_sign_mul(a as int, b as int);
        assert(p == iabs((a as int) * (b as int)));
        assert(q == iabs((a as int) * (b as int)) / (SCALE as int));
        if (a as int) * (b as int) == 0 {
            assert(q == 0);
        }
    }
    clip_mag(q, neg)
}

/// Fixed-point division, rounded toward zero, saturating; zero divisor
/// yields zero.
#[verifier::when_used_as_spec(fx_div_spec)]
pub fn fx_div(a: i64, b: i64) -> (r: i64)
    ensures
        r == fx_div_spec(a, b),
{
    if b == 0 {
        return 0;
    }
    let neg: bool = (a < 0) != (b < 0);
    let ma = abs_mag(a);
    let mb = abs_mag(b);
    let p: u128 = (ma as u128) * 65536u128;
    let q: u128 = p / (mb as u128);
    proof {
        lemma_iabs_mul(a as int, SCALE as int);
        assert(iabs(SCALE as int) == SCALE as int);
        assert(p == iabs((a as int) * (SCALE as int)));
        assert(q == iabs((a as int) * (SCALE as int)) / iabs(b as int));
        let x = (a as int) * (SCALE as int);
        assert((x < 0) == (a < 0) && (x == 0) == (a == 0)) by (nonlinear_arith)
            requires x == (a as int) * (SCALE as int);
        if a == 0 {
            assert(iabs(x) == 0);
            assert(q == 0);
        }
    }
    clip_mag(q, neg)
}

fn isqrt_u128(n: u128) -> (r: u64)
    requires
        n < 0x100000000000000000000,
    ensures
        (r as int) * (r as int) <= n,
        n < ((r as int) + 1) * ((r as int) + 1),
        r == sqrt_nat(n as nat),
{
    let mut lo: u128 = 0;
    let mut hi: u128 = 0x10000000000;
    proof {
        assert((0x10000000000 as int) * (0x10000000000 as int) == 0x100000000000000000000) by (nonlinear_arith);
    }
    while lo + 1 < hi
        invariant
            lo < hi,
            hi <= 0x10000000000,
            (lo as int) * (lo as int) <= n,
            n < (hi as int) * (hi as int),
        decreases hi - lo,
    {
        let mid: u128 = lo + (hi - lo) / 2;
        proof {
            assert((mid as int) * (mid as int) < 0x100000000000000000000000000000000) by (nonlinear_arith)
                requires mid <= 0x10000000000;
        }
        if mid * mid <= n {
            lo = mid;
        } else {
            hi = mid;
        }
    }
    proof {
        assert(hi == lo + 1);
        lemma_sqrt_nat_is(n as nat, lo as nat);
    }
    lo as u64
}

/// Fixed-point square root, rounded down; nonpositive arguments yield zero.
#[verifier::when_used_as_spec(fx_sqrt_spec)]
pub fn fx_sqrt(a: i64) -> (r: i64)
    ensures
        r == fx_sqrt_spec(a),
        r >= 0,
        a > 0 ==> (r as int) * (r as int) <= (a as int) * (SCALE as int)
            < ((r as int) + 1) * ((r as int) + 1),
{
    if a <= 0 {
        return 0;
    }
    let n: u128 = (a as u128) * 65536u128;
    proof {
        assert((a as int) * (SCALE as int) < 0x100000000000000000000) by (nonlinear_arith)
            requires a <= 0x8000000000000000;
    }
    let r = isqrt_u128(n);
    proof {
        assert(sqrt_nat(n as nat) * sqrt_nat(n as nat) <= n as nat) by {
            lemma_sqrt_nat_is(n as nat, r as nat);
        }
        assert((r as int) * (r as int) <= n < ((r as int) + 1) * ((r as int) + 1));
        assert((r as int) < 0x10000000000) by (nonlinear_arith)
            requires
                (r as int) * (r as int) <= n,
                n < 0x100000000000000000000,
        ;
    }
    r as i64
}

/// Clamping into the color range `[0, ONE]`.
#[verifier::when_used_as_spec(clamp01_spec)]
pub fn clamp01(a: i64) -> (r: i64)
    ensures
        r == clamp01_spec(a),
{
    if a < 0 { 0 } else if a > ONE { ONE } else { a }
}

} // verus!
