//! Saturating fixed-point arithmetic: the scalar type of the simulation.
//!
//! A scalar is an `i64` standing for the real number `v / SCALE`. Every
//! operation clamps its result into `[-FX_MAX, FX_MAX]`, so the arithmetic is
//! total: no operation overflows or panics, and each executable operation is
//! proved equal to its mathematical model (`fx_add_s`, `fx_mul_s`, ...).

use vstd::prelude::*;

verus! {

/// Number of fixed-point units per whole unit.
pub const SCALE: i64 = 65536;

/// Largest magnitude a fixed-point scalar may take.
pub const FX_MAX: i64 = 0x4000_0000;

/// The scalar lies within the fixed-point range.
pub open spec fn fx_in_range(v: int) -> bool {
    -FX_MAX <= v <= FX_MAX
}

/// Clamp an unbounded value into the fixed-point range.
pub open spec fn fx_clamp(v: int) -> int {
    if v > FX_MAX {
        FX_MAX as int
    } else if v < -FX_MAX {
        -FX_MAX as int
    } else {
        v
    }
}

/// Division by a positive divisor, rounding toward zero.
pub open spec fn div_down(a: int, b: int) -> int {
    if a >= 0 {
        a / b
    } else {
        -((-a) / b)
    }
}

/// Model of saturating fixed-point addition.
pub open spec fn fx_add_s(a: int, b: int) -> int {
    fx_clamp(a + b)
}

/// Model of saturating fixed-point subtraction.
pub open spec fn fx_sub_s(a: int, b: int) -> int {
    fx_clamp(a - b)
}

/// Model of saturating fixed-point multiplication.
pub open spec fn fx_mul_s(a: int, b: int) -> int {
    fx_clamp(div_down(a * b, SCALE as int))
}

/// Model of saturating fixed-point division (`b != 0`).
pub open spec fn fx_div_s(a: int, b: int) -> int {
    if b >= 0 {
        fx_clamp(div_down(a * SCALE, b))
    } else {
        fx_clamp(div_down(-(a * SCALE), -b))
    }
}

/// Model of halving (division by two, toward zero).
pub open spec fn fx_half_s(a: int) -> int {
    div_down(a, 2)
}

/// Model of turning a whole number into a fixed-point scalar.
pub open spec fn int_to_fx_s(i: int) -> int {
    fx_clamp(i * SCALE)
}

/// Clamp an `i64` into the fixed-point range.
pub fn fx_clamp_x(v: i64) -> (r: i64)
    ensures
        r == fx_clamp(v as int),
{
    if v > FX_MAX {
        FX_MAX
    } else if v < -FX_MAX {
        -FX_MAX
    } else {
        v
    }
}

/// Division by a positive divisor, rounding toward zero.
fn div_trunc(a: i64, b: i64) -> (r: i64)
    requires
        b > 0,
        -0x4000_0000_0000_0000 <= a <= 0x4000_0000_0000_0000,
    ensures
        r == div_down(a as int, b as int),
{
    if a >= 0 {
        let q: u64 = (a as u64) / (b as u64);
        q as i64
    } else {
        let q: u64 = ((-a) as u64) / (b as u64);
        -(q as i64)
    }
}

/// Saturating fixed-point addition.
pub fn fx_add(a: i64, b: i64) -> (r: i64)
    requires
        fx_in_range(a as int),
        fx_in_range(b as int),
    ensures
        r == fx_add_s(a as int, b as int),
        fx_in_range(r as int),
{
    fx_clamp_x(a + b)
}

/// Saturating fixed-point subtraction.
pub fn fx_sub(a: i64, b: i64) -> (r: i64)
    requires
        fx_in_range(a as int),
        fx_in_range(b as int),
    ensures
        r == fx_sub_s(a as int, b as int),
        fx_in_range(r as int),
{
    fx_clamp_x(a - b)
}

/// Saturating fixed-point multiplication.
pub fn fx_mul(a: i64, b: i64) -> (r: i64)
    requires
        fx_in_range(a as int),
        fx_in_range(b as int),
    ensures
        r == fx_mul_s(a as int, b as int),
        fx_in_range(r as int),
{
    proof {
        assert(-0x1000_0000_0000_0000 <= a * b <= 0x1000_0000_0000_0000) by (nonlinear_arith)
            requires
                -0x4000_0000 <= a <= 0x4000_0000,
                -0x4000_0000 <= b <= 0x4000_0000,
        ;
    }
    let p: i64 = a * b;
    fx_clamp_x(div_trunc(p, SCALE))
}

/// Saturating fixed-point division; the divisor must be nonzero.
pub fn fx_div(a: i64, b: i64) -> (r: i64)
    requires
        fx_in_range(a as int),
        fx_in_range(b as int),
        b != 0,
    ensures
        r == fx_div_s(a as int, b as int),
        fx_in_range(r as int),
{
    let num: i64 = a * SCALE;
    if b > 0 {
        fx_clamp_x(div_trunc(num, b))
    } else {
        fx_clamp_x(div_trunc(-num, -b))
    }
}

/// Halve a fixed-point scalar, rounding toward zero.
pub fn fx_half(a: i64) -> (r: i64)
    requires
        fx_in_range(a as int),
    ensures
        r == fx_half_s(a as int),
        fx_in_range(r as int),
{
    proof {
        if a >= 0 {
            vstd::arithmetic::div_mod::lemma_div_nonincreasing(a as int, 2);
            vstd::arithmetic::div_mod::lemma_div_pos_is_pos(a as int, 2);
        } else {
            vstd::arithmetic::div_mod::lemma_div_nonincreasing(-a as int, 2);
            vstd::arithmetic::div_mod::lemma_div_pos_is_pos(-a as int, 2);
        }
    }
    div_trunc(a, 2)
}

/// Multiplying by zero gives zero.
pub proof fn lemma_fx_mul_zero(a: int)
    ensures
        fx_mul_s(a, 0) == 0,
        fx_mul_s(0, a) == 0,
{
    vstd::arithmetic::div_mod::lemma_div_of0(SCALE as int);
}

/// Dividing zero gives zero.
pub proof fn lemma_fx_div_zero(b: int)
    requires
        b != 0,
    ensures
        fx_div_s(0, b) == 0,
{
    if b > 0 {
        vstd::arithmetic::div_mod::lemma_div_of0(b);
    } else {
        vstd::arithmetic::div_mod::lemma_div_of0(-b);
    }
}

/// Half of zero is zero.
pub proof fn lemma_fx_half_zero()
    ensures
        fx_half_s(0) == 0,
{
    vstd::arithmetic::div_mod::lemma_div_of0(2);
}

/// Adding or subtracting zero changes nothing, and subtracting a value from
/// itself gives zero, for in-range scalars.
pub proof fn lemma_fx_add_zero(a: int)
    requires
        fx_in_range(a),
    ensures
        fx_add_s(a, 0) == a,
        fx_sub_s(a, 0) == a,
        fx_sub_s(a, a) == 0,
{
}

/// Multiplying an in-range scalar by the whole unit `SCALE` gives it back:
/// a damping factor of exactly one retains the whole velocity.
pub proof fn lemma_fx_mul_scale(v: int)
    requires
        fx_in_range(v),
    ensures
        fx_mul_s(SCALE as int, v) == v,
{
    if v >= 0 {
        vstd::arithmetic::div_mod::lemma_div_multiples_vanish(v, SCALE as int);
    } else {
        vstd::arithmetic::div_mod::lemma_div_multiples_vanish(-v, SCALE as int);
        assert(SCALE * v == -(SCALE * (-v)));
    }
}

/// Division by a positive divisor keeps the sign of the dividend.
pub proof fn lemma_div_down_sign(a: int, b: int)
    requires
        b > 0,
    ensures
        a <= 0 ==> div_down(a, b) <= 0,
        a >= 0 ==> div_down(a, b) >= 0,
{
    if a > 0 {
        vstd::arithmetic::div_mod::lemma_div_pos_is_pos(a, b);
    } else if a < 0 {
        vstd::arithmetic::div_mod::lemma_div_pos_is_pos(-a, b);
    } else {
        vstd::arithmetic::div_mod::lemma_div_of0(b);
    }
}

/// Divide a fixed-point scalar by a positive whole count (not another
/// fixed-point scalar), rounding toward zero.
pub fn fx_div_int(a: i64, n: i64) -> (r: i64)
    requires
        fx_in_range(a as int),
        n >= 1,
    ensures
        r == div_down(a as int, n as int),
        fx_in_range(r as int),
{
    proof {
        if a >= 0 {
            vstd::arithmetic::div_mod::lemma_div_nonincreasing(a as int, n as int);
            vstd::arithmetic::div_mod::lemma_div_pos_is_pos(a as int, n as int);
        } else {
            vstd::arithmetic::div_mod::lemma_div_nonincreasing(-a as int, n as int);
            vstd::arithmetic::div_mod::lemma_div_pos_is_pos(-a as int, n as int);
        }
    }
    div_trunc(a, n)
}

/// Floor of the square root of a natural number.
pub open spec fn isqrt_s(v: nat) -> nat
    decreases v,
{
    if v == 0 {
        0
    } else {
        let r = isqrt_s((v - 1) as nat);
        if (r + 1) * (r + 1) <= v {
            r + 1
        } else {
            r
        }
    }
}

/// `isqrt_s(v)` really is the floor of the square root of `v`.
pub proof fn lemma_isqrt_bounds(v: nat)
    ensures
        isqrt_s(v) * isqrt_s(v) <= v,
        v < (isqrt_s(v) + 1) * (isqrt_s(v) + 1),
    decreases v,
{
    if v == 0 {
        assert(isqrt_s(0) == 0);
        assert(isqrt_s(v) * isqrt_s(v) <= v);
        assert((isqrt_s(v) + 1) * (isqrt_s(v) + 1) == 1) by (nonlinear_arith)
            requires
                isqrt_s(v) == 0,
        ;
        assert(v < (isqrt_s(v) + 1) * (isqrt_s(v) + 1));
    } else {
        lemma_isqrt_bounds((v - 1) as nat);
        let r = isqrt_s((v - 1) as nat);
        assert(r * r <= v - 1);
        assert(v - 1 < (r + 1) * (r + 1));
        if (r + 1) * (r + 1) <= v {
            assert(isqrt_s(v) == r + 1);
            assert(isqrt_s(v) * isqrt_s(v) <= v);
            assert(v == (r + 1) * (r + 1));
            assert((r + 1) * (r + 1) < (r + 2) * (r + 2)) by (nonlinear_arith);
            assert(isqrt_s(v) + 1 == r + 2);
            assert(v < (isqrt_s(v) + 1) * (isqrt_s(v) + 1));
        } else {
            assert(isqrt_s(v) == r);
            assert(isqrt_s(v) * isqrt_s(v) <= v);
            assert(v < (r + 1) * (r + 1));
            assert(v < (isqrt_s(v) + 1) * (isqrt_s(v) + 1));
        }
    }
}

/// The floor of the square root is the only value bracketing `v`.
pub proof fn lemma_isqrt_unique(v: nat, r: nat)
    requires
        r * r <= v,
        v < (r + 1) * (r + 1),
    ensures
        r == isqrt_s(v),
{
    lemma_isqrt_bounds(v);
    let q = isqrt_s(v);
    if r < q {
        assert((r + 1) * (r + 1) <= q * q) by (nonlinear_arith)
            requires
                r + 1 <= q,
        ;
    } else if q < r {
        assert((q + 1) * (q + 1) <= r * r) by (nonlinear_arith)
            requires
                q + 1 <= r,
        ;
    }
}

/// Floor of the square root, by binary search.
pub fn isqrt(v: u64) -> (r: u64)
    requires
        v <= 0x4000_0000_0000_0000,
    ensures
        r == isqrt_s(v as nat),
{
    let mut lo: u64 = 0;
    let mut hi: u64 = 0x8000_0001;
    proof {
        assert(v < 0x8000_0001 * 0x8000_0001) by (nonlinear_arith)
            requires
                v <= 0x4000_0000_0000_0000,
        ;
    }
    while lo + 1 < hi
        invariant
            lo < hi <= 0x8000_0001,
            lo * lo <= v,
            v < hi * hi,
        decreases hi - lo,
    {
        let mid: u64 = lo + (hi - lo) / 2;
        proof {
            assert(mid * mid <= 0x4000_0000_0000_0000) by (nonlinear_arith)
                requires
                    mid <= 0x8000_0000,
            ;
        }
        if mid * mid <= v {
            lo = mid;
        } else {
            hi = mid;
        }
    }
    proof {
        lemma_isqrt_unique(v as nat, lo as nat);
    }
    lo
}

/// Model of the fixed-point square root of a nonnegative scalar.
pub open spec fn fx_sqrt_s(v: int) -> int {
    fx_clamp(isqrt_s((v * SCALE) as nat) as int)
}

/// Fixed-point square root of a nonnegative scalar.
pub fn fx_sqrt(v: i64) -> (r: i64)
    requires
        0 <= v <= FX_MAX,
    ensures
        r == fx_sqrt_s(v as int),
        fx_in_range(r as int),
{
    proof {
        assert(v * SCALE <= 0x4000_0000 * 0x10000) by (nonlinear_arith)
            requires
                0 <= v <= 0x4000_0000,
        ;
    }
    let q: u64 = isqrt((v as u64) * (SCALE as u64));
    proof {
        lemma_isqrt_bounds((v * SCALE) as nat);
        assert(isqrt_s((v * SCALE) as nat) < 0x1_0000_0000) by (nonlinear_arith)
            requires
                isqrt_s((v * SCALE) as nat) * isqrt_s((v * SCALE) as nat) <= v * SCALE,
                v * SCALE <= 0x4000_0000_0000,
        ;
    }
    fx_clamp_x(q as i64)
}

/// Model of the distance between two fixed-point plane points.
pub open spec fn dist_s(ax: int, ay: int, bx: int, by: int) -> int {
    let dx = fx_sub_s(ax, bx);
    let dy = fx_sub_s(ay, by);
    fx_clamp(isqrt_s((dx * dx + dy * dy) as nat) as int)
}

/// Distance between two fixed-point plane points, saturating.
pub fn fx_dist(ax: i64, ay: i64, bx: i64, by: i64) -> (r: i64)
    requires
        fx_in_range(ax as int),
        fx_in_range(ay as int),
        fx_in_range(bx as int),
        fx_in_range(by as int),
    ensures
        r == dist_s(ax as int, ay as int, bx as int, by as int),
        0 <= r <= FX_MAX,
{
    let dx = fx_sub(ax, bx);
    let dy = fx_sub(ay, by);
    proof {
        assert(0 <= dx * dx <= 0x1000_0000_0000_0000 && 0 <= dy * dy <= 0x1000_0000_0000_0000)
            by (nonlinear_arith)
            requires
                -0x4000_0000 <= dx <= 0x4000_0000,
                -0x4000_0000 <= dy <= 0x4000_0000,
        ;
    }
    let sum: i64 = dx * dx + dy * dy;
    let q: u64 = isqrt(sum as u64);
    proof {
        lemma_isqrt_bounds(sum as nat);
        assert(isqrt_s(sum as nat) < 0x1_0000_0000) by (nonlinear_arith)
            requires
                isqrt_s(sum as nat) * isqrt_s(sum as nat) <= sum,
                sum <= 0x2000_0000_0000_0000,
        ;
    }
    fx_clamp_x(q as i64)
}

/// Turn a grid count into a fixed-point scalar, saturating.
pub fn int_to_fx(i: usize) -> (r: i64)
    ensures
        r == int_to_fx_s(i as int),
        fx_in_range(r as int),
{
    if i >= 16384 {
        proof {
            assert(i * SCALE >= 16384 * SCALE) by (nonlinear_arith)
                requires
                    i >= 16384,
            ;
        }
        FX_MAX
    } else {
        (i as i64) * SCALE
    }
}

} // verus!
