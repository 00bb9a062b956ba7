//! Integer arithmetic helpers shared by the spatial code: coordinate
//! clamping, velocity scaling by elapsed milliseconds, integer square roots
//! and a fixed-point sine.

use vstd::prelude::*;

verus! {

/// Largest magnitude a stored coordinate or vector component may take.
/// Every coordinate the library stores is clamped into
/// `[-COORD_LIMIT, COORD_LIMIT]`, so sums of a handful of coordinates always
/// fit comfortably in an `i64` and products of two of them in an `i128`.
pub const COORD_LIMIT: i64 = 0x4000_0000_0000;

/// `v` clamped into the coordinate range.
pub open spec fn clamped(v: int) -> int {
    if v > COORD_LIMIT as int {
        COORD_LIMIT as int
    } else if v < -(COORD_LIMIT as int) {
        -(COORD_LIMIT as int)
    } else {
        v
    }
}

/// Clamp a wide intermediate value back into the stored coordinate range.
pub fn clamp_wide(v: i128) -> (r: i64)
    ensures
        r == clamped(v as int),
{
    if v > COORD_LIMIT as i128 {
        COORD_LIMIT
    } else if v < -(COORD_LIMIT as i128) {
        -COORD_LIMIT
    } else {
        v as i64
    }
}

/// Clamped coordinate addition.
pub fn cadd(a: i64, b: i64) -> (r: i64)
    ensures
        r == clamped(a + b),
{
    clamp_wide(a as i128 + b as i128)
}

/// Clamped coordinate subtraction.
pub fn csub(a: i64, b: i64) -> (r: i64)
    ensures
        r == clamped(a - b),
{
    clamp_wide(a as i128 - b as i128)
}

/// `v` world-units-per-second scaled by `dt_ms` milliseconds, rounded toward
/// zero and clamped into the coordinate range.
pub open spec fn scaled_ms(v: int, dt_ms: int) -> int {
    if v >= 0 {
        clamped((v * dt_ms) / 1000)
    } else {
        clamped(-(((-v) * dt_ms) / 1000))
    }
}

/// Scale a velocity component by an elapsed time in milliseconds.
pub fn scale_ms(v: i64, dt_ms: u64) -> (r: i64)
    ensures
        r == scaled_ms(v as int, dt_ms as int),
{
    let av: u128 = if v >= 0 {
        v as u128
    } else {
        (-(v as i128)) as u128
    };
    assert(av * (dt_ms as u128) <= 170141183460469231731687303715884105728u128) by (nonlinear_arith)
        requires
            av <= 9223372036854775808u128,
            dt_ms as u128 <= 18446744073709551615u128,
    ;
    let m: u128 = (av * (dt_ms as u128)) / 1000;
    if v >= 0 {
        clamp_wide(m as i128)
    } else {
        clamp_wide(-(m as i128))
    }
}

/// `v` scaled by the ratio `num / den`, rounded toward zero and clamped
/// into the coordinate range.
pub open spec fn scaled_frac(v: int, num: int, den: int) -> int {
    if v >= 0 {
        clamped((v * num) / den)
    } else {
        clamped(-(((-v) * num) / den))
    }
}

/// Scale a coordinate difference by a nonnegative ratio.
pub fn scale_frac(v: i64, num: u64, den: u64) -> (r: i64)
    requires
        den > 0,
    ensures
        r == scaled_frac(v as int, num as int, den as int),
{
    let av: u128 = if v >= 0 {
        v as u128
    } else {
        (-(v as i128)) as u128
    };
    assert(av * (num as u128) <= 170141183460469231731687303715884105727u128) by (nonlinear_arith)
        requires
            av <= 9223372036854775808u128,
            num as u128 <= 18446744073709551615u128,
    ;
    let m: u128 = (av * (num as u128)) / (den as u128);
    if v >= 0 {
        clamp_wide(m as i128)
    } else {
        clamp_wide(-(m as i128))
    }
}

/// Exact widening product of two machine integers.
pub fn mul_i64_wide(a: i64, b: i64) -> (r: i128)
    ensures
        r == a * b,
{
    assert((a as i128) * (b as i128) == a * b && -170141183460469231731687303715884105727i128 <= (
    a as i128) * (b as i128) <= 170141183460469231731687303715884105727i128) by (nonlinear_arith)
        requires
            -9223372036854775808i128 <= a as i128 <= 9223372036854775807i128,
            -9223372036854775808i128 <= b as i128 <= 9223372036854775807i128,
    ;
    (a as i128) * (b as i128)
}

/// The floor of the square root of `n`.
pub open spec fn sqrt_floor(n: nat) -> nat {
    choose|r: nat| #[trigger] (r * r) <= n < (r + 1) * (r + 1)
}

/// Every natural number has an integer square root.
pub proof fn lemma_sqrt_exists(n: nat)
    ensures
        exists|r: nat| #[trigger] (r * r) <= n < (r + 1) * (r + 1),
    decreases n,
{
    if n == 0 {
        let z: nat = 0;
        assert(z * z == 0 && (z + 1) * (z + 1) == 1) by (nonlinear_arith)
            requires
                z == 0,
        ;
        assert(z * z <= n < (z + 1) * (z + 1));
    } else {
        lemma_sqrt_exists((n - 1) as nat);
        let r = choose|r: nat| #[trigger] (r * r) <= n - 1 < (r + 1) * (r + 1);
        if (r + 1) * (r + 1) <= n {
            assert((r + 1) * (r + 1) <= n < (r + 1 + 1) * (r + 1 + 1)) by (nonlinear_arith)
                requires
                    (r + 1) * (r + 1) <= n,
                    n - 1 < (r + 1) * (r + 1),
            ;
        } else {
            assert(r * r <= n < (r + 1) * (r + 1));
        }
    }
}

/// The integer square root is characterised by its defining inequalities.
pub proof fn lemma_sqrt_is(n: nat, r: nat)
    requires
        r * r <= n < (r + 1) * (r + 1),
    ensures
        sqrt_floor(n) == r,
{
    lemma_sqrt_exists(n);
    let s = sqrt_floor(n);
    assert(s * s <= n < (s + 1) * (s + 1));
    if s < r {
        assert((s + 1) * (s + 1) <= r * r) by (nonlinear_arith)
            requires
                s + 1 <= r,
        ;
    } else if r < s {
        assert((r + 1) * (r + 1) <= s * s) by (nonlinear_arith)
            requires
                r + 1 <= s,
        ;
    }
}

/// Floor of the square root, for any value a sum of two squared clamped
/// coordinates can reach.
pub fn isqrt(n: u128) -> (r: u64)
    requires
        n < 79228162514264337593543950336u128,
    ensures
        r as nat == sqrt_floor(n as nat),
        (r as nat) * (r as nat) <= n as nat,
        (n as nat) < ((r + 1) as nat) * ((r + 1) as nat),
{
    let mut lo: u64 = 0;
    let mut hi: u64 = 281474976710656u64;
    assert((hi as u128) * (hi as u128) == 79228162514264337593543950336u128) by (nonlinear_arith)
        requires
            hi == 281474976710656u64,
    ;
    while lo + 1 < hi
        invariant
            lo < hi,
            hi <= 281474976710656u64,
            (lo as u128) * (lo as u128) <= n,
            n < (hi as u128) * (hi as u128),
        decreases hi - lo,
    {
        let mid: u64 = lo + (hi - lo) / 2;
        assert((mid as u128) * (mid as u128) <= 79228162514264337593543950336u128)
            by (nonlinear_arith)
            requires
                mid as u128 <= 281474976710656u128,
        ;
        if (mid as u128) * (mid as u128) <= n {
            lo = mid;
        } else {
            hi = mid;
        }
    }
    assert(hi == lo + 1);
    assert((lo as nat) * (lo as nat) <= n as nat);
    assert((n as nat) < ((lo + 1) as nat) * ((lo + 1) as nat));
    proof {
        lemma_sqrt_is(n as nat, lo as nat);
    }
    lo
}

/// Euclidean distance, rounded down, between two points.
pub open spec fn dist_points(ax: int, ay: int, bx: int, by: int) -> int {
    sqrt_floor(((bx - ax) * (bx - ax) + (by - ay) * (by - ay)) as nat) as int
}

/// Distance between two points whose coordinates lie in the clamped range.
pub fn dist_exec(ax: i64, ay: i64, bx: i64, by: i64) -> (r: u64)
    requires
        -COORD_LIMIT <= ax <= COORD_LIMIT,
        -COORD_LIMIT <= ay <= COORD_LIMIT,
        -COORD_LIMIT <= bx <= COORD_LIMIT,
        -COORD_LIMIT <= by <= COORD_LIMIT,
    ensures
        r as int == dist_points(ax as int, ay as int, bx as int, by as int),
{
    let dx: i128 = bx as i128 - ax as i128;
    let dy: i128 = by as i128 - ay as i128;
    assert(dx * dx + dy * dy < 79228162514264337593543950336i128 && dx * dx >= 0 && dy * dy >= 0)
        by (nonlinear_arith)
        requires
            -140737488355328i128 <= dx <= 140737488355328i128,
            -140737488355328i128 <= dy <= 140737488355328i128,
    ;
    let sq: u128 = (dx * dx + dy * dy) as u128;
    isqrt(sq)
}

/// One milli-unit shy of pi, the half-period of the fixed-point sine.
pub const PI_MILLI: u64 = 3141;

/// Bhaskara's rational sine approximation on `[0, PI_MILLI]` milliradians,
/// in milli-units.
pub open spec fn sin_half_spec(x: int) -> int {
    (16 * x * (PI_MILLI - x) * 1000) / (5 * PI_MILLI * PI_MILLI - 4 * x * (PI_MILLI - x))
}

/// Fixed-point sine of an angle in milliradians, in milli-units: the angle is
/// reduced modulo one period of `2 * PI_MILLI`, the first half-period uses
/// the rational approximation and the second its negation.
pub open spec fn sin_milli_spec(a: int) -> int {
    let x = a % (2 * PI_MILLI as int);
    if x < PI_MILLI as int {
        sin_half_spec(x)
    } else {
        -sin_half_spec(x - PI_MILLI as int)
    }
}

/// The rational sine stays within one milli-unit amplitude.
pub proof fn lemma_sin_half_bounded(x: int)
    requires
        0 <= x <= PI_MILLI as int,
    ensures
        0 <= sin_half_spec(x) <= 1000,
{
    let p = x * (PI_MILLI as int - x);
    assert(0 <= p && 4 * p <= PI_MILLI as int * PI_MILLI as int) by (nonlinear_arith)
        requires
            0 <= x <= PI_MILLI as int,
            p == x * (PI_MILLI as int - x),
    ;
    let num = 16 * x * (PI_MILLI as int - x) * 1000;
    let den = 5 * PI_MILLI as int * PI_MILLI as int - 4 * x * (PI_MILLI as int - x);
    assert(num == 16000 * p && den == 5 * PI_MILLI as int * PI_MILLI as int - 4 * p)
        by (nonlinear_arith)
        requires
            p == x * (PI_MILLI as int - x),
            num == 16 * x * (PI_MILLI as int - x) * 1000,
            den == 5 * PI_MILLI as int * PI_MILLI as int - 4 * x * (PI_MILLI as int - x),
    ;
    assert(den >= 4 * PI_MILLI as int * PI_MILLI as int - 5 && num <= 1000 * den && num >= 0)
        by (nonlinear_arith)
        requires
            0 <= p,
            4 * p <= PI_MILLI as int * PI_MILLI as int,
            num == 16000 * p,
            den == 5 * PI_MILLI as int * PI_MILLI as int - 4 * p,
    ;
    vstd::arithmetic::div_mod::lemma_div_is_ordered(num, den * 1000, den);
    vstd::arithmetic::div_mod::lemma_div_multiples_vanish(1000, den);
    vstd::arithmetic::div_mod::lemma_div_pos_is_pos(num, den);
}

/// Fixed-point sine in milli-units of an angle in milliradians.
pub fn sin_milli(a: u64) -> (r: i64)
    ensures
        r == sin_milli_spec(a as int),
        -1000 <= r <= 1000,
{
    let x: u64 = a % (2 * PI_MILLI);
    let h: u64 = if x < PI_MILLI {
        x
    } else {
        x - PI_MILLI
    };
    assert(0 <= (h as int) * (PI_MILLI as int - h as int) <= 2466470) by (nonlinear_arith)
        requires
            0 <= h as int <= 3141,
    ;
    let p: u64 = h * (PI_MILLI - h);
    let num: u64 = 16 * p * 1000;
    let den: u64 = 5 * PI_MILLI * PI_MILLI - 4 * p;
    let q: u64 = num / den;
    proof {
        lemma_sin_half_bounded(h as int);
        assert(num as int == 16 * (h as int) * (PI_MILLI as int - h as int) * 1000
            && den as int == 5 * (PI_MILLI as int) * (PI_MILLI as int) - 4 * (h as int) * (
        PI_MILLI as int - h as int)) by (nonlinear_arith)
            requires
                p as int == (h as int) * (PI_MILLI as int - h as int),
                num as int == 16 * (p as int) * 1000,
                den as int == 5 * (PI_MILLI as int) * (PI_MILLI as int) - 4 * (p as int),
        ;
        assert(q == sin_half_spec(h as int));
    }
    if x < PI_MILLI {
        q as i64
    } else {
        -(q as i64)
    }
}

} // verus!
