//! Fixed-point scalar arithmetic for the renderer.
//!
//! A scalar is an `i64` holding the real value times [`SCALE`]; `SCALE`
//! itself stands for one. All operations round toward negative infinity.

use vstd::prelude::*;

verus! {

/// The fixed-point unit: an `i64` scalar `v` stands for the real number
/// `v / SCALE`.
pub const SCALE: i64 = 65536;

/// `v` limited to the closed interval `[lo, hi]`.
pub open spec fn spec_clamp(v: int, lo: int, hi: int) -> int {
    if v < lo {
        lo
    } else if v > hi {
        hi
    } else {
        v
    }
}

/// Clamp `v` into the closed interval `[lo, hi]`.
pub fn clamp(v: i64, lo: i64, hi: i64) -> (r: i64)
    requires
        lo <= hi,
    ensures
        r == spec_clamp(v as int, lo as int, hi as int),
        lo <= r <= hi,
{
    if v < lo {
        lo
    } else if v > hi {
        hi
    } else {
        v
    }
}

/// Floor division: the quotient of `a` by `b`, rounded toward negative
/// infinity, matching Verus's Euclidean `/` for a positive divisor.
pub fn div_floor(a: i64, b: i64) -> (r: i64)
    requires
        1 <= b,
        -0x4000_0000_0000_0000 <= a <= 0x4000_0000_0000_0000,
    ensures
        r == a as int / b as int,
        a >= 0 ==> 0 <= r <= a,
        a < 0 ==> a <= r <= 0,
{
    if a >= 0 {
        let q: u64 = (a as u64) / (b as u64);
        proof {
            vstd::arithmetic::div_mod::lemma_div_nonincreasing(a as int, b as int);
            vstd::arithmetic::div_mod::lemma_div_pos_is_pos(a as int, b as int);
        }
        q as i64
    } else {
        let na: u64 = (-a) as u64;
        let q: u64 = na / (b as u64);
        let rem: u64 = na % (b as u64);
        proof {
            vstd::arithmetic::div_mod::lemma_div_nonincreasing(na as int, b as int);
            vstd::arithmetic::div_mod::lemma_div_pos_is_pos(na as int, b as int);
            vstd::arithmetic::div_mod::lemma_fundamental_div_mod(na as int, b as int);
            assert(na as int == b as int * q as int + rem as int);
            assert(0 <= rem < b);
            if rem == 0 {
                assert(a as int == (-(q as int)) * (b as int) + 0) by (nonlinear_arith)
                    requires
                        a as int == -(na as int),
                        na as int == b as int * q as int,
                ;
                vstd::arithmetic::div_mod::lemma_fundamental_div_mod_converse(
                    a as int,
                    b as int,
                    -(q as int),
                    0,
                );
            } else {
                assert(a as int == (-(q as int) - 1) * (b as int) + (b as int - rem as int))
                    by (nonlinear_arith)
                    requires
                        a as int == -(na as int),
                        na as int == b as int * q as int + rem as int,
                ;
                vstd::arithmetic::div_mod::lemma_fundamental_div_mod_converse(
                    a as int,
                    b as int,
                    -(q as int) - 1,
                    b - rem,
                );
                assert(q as int <= na as int - 1) by (nonlinear_arith)
                    requires
                        na as int == b as int * q as int + rem as int,
                        1 <= rem,
                        1 <= b,
                        0 <= q as int,
                ;
            }
        }
        if rem == 0 {
            -(q as i64)
        } else {
            -(q as i64) - 1
        }
    }
}

/// The fixed-point product `(a * b) / SCALE`, rounded toward negative
/// infinity.
pub open spec fn spec_fp_mul(a: int, b: int) -> int {
    (a * b) / 65536
}

/// Fixed-point multiplication.
pub fn fp_mul(a: i64, b: i64) -> (r: i64)
    requires
        -0x4000_0000 <= a <= 0x4000_0000,
        -0x4000_0000 <= b <= 0x4000_0000,
    ensures
        r == spec_fp_mul(a as int, b as int),
        -0x1000_0000_0000_0000 <= r <= 0x1000_0000_0000_0000,
{
    proof {
        assert(-0x1000_0000_0000_0000 <= a * b <= 0x1000_0000_0000_0000) by (nonlinear_arith)
            requires
                -0x4000_0000 <= a <= 0x4000_0000,
                -0x4000_0000 <= b <= 0x4000_0000,
        ;
    }
    let p: i64 = a * b;
    div_floor(p, SCALE)
}

/// The fixed-point quotient `(a * SCALE) / b`, rounded toward negative
/// infinity; `b` must be positive.
pub open spec fn spec_fp_div(a: int, b: int) -> int {
    (a * 65536) / b
}

/// Fixed-point division by a positive scalar.
pub fn fp_div(a: i64, b: i64) -> (r: i64)
    requires
        1 <= b,
        -0x4000_0000 <= a <= 0x4000_0000,
    ensures
        r == spec_fp_div(a as int, b as int),
        -0x4000_0000_0000 <= r <= 0x4000_0000_0000,
{
    let p: i64 = a * SCALE;
    div_floor(p, b)
}

/// Linear interpolation from `a` (at `t == 0`) to `b` (at `t == SCALE`).
pub open spec fn spec_mix(a: int, b: int, t: int) -> int {
    a + ((b - a) * t) / 65536
}

/// Linear interpolation; the result stays between `a` and `b`.
pub fn mix(a: i64, b: i64, t: i64) -> (r: i64)
    requires
        -0x4000_0000 <= a <= 0x4000_0000,
        -0x4000_0000 <= b <= 0x4000_0000,
        0 <= t <= 65536,
    ensures
        r == spec_mix(a as int, b as int, t as int),
        a <= b ==> a <= r <= b,
        b <= a ==> b <= r <= a,
{
    let d: i64 = b - a;
    proof {
        if d >= 0 {
            assert(0 <= d * t <= d * 65536) by (nonlinear_arith)
                requires
                    0 <= d,
                    0 <= t <= 65536,
            ;
        } else {
            assert(d * 65536 <= d * t <= 0) by (nonlinear_arith)
                requires
                    d < 0,
                    0 <= t <= 65536,
            ;
        }
        assert(-0x8000_0000 * 0x10000 <= d * 65536 <= 0x8000_0000 * 0x10000) by (nonlinear_arith)
            requires
                -0x8000_0000 <= d <= 0x8000_0000,
        ;
    }
    let scaled: i64 = d * t;
    let frac: i64 = div_floor(scaled, SCALE);
    proof {
        if d >= 0 {
            assert(frac <= d) by {
                assert(scaled as int / 65536 <= d * 65536 / 65536) by (nonlinear_arith)
                    requires
                        scaled <= d * 65536,
                        0 <= scaled,
                ;
                assert(d * 65536 / 65536 == d) by (nonlinear_arith);
            }
        } else {
            assert(frac >= d) by {
                assert(d * 65536 / 65536 <= scaled as int / 65536) by (nonlinear_arith)
                    requires
                        d * 65536 <= scaled,
                ;
                assert(d * 65536 / 65536 == d) by (nonlinear_arith);
            }
        }
    }
    a + frac
}

/// The clamped interpolation parameter of `smoothstep`: `(x - e0) / (e1 - e0)`
/// limited to `[0, SCALE]`. Both edge orders are allowed; the two branches
/// agree with the real-valued quotient wherever it is defined.
pub open spec fn spec_smoothstep_t(e0: int, e1: int, x: int) -> int {
    if e1 > e0 {
        spec_clamp(((x - e0) * 65536) / (e1 - e0), 0, 65536)
    } else {
        spec_clamp(((e0 - x) * 65536) / (e0 - e1), 0, 65536)
    }
}

/// Hermite smoothstep: `t * t * (3 - 2 * t)` of the clamped parameter.
pub open spec fn spec_smoothstep(e0: int, e1: int, x: int) -> int {
    let t = spec_smoothstep_t(e0, e1, x);
    ((t * t) / 65536) * (3 * 65536 - 2 * t) / 65536
}

/// Smooth Hermite ramp between the two edges; 0 at `e0` and before it,
/// `SCALE` at `e1` and past it (edges may be given in either order).
/// The result reaches `SCALE` exactly when the clamped parameter does.
pub fn smoothstep(e0: i64, e1: i64, x: i64) -> (r: i64)
    requires
        e0 != e1,
        -0x4000_0000 <= e0 <= 0x4000_0000,
        -0x4000_0000 <= e1 <= 0x4000_0000,
        -0x4000_0000 <= x <= 0x4000_0000,
    ensures
        r == spec_smoothstep(e0 as int, e1 as int, x as int),
        0 <= r <= 65536,
        r == 65536 <==> spec_smoothstep_t(e0 as int, e1 as int, x as int) == 65536,
{
    let t: i64 = if e1 > e0 {
        clamp(div_floor((x - e0) * SCALE, e1 - e0), 0, SCALE)
    } else {
        clamp(div_floor((e0 - x) * SCALE, e0 - e1), 0, SCALE)
    };
    proof {
        assert(0 <= t * t <= 65536 * 65536) by (nonlinear_arith)
            requires
                0 <= t <= 65536,
        ;
    }
    let t2: i64 = fp_mul(t, t);
    proof {
        assert(65536 * t2 <= t as int * t as int && 0 <= t2 <= 65536) by (nonlinear_arith)
            requires
                0 <= t <= 65536,
                t2 == (t as int * t as int) / 65536,
        ;
        assert(t as int * t as int * (3 * 65536 - 2 * t) <= 65536 * (65536 * 65536 - (65536 - t)))
            by (nonlinear_arith)
            requires
                0 <= t <= 65536,
        ;
        assert(t2 * (3 * 65536 - 2 * t) <= 65536 * 65536 - (65536 - t)) by (nonlinear_arith)
            requires
                0 <= t <= 65536,
                65536 * t2 <= t as int * t as int,
                t as int * t as int * (3 * 65536 - 2 * t) <= 65536 * (65536 * 65536 - (65536
                    - t)),
        ;
        assert(0 <= t2 * (3 * 65536 - 2 * t)) by (nonlinear_arith)
            requires
                0 <= t <= 65536,
                0 <= t2,
        ;
    }
    let r: i64 = fp_mul(t2, 3 * SCALE - 2 * t);
    proof {
        vstd::arithmetic::div_mod::lemma_div_is_ordered(
            t2 as int * (3 * 65536 - 2 * t as int),
            65536int * 65536 - (65536 - t as int),
            65536,
        );
        vstd::arithmetic::div_mod::lemma_div_pos_is_pos(
            t2 as int * (3 * 65536 - 2 * t as int),
            65536,
        );
        if t < 65536 {
            vstd::arithmetic::div_mod::lemma_div_is_ordered(
                65536int * 65536 - (65536 - t as int),
                65536int * 65536 - 1,
                65536,
            );
            assert((65536int * 65536 - 1) / 65536 == 65535);
            assert(r < 65536);
        } else {
            assert(t2 == 65536) by (nonlinear_arith)
                requires
                    t == 65536,
                    t2 == (t as int * t as int) / 65536,
            ;
            assert(r == (65536int * 65536) / 65536) by (nonlinear_arith)
                requires
                    r == (t2 as int * (3 * 65536 - 2 * t as int)) / 65536,
                    t2 == 65536,
                    t == 65536,
            ;
            assert((65536int * 65536) / 65536 == 65536);
        }
    }
    r
}

/// Fixed-point product of a bounded nonnegative scalar with a factor in
/// `[0, 1]`; the result never exceeds the scalar.
pub fn mul_unit(a: i64, b: i64) -> (r: i64)
    requires
        0 <= a <= 262144,
        0 <= b <= 65536,
    ensures
        r == spec_fp_mul(a as int, b as int),
        0 <= r <= a,
{
    proof {
        assert(0 <= a * b && a * b <= a * 65536) by (nonlinear_arith)
            requires
                0 <= a,
                0 <= b <= 65536,
        ;
        assert(a * 65536 <= 262144 * 65536) by (nonlinear_arith)
            requires
                0 <= a <= 262144,
        ;
    }
    let p: i64 = a * b;
    let r: i64 = div_floor(p, SCALE);
    proof {
        vstd::arithmetic::div_mod::lemma_div_is_ordered(p as int, a as int * 65536, 65536);
        assert(a as int * 65536 / 65536 == a) by (nonlinear_arith);
    }
    r
}

/// The integer square root: the greatest `r` with `r * r <= n`.
pub open spec fn spec_isqrt(n: int) -> int {
    choose|r: int| 0 <= r && #[trigger] (r * r) <= n && (r + 1) * (r + 1) > n
}

/// No two distinct numbers satisfy the integer-square-root property.
pub proof fn lemma_isqrt_unique(n: int, r1: int, r2: int)
    by (nonlinear_arith)
    requires
        0 <= r1,
        r1 * r1 <= n,
        (r1 + 1) * (r1 + 1) > n,
        0 <= r2,
        r2 * r2 <= n,
        (r2 + 1) * (r2 + 1) > n,
    ensures
        r1 == r2,
{
}

/// Integer square root by bisection.
pub fn isqrt(n: u64) -> (r: u64)
    requires
        n < 0x4000_0000_0000_0000,
    ensures
        r * r <= n,
        (r + 1) * (r + 1) > n,
        r == spec_isqrt(n as int),
        r < 0x8000_0000,
{
    let mut lo: u64 = 0;
    let mut hi: u64 = 0x8000_0000;
    proof {
        assert(0x8000_0000 * 0x8000_0000 > n as int);
    }
    while lo + 1 < hi
        invariant
            lo < hi <= 0x8000_0000,
            lo as int * lo as int <= n as int,
            hi as int * hi as int > n as int,
            n < 0x4000_0000_0000_0000,
        decreases hi - lo,
    {
        let mid: u64 = lo + (hi - lo) / 2;
        proof {
            assert(mid * mid < 0x8000_0000 * 0x8000_0000) by (nonlinear_arith)
                requires
                    mid < 0x8000_0000,
            ;
        }
        if mid * mid <= n {
            lo = mid;
        } else {
            hi = mid;
        }
    }
    proof {
        assert(lo as int * lo as int <= n as int && (lo as int + 1) * (lo as int + 1) > n as int);
        lemma_isqrt_unique(n as int, lo as int, spec_isqrt(n as int));
    }
    lo
}

/// The square root of a fixed-point scalar in `[0, 1]`.
pub open spec fn spec_sqrt_unit(u: int) -> int {
    spec_isqrt(u * 65536)
}

/// Square root of a scalar in `[0, 1]`; the result stays in `[0, 1]`.
pub fn sqrt_unit(u: i64) -> (r: i64)
    requires
        0 <= u <= 65536,
    ensures
        r == spec_sqrt_unit(u as int),
        0 <= r <= 65536,
{
    let n: u64 = (u as u64) * 65536;
    let r: u64 = isqrt(n);
    proof {
        assert(r <= 65536) by (nonlinear_arith)
            requires
                r as int * r as int <= n as int,
                n <= 65536int * 65536,
                0 <= r,
        ;
    }
    r as i64
}

/// The three-halves power of a scalar in `[0, 1]`: `u * sqrt(u)`.
pub open spec fn spec_pow_3_2(u: int) -> int {
    (u * spec_sqrt_unit(u)) / 65536
}

/// `u` raised to the power three halves, for `u` in `[0, 1]`.
pub fn pow_3_2(u: i64) -> (r: i64)
    requires
        0 <= u <= 65536,
    ensures
        r == spec_pow_3_2(u as int),
        0 <= r <= u,
{
    let s: i64 = sqrt_unit(u);
    mul_unit(u, s)
}

/// The seven-fourths power of a scalar in `[0, 1]`: `u * sqrt(u * sqrt(u))`.
pub open spec fn spec_pow_7_4(u: int) -> int {
    (u * spec_sqrt_unit(spec_pow_3_2(u))) / 65536
}

/// `u` raised to the power seven fourths, for `u` in `[0, 1]`.
pub fn pow_7_4(u: i64) -> (r: i64)
    requires
        0 <= u <= 65536,
    ensures
        r == spec_pow_7_4(u as int),
        0 <= r <= u,
{
    let p: i64 = pow_3_2(u);
    let s: i64 = sqrt_unit(p);
    mul_unit(u, s)
}

/// The absolute value of a scalar.
pub fn abs_fp(v: i64) -> (r: i64)
    requires
        -0x4000_0000_0000_0000 <= v,
    ensures
        r == vstd::math::abs(v as int),
        0 <= r,
{
    if v < 0 {
        -v
    } else {
        v
    }
}

/// Half a turn: the angle pi in fixed point.
pub const PI_FP: i64 = 205887;

/// A full turn: two pi in fixed point.
pub const TAU_FP: i64 = 411774;

/// A quarter turn, used to turn the sine into the cosine.
pub const HALF_PI_FP: i64 = 102944;

/// The sine approximation on the first half turn: the parabola
/// `4 * u * (pi - u) / pi^2`, which is 0 at both ends and 1 at the crest.
pub open spec fn spec_sin_half(u: int) -> int {
    let a = 4 * u * (205887 - u);
    ((a / 205887) * 65536) / 205887
}

/// The sine approximation on any angle: the argument reduced to one turn,
/// the parabola on the first half, its mirror image below zero on the second.
pub open spec fn spec_sin(x: int) -> int {
    let m = x % 411774;
    if m < 205887 {
        spec_sin_half(m)
    } else {
        -spec_sin_half(m - 205887)
    }
}

/// The cosine: the sine a quarter turn ahead.
pub open spec fn spec_cos(x: int) -> int {
    spec_sin(x + 102944)
}

fn sin_half(u: i64) -> (r: i64)
    requires
        0 <= u <= 205887,
    ensures
        r == spec_sin_half(u as int),
        0 <= r <= 65536,
{
    proof {
        assert(0 <= 4 * u * (205887 - u) <= 205887 * 205887) by (nonlinear_arith)
            requires
                0 <= u <= 205887,
        ;
    }
    let four_u: i64 = 4 * u;
    let a: i64 = four_u * (PI_FP - u);
    let b: i64 = div_floor(a, PI_FP);
    proof {
        vstd::arithmetic::div_mod::lemma_div_is_ordered(a as int, 205887int * 205887, 205887);
        assert(205887 * 205887 / 205887 == 205887) by (nonlinear_arith);
    }
    div_floor(b * SCALE, PI_FP)
}

/// The sine of a fixed-point angle in radians.
pub fn fp_sin(x: i64) -> (r: i64)
    requires
        -0x100_0000_0000 <= x <= 0x100_0000_0000,
    ensures
        r == spec_sin(x as int),
        -65536 <= r <= 65536,
{
    let q: i64 = div_floor(x, TAU_FP);
    proof {
        assert(-0x100_0000_0000 <= q <= 0x100_0000_0000);
        assert(-0x100_0000_0000 * 411774 <= q * 411774 <= 0x100_0000_0000 * 411774)
            by (nonlinear_arith)
            requires
                -0x100_0000_0000 <= q <= 0x100_0000_0000,
        ;
        vstd::arithmetic::div_mod::lemma_fundamental_div_mod(x as int, 411774);
    }
    let m: i64 = x - q * TAU_FP;
    proof {
        assert(m == x as int % 411774);
        vstd::arithmetic::div_mod::lemma_mod_bound(x as int, 411774);
    }
    if m < PI_FP {
        sin_half(m)
    } else {
        let r: i64 = sin_half(m - PI_FP);
        -r
    }
}

/// The cosine of a fixed-point angle in radians.
pub fn fp_cos(x: i64) -> (r: i64)
    requires
        -0x100_0000_0000 <= x <= 0xFF_FFFE_0000,
    ensures
        r == spec_cos(x as int),
        -65536 <= r <= 65536,
{
    fp_sin(x + HALF_PI_FP)
}

/// One 8-bit channel of a packed color: the scalar clamped to `[0, SCALE]`
/// and quantized to `[0, 255]`.
pub open spec fn spec_pack_channel(v: int) -> int {
    (spec_clamp(v, 0, 65536) * 255) / 65536
}

/// Three scalars packed as `0x00RRGGBB`.
pub open spec fn spec_rgb_to_u32(r: int, g: int, b: int) -> int {
    spec_pack_channel(r) * 0x10000 + spec_pack_channel(g) * 0x100 + spec_pack_channel(b)
}

fn pack_channel(v: i64) -> (r: u32)
    ensures
        r == spec_pack_channel(v as int),
        r <= 255,
{
    let c: i64 = clamp(v, 0, SCALE);
    ((c as u64 * 255) / 65536) as u32
}

/// Pack three fixed-point channels into one `0x00RRGGBB` pixel, clamping
/// each channel to `[0, SCALE]` first.
pub fn rgb_to_u32(r: i64, g: i64, b: i64) -> (c: u32)
    ensures
        c == spec_rgb_to_u32(r as int, g as int, b as int),
        c <= 0xFF_FFFF,
{
    let pr: u32 = pack_channel(r);
    let pg: u32 = pack_channel(g);
    let pb: u32 = pack_channel(b);
    pr * 0x10000 + pg * 0x100 + pb
}

/// The red byte of a packed pixel.
pub open spec fn spec_byte_r(c: int) -> int {
    (c / 0x10000) % 0x100
}

/// The green byte of a packed pixel.
pub open spec fn spec_byte_g(c: int) -> int {
    (c / 0x100) % 0x100
}

/// The blue byte of a packed pixel.
pub open spec fn spec_byte_b(c: int) -> int {
    c % 0x100
}

/// An 8-bit channel widened back to a fixed-point scalar, rounding up so
/// that packing it again returns the same byte.
pub open spec fn spec_unpack_channel(byte: int) -> int {
    (byte * 65536 + 254) / 255
}

/// The red channel of a packed pixel as a fixed-point scalar.
pub fn unpack_r(c: u32) -> (r: i64)
    ensures
        r == spec_unpack_channel(spec_byte_r(c as int)),
        0 <= r <= 65536,
{
    let byte: u32 = (c / 0x10000) % 0x100;
    ((byte as u64 * 65536 + 254) / 255) as i64
}

/// The green channel of a packed pixel as a fixed-point scalar.
pub fn unpack_g(c: u32) -> (r: i64)
    ensures
        r == spec_unpack_channel(spec_byte_g(c as int)),
        0 <= r <= 65536,
{
    let byte: u32 = (c / 0x100) % 0x100;
    ((byte as u64 * 65536 + 254) / 255) as i64
}

/// The blue channel of a packed pixel as a fixed-point scalar.
pub fn unpack_b(c: u32) -> (r: i64)
    ensures
        r == spec_unpack_channel(spec_byte_b(c as int)),
        0 <= r <= 65536,
{
    let byte: u32 = c % 0x100;
    ((byte as u64 * 65536 + 254) / 255) as i64
}

/// Color quantization loses nothing that is already 8-bit: packing an
/// unpacked channel byte returns that byte.
pub proof fn lemma_channel_roundtrip(q: int)
    requires
        0 <= q <= 255,
    ensures
        spec_pack_channel(spec_unpack_channel(q)) == q,
{
    let v = (q * 65536 + 254) / 255;
    vstd::arithmetic::div_mod::lemma_fundamental_div_mod(q * 65536 + 254, 255);
    vstd::arithmetic::div_mod::lemma_mod_bound(q * 65536 + 254, 255);
    assert(q * 65536 <= 255 * v <= q * 65536 + 254);
    assert(0 <= v) by (nonlinear_arith)
        requires
            0 <= q * 65536 <= 255 * v,
    ;
    assert(v <= 65536) by (nonlinear_arith)
        requires
            q <= 255,
            255 * v <= q * 65536 + 254,
    ;
    assert(spec_clamp(v, 0, 65536) == v);
    assert(v * 255 == 255 * v) by (nonlinear_arith);
    vstd::arithmetic::div_mod::lemma_div_is_ordered(q * 65536, v * 255, 65536);
    vstd::arithmetic::div_mod::lemma_div_is_ordered(v * 255, q * 65536 + 254, 65536);
    assert(q * 65536 / 65536 == q) by (nonlinear_arith);
    assert((q * 65536 + 254) / 65536 == q) by (nonlinear_arith);
}

/// Over-blending with full alpha returns the source channel exactly:
/// nothing of the destination remains.
pub proof fn lemma_blend_full(s: int, d: int)
    ensures
        spec_blend_channel(s, d, 65536) == s,
{
    assert(s * 65536 + d * (65536 - 65536) == s * 65536) by (nonlinear_arith);
    assert(s * 65536 / 65536 == s) by (nonlinear_arith);
}

/// Packing is monotone: a brighter scalar never packs to a smaller byte.
pub proof fn lemma_pack_channel_monotone(a: int, b: int)
    requires
        a <= b,
    ensures
        spec_pack_channel(a) <= spec_pack_channel(b),
{
    let ca = spec_clamp(a, 0, 65536);
    let cb = spec_clamp(b, 0, 65536);
    assert(ca <= cb);
    vstd::arithmetic::div_mod::lemma_div_is_ordered(ca * 255, cb * 255, 65536);
}

/// A packed channel byte always lies in `[0, 255]`.
pub proof fn lemma_pack_channel_range(v: int)
    ensures
        0 <= spec_pack_channel(v) <= 255,
{
    let c = spec_clamp(v, 0, 65536);
    vstd::arithmetic::div_mod::lemma_div_pos_is_pos(c * 255, 65536);
    vstd::arithmetic::div_mod::lemma_div_is_ordered(c * 255, 65536int * 255, 65536);
    assert((65536int * 255) / 65536 == 255) by (nonlinear_arith);
}

/// The three bytes of a packed pixel are the three packed channels.
pub proof fn lemma_rgb_bytes(r: int, g: int, b: int)
    requires
        0 <= r <= 255,
        0 <= g <= 255,
        0 <= b <= 255,
    ensures
        spec_byte_r(r * 0x10000 + g * 0x100 + b) == r,
        spec_byte_g(r * 0x10000 + g * 0x100 + b) == g,
        spec_byte_b(r * 0x10000 + g * 0x100 + b) == b,
{
    let v = r * 0x10000 + g * 0x100 + b;
    vstd::arithmetic::div_mod::lemma_fundamental_div_mod_converse(v, 0x10000, r, g * 0x100 + b);
    vstd::arithmetic::div_mod::lemma_fundamental_div_mod_converse(v, 0x100, r * 0x100 + g, b);
    vstd::arithmetic::div_mod::lemma_fundamental_div_mod_converse(r, 0x100, 0, r);
    vstd::arithmetic::div_mod::lemma_fundamental_div_mod_converse(
        r * 0x100 + g,
        0x100,
        r,
        g,
    );
}

/// The smoothstep always lands in `[0, SCALE]`, and reaches `SCALE`
/// exactly when its clamped parameter does.
pub proof fn lemma_smoothstep_props(e0: int, e1: int, x: int)
    ensures
        0 <= spec_smoothstep(e0, e1, x) <= 65536,
        spec_smoothstep(e0, e1, x) == 65536 <==> spec_smoothstep_t(e0, e1, x) == 65536,
{
    let t = spec_smoothstep_t(e0, e1, x);
    assert(0 <= t <= 65536);
    let t2 = (t * t) / 65536;
    assert(65536 * t2 <= t * t && 0 <= t2 <= 65536) by (nonlinear_arith)
        requires
            0 <= t <= 65536,
            t2 == (t * t) / 65536,
    ;
    assert(t * t * (3 * 65536 - 2 * t) <= 65536 * (65536 * 65536 - (65536 - t)))
        by (nonlinear_arith)
        requires
            0 <= t <= 65536,
    ;
    assert(t2 * (3 * 65536 - 2 * t) <= 65536 * 65536 - (65536 - t)) by (nonlinear_arith)
        requires
            0 <= t <= 65536,
            65536 * t2 <= t * t,
            t * t * (3 * 65536 - 2 * t) <= 65536 * (65536 * 65536 - (65536 - t)),
    ;
    assert(0 <= t2 * (3 * 65536 - 2 * t)) by (nonlinear_arith)
        requires
            0 <= t <= 65536,
            0 <= t2,
    ;
    let r = t2 * (3 * 65536 - 2 * t) / 65536;
    vstd::arithmetic::div_mod::lemma_div_is_ordered(
        t2 * (3 * 65536 - 2 * t),
        65536int * 65536 - (65536 - t),
        65536,
    );
    vstd::arithmetic::div_mod::lemma_div_pos_is_pos(t2 * (3 * 65536 - 2 * t), 65536);
    if t < 65536 {
        vstd::arithmetic::div_mod::lemma_div_is_ordered(
            65536int * 65536 - (65536 - t),
            65536int * 65536 - 1,
            65536,
        );
        assert((65536int * 65536 - 1) / 65536 == 65535);
        assert(r < 65536);
    } else {
        assert(t2 == 65536) by (nonlinear_arith)
            requires
                t == 65536,
                t2 == (t * t) / 65536,
        ;
        assert(r == (65536int * 65536) / 65536) by (nonlinear_arith)
            requires
                r == (t2 * (3 * 65536 - 2 * t)) / 65536,
                t2 == 65536,
                t == 65536,
        ;
        assert((65536int * 65536) / 65536 == 65536);
    }
}

/// One channel of the standard over-blend `src * a + dst * (1 - a)`.
pub open spec fn spec_blend_channel(src: int, dst: int, a: int) -> int {
    (src * a + dst * (65536 - a)) / 65536
}

/// Alpha-blend one channel of `src` over `dst`; full alpha returns `src`
/// exactly, leaving nothing of the destination.
pub fn blend_channel(src: i64, dst: i64, a: i64) -> (r: i64)
    requires
        0 <= src <= 65536,
        0 <= dst <= 65536,
        0 <= a <= 65536,
    ensures
        r == spec_blend_channel(src as int, dst as int, a as int),
        0 <= r <= 65536,
        a == 65536 ==> r == src,
{
    proof {
        assert(0 <= src * a + dst * (65536 - a) <= 65536 * 65536) by (nonlinear_arith)
            requires
                0 <= src <= 65536,
                0 <= dst <= 65536,
                0 <= a <= 65536,
        ;
    }
    let p: i64 = src * a + dst * (SCALE - a);
    let r: i64 = div_floor(p, SCALE);
    proof {
        vstd::arithmetic::div_mod::lemma_div_is_ordered(p as int, 65536int * 65536, 65536);
        assert(65536 * 65536 / 65536 == 65536) by (nonlinear_arith);
        if a == 65536 {
            assert(p == src * 65536) by (nonlinear_arith)
                requires
                    a == 65536,
                    p == src * a + dst * (65536 - a),
            ;
            assert(src * 65536 / 65536 == src) by (nonlinear_arith);
        }
    }
    r
}

} // verus!
