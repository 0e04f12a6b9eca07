//! Deterministic noise primitives: a scalar hash, a bilinear lattice noise,
//! and a five-octave fractal sum.
//!
//! Everything here is a pure function of its arguments, so every frame and
//! every machine sees the same noise field.

use vstd::prelude::*;
use crate::fp::SCALE;
use crate::fp::div_floor;
use crate::fp::mix;
use crate::fp::spec_mix;

verus! {

/// The two coordinates of a lattice cell are folded into one seed with this
/// pair of fixed decorrelation multipliers.
pub const LATTICE_X: i64 = 129898;

/// See [`LATTICE_X`]; the second multiplier of the fold.
pub const LATTICE_Y: i64 = 78233;

/// Added to both lattice coordinates before the fold so that every cell
/// seed is nonnegative.
pub const LATTICE_BIAS: i64 = 0x100_0000_0000;

/// The scrambled fraction produced by [`hash`]: a 64-bit avalanche mix of
/// the seed, reduced to `[0, SCALE)`.
#[verifier::opaque]
pub open spec fn spec_hash(seed: int) -> int {
    let z0 = seed as u64;
    let z1 = vstd::wrapping::u64_specs::wrapping_mul(z0 ^ (z0 >> 30), 0xbf58_476d_1ce4_e5b9);
    let z2 = vstd::wrapping::u64_specs::wrapping_mul(z1 ^ (z1 >> 27), 0x94d0_49bb_1331_11eb);
    let z3 = z2 ^ (z2 >> 31);
    (z3 % 65536) as int
}

/// Scramble a nonnegative seed into a fixed-point fraction in `[0, SCALE)`.
/// The result depends on the seed alone.
pub fn hash(seed: i64) -> (r: i64)
    requires
        0 <= seed,
    ensures
        r == spec_hash(seed as int),
        0 <= r < 65536,
{
    proof {
        reveal(spec_hash);
    }
    let z0: u64 = seed as u64;
    let z1: u64 = (z0 ^ (z0 >> 30u64)).wrapping_mul(0xbf58_476d_1ce4_e5b9);
    let z2: u64 = (z1 ^ (z1 >> 27u64)).wrapping_mul(0x94d0_49bb_1331_11eb);
    let z3: u64 = z2 ^ (z2 >> 31u64);
    (z3 % 65536) as i64
}

/// The hash is deterministic: equal seeds always give equal results, and
/// every result lies in `[0, SCALE)`.
pub proof fn lemma_hash_deterministic(a: int, b: int)
    requires
        a == b,
    ensures
        spec_hash(a) == spec_hash(b),
        0 <= spec_hash(a) < 65536,
{
    reveal(spec_hash);
}

/// The seed of a lattice cell: a fixed linear fold of its two coordinates,
/// biased into the nonnegative range.
pub open spec fn spec_cell_seed(ix: int, iy: int) -> int {
    (ix + 0x100_0000_0000) * 129898 + (iy + 0x100_0000_0000) * 78233
}

fn cell_seed(ix: i64, iy: i64) -> (s: i64)
    requires
        -0x80_0000 <= ix <= 0x80_0000,
        -0x80_0000 <= iy <= 0x80_0000,
    ensures
        s == spec_cell_seed(ix as int, iy as int),
        0 <= s,
{
    (ix + LATTICE_BIAS) * LATTICE_X + (iy + LATTICE_BIAS) * LATTICE_Y
}

/// Bilinear lattice noise: the four corner hashes of the unit cell holding
/// `(x, y)`, blended by the fractional position inside the cell.
pub open spec fn spec_noise2(x: int, y: int) -> int {
    let ix = x / 65536;
    let iy = y / 65536;
    let fx = x % 65536;
    let fy = y % 65536;
    let h00 = spec_hash(spec_cell_seed(ix, iy));
    let h10 = spec_hash(spec_cell_seed(ix + 1, iy));
    let h01 = spec_hash(spec_cell_seed(ix, iy + 1));
    let h11 = spec_hash(spec_cell_seed(ix + 1, iy + 1));
    spec_mix(spec_mix(h00, h10, fx), spec_mix(h01, h11, fx), fy)
}

/// Two-dimensional value noise in `[0, SCALE)`, continuous in both
/// coordinates and a pure function of them.
pub fn noise2(x: i64, y: i64) -> (r: i64)
    requires
        -0x40_0000_0000 <= x <= 0x40_0000_0000,
        -0x40_0000_0000 <= y <= 0x40_0000_0000,
    ensures
        r == spec_noise2(x as int, y as int),
        0 <= r < 65536,
{
    let ix: i64 = div_floor(x, SCALE);
    let iy: i64 = div_floor(y, SCALE);
    proof {
        vstd::arithmetic::div_mod::lemma_fundamental_div_mod(x as int, 65536);
        vstd::arithmetic::div_mod::lemma_fundamental_div_mod(y as int, 65536);
        vstd::arithmetic::div_mod::lemma_mod_bound(x as int, 65536);
        vstd::arithmetic::div_mod::lemma_mod_bound(y as int, 65536);
    }
    let fx: i64 = x - ix * SCALE;
    let fy: i64 = y - iy * SCALE;
    let h00: i64 = hash(cell_seed(ix, iy));
    let h10: i64 = hash(cell_seed(ix + 1, iy));
    let h01: i64 = hash(cell_seed(ix, iy + 1));
    let h11: i64 = hash(cell_seed(ix + 1, iy + 1));
    let top: i64 = mix(h00, h10, fx);
    let bot: i64 = mix(h01, h11, fx);
    mix(top, bot, fy)
}

/// Five octaves of [`spec_noise2`] at doubling frequency and halving
/// amplitude, starting at amplitude one half; the raw, unnormalized sum.
pub open spec fn spec_fbm(x: int, y: int) -> int {
    spec_noise2(x, y) / 2 + spec_noise2(2 * x, 2 * y) / 4 + spec_noise2(4 * x, 4 * y) / 8
        + spec_noise2(8 * x, 8 * y) / 16 + spec_noise2(16 * x, 16 * y) / 32
}

/// Fractal (fbm) noise in `[0, SCALE)`: five octaves of lattice noise.
pub fn fbm(x: i64, y: i64) -> (r: i64)
    requires
        -0x4_0000_0000 <= x <= 0x4_0000_0000,
        -0x4_0000_0000 <= y <= 0x4_0000_0000,
    ensures
        r == spec_fbm(x as int, y as int),
        0 <= r < 65536,
{
    let n0: i64 = noise2(x, y);
    let n1: i64 = noise2(2 * x, 2 * y);
    let n2: i64 = noise2(4 * x, 4 * y);
    let n3: i64 = noise2(8 * x, 8 * y);
    let n4: i64 = noise2(16 * x, 16 * y);
    div_floor(n0, 2) + div_floor(n1, 4) + div_floor(n2, 8) + div_floor(n3, 16) + div_floor(
        n4,
        32,
    )
}

/// Floor division distributes over a sum with at most one unit of extra
/// rounding.
proof fn lemma_div_add_le(b: int, d: int, m: int)
    requires
        1 <= m,
        0 <= d,
    ensures
        (b + d) / m <= b / m + d / m + 1,
{
    vstd::arithmetic::div_mod::lemma_fundamental_div_mod(b, m);
    vstd::arithmetic::div_mod::lemma_fundamental_div_mod(d, m);
    vstd::arithmetic::div_mod::lemma_mod_bound(b, m);
    vstd::arithmetic::div_mod::lemma_mod_bound(d, m);
    let qb = b / m;
    let rb = b % m;
    let qd = d / m;
    let rd = d % m;
    assert(b + d == (qb + qd) * m + (rb + rd)) by (nonlinear_arith)
        requires
            b == m * qb + rb,
            d == m * qd + rd,
    ;
    if rb + rd < m {
        vstd::arithmetic::div_mod::lemma_fundamental_div_mod_converse(b + d, m, qb + qd, rb + rd);
    } else {
        assert(b + d == (qb + qd + 1) * m + (rb + rd - m)) by (nonlinear_arith)
            requires
                b + d == (qb + qd) * m + (rb + rd),
        ;
        vstd::arithmetic::div_mod::lemma_fundamental_div_mod_converse(
            b + d,
            m,
            qb + qd + 1,
            rb + rd - m,
        );
    }
}

/// Two quotients by the same positive divisor differ by at most the
/// quotient of the difference of the dividends, plus one.
proof fn lemma_div_diff(a: int, b: int, dd: int, m: int)
    requires
        1 <= m,
        a - b <= dd,
        b - a <= dd,
        0 <= dd,
    ensures
        a / m - b / m <= dd / m + 1,
        b / m - a / m <= dd / m + 1,
{
    vstd::arithmetic::div_mod::lemma_div_is_ordered(a, b + dd, m);
    vstd::arithmetic::div_mod::lemma_div_is_ordered(b, a + dd, m);
    lemma_div_add_le(b, dd, m);
    lemma_div_add_le(a, dd, m);
}

/// The interpolation written as one quotient: a weighted average of its
/// two endpoints.
proof fn lemma_mix_quotient(a: int, b: int, f: int)
    ensures
        spec_mix(a, b, f) == (a * (65536 - f) + b * f) / 65536,
{
    vstd::arithmetic::div_mod::lemma_fundamental_div_mod((b - a) * f, 65536);
    vstd::arithmetic::div_mod::lemma_mod_bound((b - a) * f, 65536);
    let q = ((b - a) * f) / 65536;
    let r = ((b - a) * f) % 65536;
    assert(a * (65536 - f) + b * f == (a + q) * 65536 + r) by (nonlinear_arith)
        requires
            (b - a) * f == 65536 * q + r,
    ;
    vstd::arithmetic::div_mod::lemma_fundamental_div_mod_converse(
        a * (65536 - f) + b * f,
        65536,
        a + q,
        r,
    );
}

/// Interpolation between full-scale endpoints moves by at most the move
/// of its parameter, plus one unit of rounding.
proof fn lemma_mix_param_lip(a: int, b: int, t1: int, t2: int)
    requires
        0 <= a <= 65536,
        0 <= b <= 65536,
        0 <= t1 <= 65536,
        0 <= t2 <= 65536,
    ensures
        spec_mix(a, b, t1) - spec_mix(a, b, t2) <= vstd::math::abs(t1 - t2) + 1,
        spec_mix(a, b, t2) - spec_mix(a, b, t1) <= vstd::math::abs(t1 - t2) + 1,
{
    let dd = vstd::math::abs(t1 - t2) as int;
    assert((b - a) * t1 - (b - a) * t2 <= 65536 * dd && (b - a) * t2 - (b - a) * t1 <= 65536 * dd)
        by (nonlinear_arith)
        requires
            -65536 <= b - a <= 65536,
            t1 - t2 <= dd,
            t2 - t1 <= dd,
            0 <= dd,
    ;
    lemma_div_diff((b - a) * t1, (b - a) * t2, 65536 * dd, 65536);
    assert((65536 * dd) / 65536 == dd) by (nonlinear_arith);
}

/// Interpolation moves by at most the move of its endpoints, plus one
/// unit of rounding.
proof fn lemma_mix_value_lip(a1: int, b1: int, a2: int, b2: int, f: int, dd: int)
    requires
        0 <= f <= 65536,
        a1 - a2 <= dd,
        a2 - a1 <= dd,
        b1 - b2 <= dd,
        b2 - b1 <= dd,
        0 <= dd,
    ensures
        spec_mix(a1, b1, f) - spec_mix(a2, b2, f) <= dd + 1,
        spec_mix(a2, b2, f) - spec_mix(a1, b1, f) <= dd + 1,
{
    lemma_mix_quotient(a1, b1, f);
    lemma_mix_quotient(a2, b2, f);
    let n1 = a1 * (65536 - f) + b1 * f;
    let n2 = a2 * (65536 - f) + b2 * f;
    assert(n1 - n2 <= 65536 * dd && n2 - n1 <= 65536 * dd) by (nonlinear_arith)
        requires
            n1 == a1 * (65536 - f) + b1 * f,
            n2 == a2 * (65536 - f) + b2 * f,
            0 <= f <= 65536,
            a1 - a2 <= dd,
            a2 - a1 <= dd,
            b1 - b2 <= dd,
            b2 - b1 <= dd,
            0 <= dd,
    ;
    lemma_div_diff(n1, n2, 65536 * dd, 65536);
    assert((65536 * dd) / 65536 == dd) by (nonlinear_arith);
}

/// The interpolation stays between its endpoints.
proof fn lemma_mix_range(a: int, b: int, t: int)
    requires
        0 <= t <= 65536,
    ensures
        a <= b ==> a <= spec_mix(a, b, t) <= b,
        b <= a ==> b <= spec_mix(a, b, t) <= a,
{
    let d = b - a;
    if d >= 0 {
        assert(0 <= d * t <= d * 65536) by (nonlinear_arith)
            requires
                0 <= d,
                0 <= t <= 65536,
        ;
        vstd::arithmetic::div_mod::lemma_div_pos_is_pos(d * t, 65536);
        vstd::arithmetic::div_mod::lemma_div_is_ordered(d * t, d * 65536, 65536);
        assert(d * 65536 / 65536 == d) by (nonlinear_arith);
    } else {
        assert(d * 65536 <= d * t && d * t <= 0) by (nonlinear_arith)
            requires
                d < 0,
                0 <= t <= 65536,
        ;
        vstd::arithmetic::div_mod::lemma_div_is_ordered(d * 65536, d * t, 65536);
        vstd::arithmetic::div_mod::lemma_div_is_ordered(d * t, 0, 65536);
        assert(d * 65536 / 65536 == d) by (nonlinear_arith);
    }
}

/// At a parameter of one the interpolation is exactly its far endpoint.
proof fn lemma_mix_at_one(a: int, b: int)
    ensures
        spec_mix(a, b, 65536) == b,
{
    assert(((b - a) * 65536) / 65536 == b - a) by (nonlinear_arith);
}

/// At a parameter of zero the interpolation is exactly its near endpoint.
proof fn lemma_mix_at_zero(a: int, b: int)
    ensures
        spec_mix(a, b, 0) == a,
{
    assert((b - a) * 0 == 0) by (nonlinear_arith);
}

/// The lattice noise always lies in `[0, SCALE)`.
pub proof fn lemma_noise2_range(x: int, y: int)
    ensures
        0 <= spec_noise2(x, y) < 65536,
{
    let ix = x / 65536;
    let iy = y / 65536;
    let fx = x % 65536;
    let fy = y % 65536;
    vstd::arithmetic::div_mod::lemma_mod_bound(x, 65536);
    vstd::arithmetic::div_mod::lemma_mod_bound(y, 65536);
    lemma_hash_deterministic(spec_cell_seed(ix, iy), spec_cell_seed(ix, iy));
    lemma_hash_deterministic(spec_cell_seed(ix + 1, iy), spec_cell_seed(ix + 1, iy));
    lemma_hash_deterministic(spec_cell_seed(ix, iy + 1), spec_cell_seed(ix, iy + 1));
    lemma_hash_deterministic(spec_cell_seed(ix + 1, iy + 1), spec_cell_seed(ix + 1, iy + 1));
    let h00 = spec_hash(spec_cell_seed(ix, iy));
    let h10 = spec_hash(spec_cell_seed(ix + 1, iy));
    let h01 = spec_hash(spec_cell_seed(ix, iy + 1));
    let h11 = spec_hash(spec_cell_seed(ix + 1, iy + 1));
    lemma_mix_range(h00, h10, fx);
    lemma_mix_range(h01, h11, fx);
    lemma_mix_range(spec_mix(h00, h10, fx), spec_mix(h01, h11, fx), fy);
}

/// Along the first axis the lattice noise moves by at most the move of
/// the coordinate, plus a fixed rounding slack.
proof fn lemma_noise2_x_lip(x1: int, x2: int, y: int)
    requires
        x1 <= x2,
    ensures
        spec_noise2(x1, y) - spec_noise2(x2, y) <= x2 - x1 + 8,
        spec_noise2(x2, y) - spec_noise2(x1, y) <= x2 - x1 + 8,
{
    lemma_noise2_range(x1, y);
    lemma_noise2_range(x2, y);
    if x2 - x1 < 65536 {
        let ix1 = x1 / 65536;
        let ix2 = x2 / 65536;
        let fx1 = x1 % 65536;
        let fx2 = x2 % 65536;
        let iy = y / 65536;
        let fy = y % 65536;
        vstd::arithmetic::div_mod::lemma_fundamental_div_mod(x1, 65536);
        vstd::arithmetic::div_mod::lemma_fundamental_div_mod(x2, 65536);
        vstd::arithmetic::div_mod::lemma_mod_bound(x1, 65536);
        vstd::arithmetic::div_mod::lemma_mod_bound(x2, 65536);
        vstd::arithmetic::div_mod::lemma_mod_bound(y, 65536);
        vstd::arithmetic::div_mod::lemma_div_is_ordered(x1, x2, 65536);
        if fx1 >= 1 {
            vstd::arithmetic::div_mod::lemma_fundamental_div_mod_converse(
                x1 + 65535,
                65536,
                ix1 + 1,
                fx1 - 1,
            );
        } else {
            vstd::arithmetic::div_mod::lemma_fundamental_div_mod_converse(
                x1 + 65535,
                65536,
                ix1,
                65535,
            );
        }
        vstd::arithmetic::div_mod::lemma_div_is_ordered(x2, x1 + 65535, 65536);
        assert(ix1 <= ix2 <= ix1 + 1);
        let h00 = spec_hash(spec_cell_seed(ix1, iy));
        let h10 = spec_hash(spec_cell_seed(ix1 + 1, iy));
        let h01 = spec_hash(spec_cell_seed(ix1, iy + 1));
        let h11 = spec_hash(spec_cell_seed(ix1 + 1, iy + 1));
        lemma_hash_deterministic(spec_cell_seed(ix1, iy), spec_cell_seed(ix1, iy));
        lemma_hash_deterministic(spec_cell_seed(ix1 + 1, iy), spec_cell_seed(ix1 + 1, iy));
        lemma_hash_deterministic(spec_cell_seed(ix1, iy + 1), spec_cell_seed(ix1, iy + 1));
        lemma_hash_deterministic(spec_cell_seed(ix1 + 1, iy + 1), spec_cell_seed(ix1 + 1, iy + 1));
        if ix1 == ix2 {
            assert(fx2 - fx1 == x2 - x1);
            lemma_mix_param_lip(h00, h10, fx1, fx2);
            lemma_mix_param_lip(h01, h11, fx1, fx2);
            lemma_mix_value_lip(
                spec_mix(h00, h10, fx1),
                spec_mix(h01, h11, fx1),
                spec_mix(h00, h10, fx2),
                spec_mix(h01, h11, fx2),
                fy,
                x2 - x1 + 1,
            );
        } else {
            assert(ix2 == ix1 + 1);
            assert(x2 - x1 == 65536 - fx1 + fx2);
            let h20 = spec_hash(spec_cell_seed(ix1 + 2, iy));
            let h21 = spec_hash(spec_cell_seed(ix1 + 2, iy + 1));
            lemma_hash_deterministic(spec_cell_seed(ix1 + 2, iy), spec_cell_seed(ix1 + 2, iy));
            lemma_hash_deterministic(
                spec_cell_seed(ix1 + 2, iy + 1),
                spec_cell_seed(ix1 + 2, iy + 1),
            );
            // The left cell evaluated at a fraction of one is the shared
            // edge value, which is the right cell at a fraction of zero.
            lemma_mix_at_one(h00, h10);
            lemma_mix_at_one(h01, h11);
            lemma_mix_param_lip(h00, h10, fx1, 65536);
            lemma_mix_param_lip(h01, h11, fx1, 65536);
            lemma_mix_value_lip(
                spec_mix(h00, h10, fx1),
                spec_mix(h01, h11, fx1),
                h10,
                h11,
                fy,
                65536 - fx1 + 1,
            );
            lemma_mix_at_zero(h10, h20);
            lemma_mix_at_zero(h11, h21);
            lemma_mix_param_lip(h10, h20, 0, fx2);
            lemma_mix_param_lip(h11, h21, 0, fx2);
            lemma_mix_value_lip(
                spec_mix(h10, h20, fx2),
                spec_mix(h11, h21, fx2),
                h10,
                h11,
                fy,
                fx2 + 1,
            );
        }
    }
}

/// Along the second axis the lattice noise moves by at most the move of
/// the coordinate, plus a fixed rounding slack.
proof fn lemma_noise2_y_lip(x: int, y1: int, y2: int)
    requires
        y1 <= y2,
    ensures
        spec_noise2(x, y1) - spec_noise2(x, y2) <= y2 - y1 + 8,
        spec_noise2(x, y2) - spec_noise2(x, y1) <= y2 - y1 + 8,
{
    lemma_noise2_range(x, y1);
    lemma_noise2_range(x, y2);
    if y2 - y1 < 65536 {
        let ix = x / 65536;
        let fx = x % 65536;
        let iy1 = y1 / 65536;
        let iy2 = y2 / 65536;
        let fy1 = y1 % 65536;
        let fy2 = y2 % 65536;
        vstd::arithmetic::div_mod::lemma_fundamental_div_mod(y1, 65536);
        vstd::arithmetic::div_mod::lemma_fundamental_div_mod(y2, 65536);
        vstd::arithmetic::div_mod::lemma_mod_bound(y1, 65536);
        vstd::arithmetic::div_mod::lemma_mod_bound(y2, 65536);
        vstd::arithmetic::div_mod::lemma_mod_bound(x, 65536);
        vstd::arithmetic::div_mod::lemma_div_is_ordered(y1, y2, 65536);
        if fy1 >= 1 {
            vstd::arithmetic::div_mod::lemma_fundamental_div_mod_converse(
                y1 + 65535,
                65536,
                iy1 + 1,
                fy1 - 1,
            );
        } else {
            vstd::arithmetic::div_mod::lemma_fundamental_div_mod_converse(
                y1 + 65535,
                65536,
                iy1,
                65535,
            );
        }
        vstd::arithmetic::div_mod::lemma_div_is_ordered(y2, y1 + 65535, 65536);
        assert(iy1 <= iy2 <= iy1 + 1);
        let h00 = spec_hash(spec_cell_seed(ix, iy1));
        let h10 = spec_hash(spec_cell_seed(ix + 1, iy1));
        let h01 = spec_hash(spec_cell_seed(ix, iy1 + 1));
        let h11 = spec_hash(spec_cell_seed(ix + 1, iy1 + 1));
        lemma_hash_deterministic(spec_cell_seed(ix, iy1), spec_cell_seed(ix, iy1));
        lemma_hash_deterministic(spec_cell_seed(ix + 1, iy1), spec_cell_seed(ix + 1, iy1));
        lemma_hash_deterministic(spec_cell_seed(ix, iy1 + 1), spec_cell_seed(ix, iy1 + 1));
        lemma_hash_deterministic(spec_cell_seed(ix + 1, iy1 + 1), spec_cell_seed(ix + 1, iy1 + 1));
        lemma_mix_range(h00, h10, fx);
        lemma_mix_range(h01, h11, fx);
        let top = spec_mix(h00, h10, fx);
        let bot = spec_mix(h01, h11, fx);
        if iy1 == iy2 {
            assert(fy2 - fy1 == y2 - y1);
            lemma_mix_param_lip(top, bot, fy1, fy2);
        } else {
            assert(iy2 == iy1 + 1);
            assert(y2 - y1 == 65536 - fy1 + fy2);
            let h02 = spec_hash(spec_cell_seed(ix, iy1 + 2));
            let h12 = spec_hash(spec_cell_seed(ix + 1, iy1 + 2));
            lemma_hash_deterministic(spec_cell_seed(ix, iy1 + 2), spec_cell_seed(ix, iy1 + 2));
            lemma_hash_deterministic(
                spec_cell_seed(ix + 1, iy1 + 2),
                spec_cell_seed(ix + 1, iy1 + 2),
            );
            lemma_mix_range(h02, h12, fx);
            let bot2 = spec_mix(h02, h12, fx);
            // The lower cell at a fraction of one is the shared edge row,
            // which is the upper cell at a fraction of zero.
            lemma_mix_at_one(top, bot);
            lemma_mix_param_lip(top, bot, fy1, 65536);
            lemma_mix_at_zero(bot, bot2);
            lemma_mix_param_lip(bot, bot2, 0, fy2);
        }
    }
}

/// The lattice noise is continuous: its move is bounded by the move of
/// the two coordinates, plus a fixed rounding slack.
pub proof fn lemma_noise2_continuous(x1: int, y1: int, x2: int, y2: int)
    ensures
        spec_noise2(x1, y1) - spec_noise2(x2, y2) <= vstd::math::abs(x1 - x2) + vstd::math::abs(
            y1 - y2,
        ) + 16,
        spec_noise2(x2, y2) - spec_noise2(x1, y1) <= vstd::math::abs(x1 - x2) + vstd::math::abs(
            y1 - y2,
        ) + 16,
{
    if x1 <= x2 {
        lemma_noise2_x_lip(x1, x2, y1);
    } else {
        lemma_noise2_x_lip(x2, x1, y1);
    }
    if y1 <= y2 {
        lemma_noise2_y_lip(x2, y1, y2);
    } else {
        lemma_noise2_y_lip(x2, y2, y1);
    }
}

/// Fractal noise is continuous: a small coordinate perturbation produces
/// a correspondingly small change. The move of the sum is bounded by
/// three times the coordinate distance, plus a fixed quantization slack,
/// with no jump across octave boundaries.
pub proof fn lemma_fbm_continuous(x1: int, y1: int, x2: int, y2: int)
    ensures
        spec_fbm(x1, y1) - spec_fbm(x2, y2) <= 3 * (vstd::math::abs(x1 - x2) + vstd::math::abs(
            y1 - y2,
        )) + 45,
        spec_fbm(x2, y2) - spec_fbm(x1, y1) <= 3 * (vstd::math::abs(x1 - x2) + vstd::math::abs(
            y1 - y2,
        )) + 45,
{
    let dtot = vstd::math::abs(x1 - x2) as int + vstd::math::abs(y1 - y2) as int;
    vstd::arithmetic::div_mod::lemma_fundamental_div_mod(dtot, 2);
    vstd::arithmetic::div_mod::lemma_mod_bound(dtot, 2);
    lemma_fbm_octave(x1, y1, x2, y2, 1, dtot);
    lemma_fbm_octave(x1, y1, x2, y2, 2, dtot);
    lemma_fbm_octave(x1, y1, x2, y2, 4, dtot);
    lemma_fbm_octave(x1, y1, x2, y2, 8, dtot);
    lemma_fbm_octave(x1, y1, x2, y2, 16, dtot);
}

/// One octave's contribution moves by at most half the coordinate move,
/// plus a fixed slack, whatever its frequency.
proof fn lemma_fbm_octave(x1: int, y1: int, x2: int, y2: int, c: int, dtot: int)
    requires
        1 <= c,
        dtot == vstd::math::abs(x1 - x2) + vstd::math::abs(y1 - y2),
    ensures
        spec_noise2(c * x1, c * y1) / (2 * c) - spec_noise2(c * x2, c * y2) / (2 * c) <= dtot / 2
            + 9,
        spec_noise2(c * x2, c * y2) / (2 * c) - spec_noise2(c * x1, c * y1) / (2 * c) <= dtot / 2
            + 9,
{
    lemma_noise2_continuous(c * x1, c * y1, c * x2, c * y2);
    assert(vstd::math::abs(c * x1 - c * x2) == c * vstd::math::abs(x1 - x2) && vstd::math::abs(
        c * y1 - c * y2,
    ) == c * vstd::math::abs(y1 - y2)) by (nonlinear_arith)
        requires
            1 <= c,
    ;
    let dd = c * dtot + 16;
    assert(c * vstd::math::abs(x1 - x2) + c * vstd::math::abs(y1 - y2) + 16 == dd)
        by (nonlinear_arith)
        requires
            dd == c * dtot + 16,
            dtot == vstd::math::abs(x1 - x2) + vstd::math::abs(y1 - y2),
    ;
    assert(0 <= dd) by (nonlinear_arith)
        requires
            1 <= c,
            0 <= dtot,
            dd == c * dtot + 16,
    ;
    lemma_div_diff(spec_noise2(c * x1, c * y1), spec_noise2(c * x2, c * y2), dd, 2 * c);
    // (c * dtot + 16) / (2 * c) <= (dtot + 16) / 2 == dtot / 2 + 8
    assert(dd <= c * (dtot + 16)) by (nonlinear_arith)
        requires
            1 <= c,
            dd == c * dtot + 16,
    ;
    vstd::arithmetic::div_mod::lemma_div_is_ordered(dd, c * (dtot + 16), 2 * c);
    lemma_mul_div_cancel_two(dtot + 16, c);
    vstd::arithmetic::div_mod::lemma_fundamental_div_mod(dtot, 2);
    vstd::arithmetic::div_mod::lemma_mod_bound(dtot, 2);
    vstd::arithmetic::div_mod::lemma_fundamental_div_mod_converse(
        dtot + 16,
        2,
        dtot / 2 + 8,
        dtot % 2,
    );
}

/// Scaling the dividend and the divisor by the same factor leaves the
/// quotient alone.
proof fn lemma_mul_div_cancel_two(a: int, c: int)
    requires
        1 <= c,
    ensures
        (c * a) / (2 * c) == a / 2,
{
    vstd::arithmetic::div_mod::lemma_fundamental_div_mod(a, 2);
    vstd::arithmetic::div_mod::lemma_mod_bound(a, 2);
    let q = a / 2;
    let r = a % 2;
    assert(c * a == q * (2 * c) + c * r) by (nonlinear_arith)
        requires
            a == 2 * q + r,
    ;
    assert(0 <= c * r < 2 * c) by (nonlinear_arith)
        requires
            1 <= c,
            0 <= r < 2,
    ;
    vstd::arithmetic::div_mod::lemma_fundamental_div_mod_converse(c * a, 2 * c, q, c * r);
}

} // verus!
