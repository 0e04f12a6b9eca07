//! The per-pixel texture shader for celestial bodies.
//!
//! [`planet_texture`] maps a query point, a body's center, radius, palette
//! index and kind to a shaded color and an opacity. Outside the disc the
//! opacity is zero; inside it is always one. The shading is a fixed,
//! order-dependent chain of layers: each layer reads the channels the
//! previous one wrote.

use vstd::prelude::*;
use crate::fp::SCALE;
use crate::fp::abs_fp;
use crate::fp::clamp;
use crate::fp::div_floor;
use crate::fp::fp_cos;
use crate::fp::fp_div;
use crate::fp::fp_mul;
use crate::fp::fp_sin;
use crate::fp::mix;
use crate::fp::mul_unit;
use crate::fp::pow_3_2;
use crate::fp::pow_7_4;
use crate::fp::smoothstep;
use crate::fp::spec_clamp;
use crate::fp::spec_cos;
use crate::fp::spec_fp_mul;
use crate::fp::spec_mix;
use crate::fp::spec_pow_3_2;
use crate::fp::spec_pow_7_4;
use crate::fp::spec_sin;
use crate::fp::spec_smoothstep;
use crate::noise::fbm;
use crate::noise::spec_fbm;
use crate::spec_len2;
use crate::spec_vec_len;
use crate::Vec2;

verus! {

/// The fixed base palette: seven distinct entries keyed by the body kind
/// and the palette index modulo four, and one shared fallback.
pub open spec fn spec_palette(gas: bool, k: int) -> (int, int, int) {
    if !gas && k == 0 {
        (36045, 31457, 24904)
    } else if !gas && k == 1 {
        (24904, 27525, 39322)
    } else if !gas && k == 2 {
        (42598, 40632, 32768)
    } else if !gas && k == 3 {
        (45875, 32768, 19661)
    } else if gas && k == 0 {
        (62259, 45875, 16384)
    } else if gas && k == 1 {
        (29491, 45875, 62259)
    } else if gas && k == 2 {
        (45875, 58982, 39322)
    } else {
        (39322, 39322, 39322)
    }
}

fn palette(gas: bool, k: usize) -> (c: (i64, i64, i64))
    requires
        k < 4,
    ensures
        c.0 == spec_palette(gas, k as int).0,
        c.1 == spec_palette(gas, k as int).1,
        c.2 == spec_palette(gas, k as int).2,
        0 <= c.0 <= 65536,
        0 <= c.1 <= 65536,
        0 <= c.2 <= 65536,
{
    if !gas {
        if k == 0 {
            (36045, 31457, 24904)
        } else if k == 1 {
            (24904, 27525, 39322)
        } else if k == 2 {
            (42598, 40632, 32768)
        } else {
            (45875, 32768, 19661)
        }
    } else {
        if k == 0 {
            (62259, 45875, 16384)
        } else if k == 1 {
            (29491, 45875, 62259)
        } else if k == 2 {
            (45875, 58982, 39322)
        } else {
            (39322, 39322, 39322)
        }
    }
}

/// The gas-giant layer chain: primary latitude banding, secondary banding,
/// swirl, polar brightening, diagonal banding, soft spots, an extra
/// vertical gradient and a horizontal wind gradient, in that order.
pub open spec fn spec_gas_shade(
    r0: int,
    g0: int,
    b0: int,
    bl: int,
    bands: int,
    storm: int,
    angle: int,
    nx: int,
    ny: int,
    aady: int,
) -> (int, int, int) {
    let band_t = spec_mix(32768, 65536, spec_fp_mul(bands, 52429) + spec_fp_mul(storm, 13107));
    let r1 = spec_fp_mul(spec_fp_mul(r0, band_t), bl);
    let g1 = spec_fp_mul(spec_fp_mul(g0, spec_mix(band_t, 65536, 45875)), bl);
    let b1 = spec_fp_mul(spec_fp_mul(b0, spec_mix(65536, band_t, 45875)), bl);
    let bands2 = spec_fp_mul(
        spec_sin(spec_fp_mul(angle, 176947)) / 2 + 32768,
        45875 + spec_fp_mul(spec_fbm(spec_fp_mul(nx, 78643), spec_fp_mul(ny, 78643)), 19661),
    );
    let t24 = spec_fp_mul(bands2, 26214);
    let r2 = spec_mix(r1, spec_mix(r1, 58982, t24), 32768);
    let g2 = spec_mix(g1, spec_mix(g1, 55706, t24), 32768);
    let b2 = spec_mix(b1, spec_mix(b1, 65536, t24), 32768);
    let swirl = spec_fbm(spec_fp_mul(nx, 98304) + 2 * storm, spec_fp_mul(ny, 98304) - 2 * storm);
    let r3 = spec_mix(r2, spec_fp_mul(r2, 78643) + 6554, spec_fp_mul(swirl, 19661));
    let g3 = spec_mix(g2, spec_fp_mul(g2, 72090) + 5243, spec_fp_mul(swirl, 13107));
    let b3 = spec_mix(b2, spec_fp_mul(b2, 68813) + 3277, spec_fp_mul(swirl, 9830));
    let polar = spec_pow_3_2(aady);
    let r4 = spec_mix(r3, 65536, spec_fp_mul(polar, 5243));
    let g4 = spec_mix(g3, 65536, spec_fp_mul(polar, 3932));
    let b4 = spec_mix(b3, 65536, spec_fp_mul(polar, 2621));
    let diag = spec_sin(spec_fp_mul(nx + ny, 163840)) / 2 + 32768;
    let r5 = spec_mix(r4, 45875, spec_fp_mul(diag, 18350));
    let g5 = spec_mix(g4, 55706, spec_fp_mul(diag, 14418));
    let b5 = spec_mix(b4, 65536, spec_fp_mul(diag, 11796));
    let spots = spec_fbm(spec_fp_mul(nx, 229376) - 131072, spec_fp_mul(ny, 229376) + 131072);
    let tm = spec_fp_mul(spec_smoothstep(42598, 52429, spots), 45875);
    let r6 = spec_mix(r5, r5 / 2 + 22938, tm);
    let g6 = spec_mix(g5, g5 / 2 + 22938, tm);
    let b6 = spec_mix(b5, b5 / 2 + 22938, tm);
    let gradv = spec_fp_mul(aady, aady);
    let r7 = spec_mix(r6, 55706, spec_fp_mul(gradv, 14418));
    let g7 = spec_mix(g6, 53740, spec_fp_mul(gradv, 11796));
    let b7 = spec_mix(b6, 65536, spec_fp_mul(gradv, 9175));
    let wind = spec_sin(4 * nx + spec_fbm(2 * ny, 2 * nx)) / 2 + 32768;
    let r8 = spec_mix(r7, 65536, spec_fp_mul(wind, 9830));
    let g8 = spec_mix(g7, 65536, spec_fp_mul(wind, 7864));
    let b8 = spec_mix(b7, 65536, spec_fp_mul(wind, 6554));
    (r8, g8, b8)
}

#[verifier::rlimit(100)]
#[verifier::spinoff_prover]
fn gas_shade(
    r0: i64,
    g0: i64,
    b0: i64,
    bl: i64,
    bands: i64,
    storm: i64,
    angle: i64,
    nx: i64,
    ny: i64,
    aady: i64,
) -> (c: (i64, i64, i64))
    requires
        0 <= r0 <= 65536,
        0 <= g0 <= 65536,
        0 <= b0 <= 65536,
        0 <= bl <= 65536,
        0 <= bands <= 65536,
        0 <= storm < 65536,
        -0x10_0000 <= angle <= 0x10_0000,
        -131072 <= nx <= 131072,
        -131072 <= ny <= 131072,
        0 <= aady <= 65536,
    ensures
        ({
            let s = spec_gas_shade(
                r0 as int,
                g0 as int,
                b0 as int,
                bl as int,
                bands as int,
                storm as int,
                angle as int,
                nx as int,
                ny as int,
                aady as int,
            );
            c.0 == s.0 && c.1 == s.1 && c.2 == s.2
        }),
        0 <= c.0 <= 262144,
        0 <= c.1 <= 262144,
        0 <= c.2 <= 262144,
{
    let band_t: i64 = mix(32768, SCALE, mul_unit(bands, 52429) + mul_unit(storm, 13107));
    let r1: i64 = mul_unit(mul_unit(r0, band_t), bl);
    let g1: i64 = mul_unit(mul_unit(g0, mix(band_t, SCALE, 45875)), bl);
    let b1: i64 = mul_unit(mul_unit(b0, mix(SCALE, band_t, 45875)), bl);
    let bands2: i64 = mul_unit(
        div_floor(fp_sin(fp_mul(angle, 176947)), 2) + 32768,
        45875 + mul_unit(fbm(fp_mul(nx, 78643), fp_mul(ny, 78643)), 19661),
    );
    let t24: i64 = mul_unit(bands2, 26214);
    let r2: i64 = mix(r1, mix(r1, 58982, t24), 32768);
    let g2: i64 = mix(g1, mix(g1, 55706, t24), 32768);
    let b2: i64 = mix(b1, mix(b1, SCALE, t24), 32768);
    let swirl: i64 = fbm(fp_mul(nx, 98304) + 2 * storm, fp_mul(ny, 98304) - 2 * storm);
    let r3: i64 = mix(r2, mul_unit(78643, r2) + 6554, mul_unit(swirl, 19661));
    let g3: i64 = mix(g2, mul_unit(72090, g2) + 5243, mul_unit(swirl, 13107));
    let b3: i64 = mix(b2, mul_unit(68813, b2) + 3277, mul_unit(swirl, 9830));
    proof {
        assert(spec_fp_mul(r2 as int, 78643) == spec_fp_mul(78643, r2 as int)) by (nonlinear_arith);
        assert(spec_fp_mul(g2 as int, 72090) == spec_fp_mul(72090, g2 as int)) by (nonlinear_arith);
        assert(spec_fp_mul(b2 as int, 68813) == spec_fp_mul(68813, b2 as int)) by (nonlinear_arith);
    }
    let polar: i64 = pow_3_2(aady);
    let r4: i64 = mix(r3, SCALE, mul_unit(polar, 5243));
    let g4: i64 = mix(g3, SCALE, mul_unit(polar, 3932));
    let b4: i64 = mix(b3, SCALE, mul_unit(polar, 2621));
    let diag: i64 = div_floor(fp_sin(fp_mul(nx + ny, 163840)), 2) + 32768;
    let r5: i64 = mix(r4, 45875, mul_unit(diag, 18350));
    let g5: i64 = mix(g4, 55706, mul_unit(diag, 14418));
    let b5: i64 = mix(b4, SCALE, mul_unit(diag, 11796));
    let spots: i64 = fbm(fp_mul(nx, 229376) - 131072, fp_mul(ny, 229376) + 131072);
    let tm: i64 = mul_unit(smoothstep(42598, 52429, spots), 45875);
    let r6: i64 = mix(r5, div_floor(r5, 2) + 22938, tm);
    let g6: i64 = mix(g5, div_floor(g5, 2) + 22938, tm);
    let b6: i64 = mix(b5, div_floor(b5, 2) + 22938, tm);
    let gradv: i64 = mul_unit(aady, aady);
    let r7: i64 = mix(r6, 55706, mul_unit(gradv, 14418));
    let g7: i64 = mix(g6, 53740, mul_unit(gradv, 11796));
    let b7: i64 = mix(b6, SCALE, mul_unit(gradv, 9175));
    let wind: i64 = div_floor(fp_sin(4 * nx + fbm(2 * ny, 2 * nx)), 2) + 32768;
    let r8: i64 = mix(r7, SCALE, mul_unit(wind, 9830));
    let g8: i64 = mix(g7, SCALE, mul_unit(wind, 7864));
    let b8: i64 = mix(b7, SCALE, mul_unit(wind, 6554));
    (r8, g8, b8)
}

/// The rocky-body layer chain: strata banding, secondary banding, crater
/// masking, a radial gradient, diagonal banding, soft spots, an extra
/// vertical gradient and a horizontal wind gradient, in that order.
pub open spec fn spec_rocky_shade(
    r0: int,
    g0: int,
    b0: int,
    bl: int,
    angle: int,
    ax: int,
    nx: int,
    ny: int,
    aady: int,
    t: int,
) -> (int, int, int) {
    let strata = spec_smoothstep(
        -45875,
        45875,
        spec_fp_mul(ax, 209715) + spec_fbm(spec_fp_mul(nx, 144179), spec_fp_mul(ny, 144179)),
    );
    let r1 = spec_fp_mul(spec_fp_mul(spec_mix(55706, 81920, strata), r0), bl);
    let g1 = spec_fp_mul(spec_fp_mul(spec_mix(60293, 75366, strata), g0), bl);
    let b1 = spec_fp_mul(
        spec_fp_mul(spec_mix(53740, 70779, spec_fp_mul(strata, 52429)), b0),
        bl,
    );
    let bands2 = spec_fp_mul(
        spec_sin(2 * angle) / 2 + 32768,
        45875 + spec_fp_mul(spec_fbm(spec_fp_mul(nx, 98304), spec_fp_mul(ny, 98304)), 19661),
    );
    let t25 = spec_fp_mul(bands2, 32768);
    let r2 = spec_mix(r1, spec_mix(r1, 45875, t25), 26214);
    let g2 = spec_mix(g1, spec_mix(g1, 39322, t25), 26214);
    let b2 = spec_mix(b1, spec_mix(b1, 52429, t25), 26214);
    let crater = spec_fbm(spec_fp_mul(nx, 425984), spec_fp_mul(ny, 425984));
    let tcm = spec_fp_mul(spec_smoothstep(38011, 41943, crater), 62259);
    let r3 = spec_mix(r2, spec_fp_mul(r2, 29491), tcm);
    let g3 = spec_mix(g2, spec_fp_mul(g2, 29491), tcm);
    let b3 = spec_mix(b2, spec_fp_mul(b2, 29491), tcm);
    let grad = spec_pow_7_4(t);
    let r4 = spec_mix(r3, 62259, spec_fp_mul(grad, 7864));
    let g4 = spec_mix(g3, 60293, spec_fp_mul(grad, 6554));
    let b4 = spec_mix(b3, 65536, spec_fp_mul(grad, 5243));
    let diag = spec_sin(spec_fp_mul(nx - ny, 144179)) / 2 + 32768;
    let r5 = spec_mix(r4, 39322, spec_fp_mul(diag, 20972));
    let g5 = spec_mix(g4, 32768, spec_fp_mul(diag, 14418));
    let b5 = spec_mix(b4, 52429, spec_fp_mul(diag, 11796));
    let spots = spec_fbm(4 * nx + 65536, 4 * ny - 65536);
    let tm = spec_fp_mul(spec_smoothstep(40632, 52429, spots), 52429);
    let r6 = spec_mix(r5, spec_fp_mul(r5, 26214) + 29491, tm);
    let g6 = spec_mix(g5, spec_fp_mul(g5, 26214) + 29491, tm);
    let b6 = spec_mix(b5, spec_fp_mul(b5, 26214) + 29491, tm);
    let gradv = spec_fp_mul(aady, aady);
    let r7 = spec_mix(r6, 49152, spec_fp_mul(gradv, 14418));
    let g7 = spec_mix(g6, 47186, spec_fp_mul(gradv, 11796));
    let b7 = spec_mix(b6, 62259, spec_fp_mul(gradv, 9175));
    let wind = spec_sin(4 * ny + spec_fbm(2 * nx, 2 * ny)) / 2 + 32768;
    let r8 = spec_mix(r7, 65536, spec_fp_mul(wind, 8520));
    let g8 = spec_mix(g7, 65536, spec_fp_mul(wind, 6554));
    let b8 = spec_mix(b7, 65536, spec_fp_mul(wind, 5243));
    (r8, g8, b8)
}

#[verifier::rlimit(100)]
#[verifier::spinoff_prover]
fn rocky_shade(
    r0: i64,
    g0: i64,
    b0: i64,
    bl: i64,
    angle: i64,
    ax: i64,
    nx: i64,
    ny: i64,
    aady: i64,
    t: i64,
) -> (c: (i64, i64, i64))
    requires
        0 <= r0 <= 65536,
        0 <= g0 <= 65536,
        0 <= b0 <= 65536,
        0 <= bl <= 65536,
        -0x10_0000 <= angle <= 0x10_0000,
        -65537 <= ax <= 65536,
        -131074 <= nx <= 131072,
        -131074 <= ny <= 131072,
        0 <= aady <= 65536,
        0 <= t <= 65536,
    ensures
        ({
            let s = spec_rocky_shade(
                r0 as int,
                g0 as int,
                b0 as int,
                bl as int,
                angle as int,
                ax as int,
                nx as int,
                ny as int,
                aady as int,
                t as int,
            );
            c.0 == s.0 && c.1 == s.1 && c.2 == s.2
        }),
        0 <= c.0 <= 262144,
        0 <= c.1 <= 262144,
        0 <= c.2 <= 262144,
{
    let strata: i64 = smoothstep(
        -45875,
        45875,
        fp_mul(ax, 209715) + fbm(fp_mul(nx, 144179), fp_mul(ny, 144179)),
    );
    let r1: i64 = mul_unit(mul_unit(mix(55706, 81920, strata), r0), bl);
    let g1: i64 = mul_unit(mul_unit(mix(60293, 75366, strata), g0), bl);
    let b1: i64 = mul_unit(mul_unit(mix(53740, 70779, mul_unit(strata, 52429)), b0), bl);
    let bands2: i64 = mul_unit(
        div_floor(fp_sin(2 * angle), 2) + 32768,
        45875 + mul_unit(fbm(fp_mul(nx, 98304), fp_mul(ny, 98304)), 19661),
    );
    let t25: i64 = mul_unit(bands2, 32768);
    let r2: i64 = mix(r1, mix(r1, 45875, t25), 26214);
    let g2: i64 = mix(g1, mix(g1, 39322, t25), 26214);
    let b2: i64 = mix(b1, mix(b1, 52429, t25), 26214);
    let crater: i64 = fbm(fp_mul(nx, 425984), fp_mul(ny, 425984));
    let tcm: i64 = mul_unit(smoothstep(38011, 41943, crater), 62259);
    let r3: i64 = mix(r2, mul_unit(r2, 29491), tcm);
    let g3: i64 = mix(g2, mul_unit(g2, 29491), tcm);
    let b3: i64 = mix(b2, mul_unit(b2, 29491), tcm);
    let grad: i64 = pow_7_4(t);
    let r4: i64 = mix(r3, 62259, mul_unit(grad, 7864));
    let g4: i64 = mix(g3, 60293, mul_unit(grad, 6554));
    let b4: i64 = mix(b3, SCALE, mul_unit(grad, 5243));
    let diag: i64 = div_floor(fp_sin(fp_mul(nx - ny, 144179)), 2) + 32768;
    let r5: i64 = mix(r4, 39322, mul_unit(diag, 20972));
    let g5: i64 = mix(g4, 32768, mul_unit(diag, 14418));
    let b5: i64 = mix(b4, 52429, mul_unit(diag, 11796));
    let spots: i64 = fbm(4 * nx + SCALE, 4 * ny - SCALE);
    let tm: i64 = mul_unit(smoothstep(40632, 52429, spots), 52429);
    let r6: i64 = mix(r5, mul_unit(r5, 26214) + 29491, tm);
    let g6: i64 = mix(g5, mul_unit(g5, 26214) + 29491, tm);
    let b6: i64 = mix(b5, mul_unit(b5, 26214) + 29491, tm);
    let gradv: i64 = mul_unit(aady, aady);
    let r7: i64 = mix(r6, 49152, mul_unit(gradv, 14418));
    let g7: i64 = mix(g6, 47186, mul_unit(gradv, 11796));
    let b7: i64 = mix(b6, 62259, mul_unit(gradv, 9175));
    let wind: i64 = div_floor(fp_sin(4 * ny + fbm(2 * nx, 2 * ny)), 2) + 32768;
    let r8: i64 = mix(r7, SCALE, mul_unit(wind, 8520));
    let g8: i64 = mix(g7, SCALE, mul_unit(wind, 6554));
    let b8: i64 = mix(b7, SCALE, mul_unit(wind, 5243));
    (r8, g8, b8)
}

/// The closing stage of the shader: a rim highlight over the outer 15% of
/// the radius, edge darkening with the normalized distance, a fixed
/// saturation boost, and a clamp of every channel to `[0, 1]`.
pub open spec fn spec_finish_shade(r: int, g: int, b: int, t: int) -> (int, int, int) {
    let rs = spec_fp_mul(spec_smoothstep(55706, 65536, t), 52429);
    let r1 = spec_mix(r, 65536, spec_fp_mul(rs, 24904));
    let g1 = spec_mix(g, 65536, spec_fp_mul(rs, 18350));
    let b1 = spec_mix(b, 65536, spec_fp_mul(rs, 11796));
    let ed = spec_mix(65536, 47186, spec_fp_mul(t, 55706));
    let r2 = spec_clamp(spec_fp_mul(spec_fp_mul(r1, ed), 70779), 0, 65536);
    let g2 = spec_clamp(spec_fp_mul(spec_fp_mul(g1, ed), 70779), 0, 65536);
    let b2 = spec_clamp(spec_fp_mul(spec_fp_mul(b1, ed), 70779), 0, 65536);
    (r2, g2, b2)
}

fn finish_shade(r: i64, g: i64, b: i64, t: i64) -> (c: (i64, i64, i64))
    requires
        0 <= r <= 262144,
        0 <= g <= 262144,
        0 <= b <= 262144,
        0 <= t <= 65536,
    ensures
        ({
            let s = spec_finish_shade(r as int, g as int, b as int, t as int);
            c.0 == s.0 && c.1 == s.1 && c.2 == s.2
        }),
        0 <= c.0 <= 65536,
        0 <= c.1 <= 65536,
        0 <= c.2 <= 65536,
{
    let rs: i64 = mul_unit(smoothstep(55706, SCALE, t), 52429);
    let r1: i64 = mix(r, SCALE, mul_unit(rs, 24904));
    let g1: i64 = mix(g, SCALE, mul_unit(rs, 18350));
    let b1: i64 = mix(b, SCALE, mul_unit(rs, 11796));
    let ed: i64 = mix(SCALE, 47186, mul_unit(t, 55706));
    let r2: i64 = clamp(fp_mul(mul_unit(r1, ed), 70779), 0, SCALE);
    let g2: i64 = clamp(fp_mul(mul_unit(g1, ed), 70779), 0, SCALE);
    let b2: i64 = clamp(fp_mul(mul_unit(b1, ed), 70779), 0, SCALE);
    (r2, g2, b2)
}

/// The shading of a point inside the disc, over the offset from the
/// center, the precomputed distance, and the body parameters.
#[verifier::opaque]
pub open spec fn spec_shade_inside(
    dx: int,
    dy: int,
    dist: int,
    radius: int,
    k: int,
    gas: bool,
) -> (int, int, int) {
    let pal = spec_palette(gas, k);
    let t = (dist * 65536) / radius;
    let bl = 65536 - t / 2;
    let ady = (dy * 65536) / radius;
    let aady = vstd::math::abs(ady) as int;
    let angle = spec_fp_mul(ady, 205887);
    let bands = spec_sin(angle) / 2 + 32768;
    let ax = (dx * 65536) / radius;
    let nx = 2 * ax;
    let ny = 2 * ady;
    let storm = spec_fbm(spec_fp_mul(nx, 196608), spec_fp_mul(ny, 196608));
    let sh = if gas {
        spec_gas_shade(pal.0, pal.1, pal.2, bl, bands, storm, angle, nx, ny, aady)
    } else {
        spec_rocky_shade(pal.0, pal.1, pal.2, bl, angle, ax, nx, ny, aady, t)
    };
    spec_finish_shade(sh.0, sh.1, sh.2, t)
}

#[verifier::rlimit(100)]
#[verifier::spinoff_prover]
fn shade_inside(dx: i64, dy: i64, dist: i64, radius: i64, k: usize, is_gas: bool) -> (c: (
    i64,
    i64,
    i64,
))
    requires
        1 <= radius <= 0x1000_0000,
        0 <= dist <= radius,
        -dist <= dx <= dist,
        -dist <= dy <= dist,
        k < 4,
    ensures
        ({
            let s = spec_shade_inside(
                dx as int,
                dy as int,
                dist as int,
                radius as int,
                k as int,
                is_gas,
            );
            c.0 == s.0 && c.1 == s.1 && c.2 == s.2
        }),
        0 <= c.0 <= 65536,
        0 <= c.1 <= 65536,
        0 <= c.2 <= 65536,
{
    proof {
        reveal(spec_shade_inside);
        lemma_div_unit_range(dx as int, radius as int);
        lemma_div_unit_range(dy as int, radius as int);
        lemma_div_unit_range(dist as int, radius as int);
    }
    let pal: (i64, i64, i64) = palette(is_gas, k);
    let t: i64 = fp_div(dist, radius);
    let bl: i64 = SCALE - div_floor(t, 2);
    let ady: i64 = fp_div(dy, radius);
    let aady: i64 = abs_fp(ady);
    let angle: i64 = fp_mul(ady, PI_SCALED);
    let bands: i64 = div_floor(fp_sin(angle), 2) + 32768;
    let ax: i64 = fp_div(dx, radius);
    let nx: i64 = 2 * ax;
    let ny: i64 = 2 * ady;
    let storm: i64 = fbm(fp_mul(nx, 196608), fp_mul(ny, 196608));
    let sh: (i64, i64, i64) = if is_gas {
        gas_shade(pal.0, pal.1, pal.2, bl, bands, storm, angle, nx, ny, aady)
    } else {
        rocky_shade(pal.0, pal.1, pal.2, bl, angle, ax, nx, ny, aady, t)
    };
    finish_shade(sh.0, sh.1, sh.2, t)
}

/// The full texture shader over plain coordinates. Outside the disc
/// (distance greater than the radius) every field is zero; inside, the
/// three shaded channels lie in `[0, SCALE]` and the opacity is exactly
/// `SCALE`.
#[verifier::opaque]
pub open spec fn spec_planet_texture(
    px: int,
    py: int,
    cx: int,
    cy: int,
    radius: int,
    pi: int,
    gas: bool,
) -> (int, int, int, int) {
    let dx = px - cx;
    let dy = py - cy;
    let dist = spec_vec_len(dx, dy);
    if dist > radius {
        (0, 0, 0, 0)
    } else {
        let fin = spec_shade_inside(dx, dy, dist, radius, pi % 4, gas);
        (fin.0, fin.1, fin.2, 65536)
    }
}

/// Shade one query point of a celestial body.
///
/// Returns the three color channels and the opacity, all in `[0, SCALE]`.
/// Every point farther from the center than the radius is fully
/// transparent; every point inside the disc is fully opaque.
#[verifier::rlimit(100)]
#[verifier::spinoff_prover]
pub fn planet_texture(pos: Vec2, center: Vec2, radius: i64, planet_index: usize, is_gas: bool) -> (c:
    (i64, i64, i64, i64))
    requires
        1 <= radius <= 0x1000_0000,
        -0x1000_0000 <= pos.x <= 0x1000_0000,
        -0x1000_0000 <= pos.y <= 0x1000_0000,
        -0x1000_0000 <= center.x <= 0x1000_0000,
        -0x1000_0000 <= center.y <= 0x1000_0000,
    ensures
        ({
            let s = spec_planet_texture(
                pos.x as int,
                pos.y as int,
                center.x as int,
                center.y as int,
                radius as int,
                planet_index as int,
                is_gas,
            );
            c.0 == s.0 && c.1 == s.1 && c.2 == s.2 && c.3 == s.3
        }),
        spec_vec_len(pos.x - center.x, pos.y - center.y) > radius ==> c.3 == 0,
        spec_vec_len(pos.x - center.x, pos.y - center.y) <= radius ==> c.3 == 65536,
        0 <= c.0 <= 65536,
        0 <= c.1 <= 65536,
        0 <= c.2 <= 65536,
{
    proof {
        reveal(spec_planet_texture);
    }
    let p: Vec2 = pos.sub(center);
    let dist: i64 = p.len();
    if dist > radius {
        return (0, 0, 0, 0);
    }
    proof {
        assert(p.x * p.x <= spec_len2(p.x as int, p.y as int) && p.y * p.y <= spec_len2(
            p.x as int,
            p.y as int,
        )) by (nonlinear_arith);
        assert(-dist <= p.x <= dist && -dist <= p.y <= dist) by (nonlinear_arith)
            requires
                p.x * p.x <= spec_len2(p.x as int, p.y as int),
                p.y * p.y <= spec_len2(p.x as int, p.y as int),
                (dist + 1) * (dist + 1) > spec_len2(p.x as int, p.y as int),
                0 <= dist,
        ;
    }
    let k: usize = planet_index % 4;
    let fin: (i64, i64, i64) = shade_inside(p.x, p.y, dist, radius, k, is_gas);
    (fin.0, fin.1, fin.2, SCALE)
}

/// The angle multiplier pi used to map the normalized latitude to a half
/// turn.
const PI_SCALED: i64 = 205887;

/// Componentwise linear interpolation of two colors.
pub open spec fn spec_mezcla(a: (int, int, int), b: (int, int, int), t: int) -> (int, int, int) {
    (spec_mix(a.0, b.0, t), spec_mix(a.1, b.1, t), spec_mix(a.2, b.2, t))
}

/// Blend two colors: `a` at `t == 0`, `b` at `t == SCALE`.
pub fn mezcla(a: (i64, i64, i64), b: (i64, i64, i64), t: i64) -> (c: (i64, i64, i64))
    requires
        0 <= a.0 <= 65536,
        0 <= a.1 <= 65536,
        0 <= a.2 <= 65536,
        0 <= b.0 <= 65536,
        0 <= b.1 <= 65536,
        0 <= b.2 <= 65536,
        0 <= t <= 65536,
    ensures
        c.0 == spec_mezcla((a.0 as int, a.1 as int, a.2 as int), (b.0 as int, b.1 as int, b.2 as int), t as int).0,
        c.1 == spec_mezcla((a.0 as int, a.1 as int, a.2 as int), (b.0 as int, b.1 as int, b.2 as int), t as int).1,
        c.2 == spec_mezcla((a.0 as int, a.1 as int, a.2 as int), (b.0 as int, b.1 as int, b.2 as int), t as int).2,
        0 <= c.0 <= 65536,
        0 <= c.1 <= 65536,
        0 <= c.2 <= 65536,
{
    (mix(a.0, b.0, t), mix(a.1, b.1, t), mix(a.2, b.2, t))
}

/// A radial blend between two colors, from `color1` at the center to
/// `color2` at the radius and beyond.
pub open spec fn spec_gradiente_radial(
    x: int,
    y: int,
    cx: int,
    cy: int,
    radio: int,
    c1: (int, int, int),
    c2: (int, int, int),
) -> (int, int, int) {
    let d = spec_vec_len(x - cx, y - cy);
    let u = spec_clamp((d * 65536) / radio, 0, 65536);
    spec_mezcla(c1, c2, u)
}

/// Blend two colors by the normalized distance from a center, capped at
/// one.
pub fn gradiente_radial(
    x: i64,
    y: i64,
    cx: i64,
    cy: i64,
    radio: i64,
    color1: (i64, i64, i64),
    color2: (i64, i64, i64),
) -> (c: (i64, i64, i64))
    requires
        1 <= radio <= 0x1000_0000,
        -0x1000_0000 <= x <= 0x1000_0000,
        -0x1000_0000 <= y <= 0x1000_0000,
        -0x1000_0000 <= cx <= 0x1000_0000,
        -0x1000_0000 <= cy <= 0x1000_0000,
        0 <= color1.0 <= 65536,
        0 <= color1.1 <= 65536,
        0 <= color1.2 <= 65536,
        0 <= color2.0 <= 65536,
        0 <= color2.1 <= 65536,
        0 <= color2.2 <= 65536,
    ensures
        ({
            let s = spec_gradiente_radial(
                x as int,
                y as int,
                cx as int,
                cy as int,
                radio as int,
                (color1.0 as int, color1.1 as int, color1.2 as int),
                (color2.0 as int, color2.1 as int, color2.2 as int),
            );
            c.0 == s.0 && c.1 == s.1 && c.2 == s.2
        }),
        0 <= c.0 <= 65536,
        0 <= c.1 <= 65536,
        0 <= c.2 <= 65536,
{
    let d: i64 = Vec2::new(x - cx, y - cy).len();
    proof {
        assert(d < 0x4000_0000) by (nonlinear_arith)
            requires
                0 <= d,
                d * d <= spec_len2(x - cx, y - cy),
                spec_len2(x - cx, y - cy) == (x - cx) * (x - cx) + (y - cy) * (y - cy),
                -0x2000_0000 <= x - cx <= 0x2000_0000,
                -0x2000_0000 <= y - cy <= 0x2000_0000,
        ;
    }
    let u: i64 = clamp(fp_div(d, radio), 0, SCALE);
    mezcla(color1, color2, u)
}

/// The horizontal color band that the latitude `y` falls in, out of a
/// fixed list of band colors; the band index is clamped into the list.
pub open spec fn spec_bandas_planetarias(
    y: int,
    cy: int,
    radio: int,
    colores: Seq<(i64, i64, i64)>,
) -> (i64, i64, i64) {
    let rel = ((y - cy) * 65536 / radio + 65536) / 2;
    let banda = spec_clamp((rel * colores.len()) / 65536, 0, colores.len() - 1);
    colores[banda]
}

/// Pick the band color of the normalized latitude of `y` over a body of
/// the given center and radius.
pub fn bandas_planetarias(y: i64, cy: i64, radio: i64, colores: &Vec<(i64, i64, i64)>) -> (c: (
    i64,
    i64,
    i64,
))
    requires
        1 <= radio <= 0x1000_0000,
        -0x1000_0000 <= y <= 0x1000_0000,
        -0x1000_0000 <= cy <= 0x1000_0000,
        1 <= colores@.len() <= 16,
    ensures
        c == spec_bandas_planetarias(y as int, cy as int, radio as int, colores@),
{
    let q: i64 = fp_div(y - cy, radio);
    let rel: i64 = div_floor(q + SCALE, 2);
    let n: i64 = colores.len() as i64;
    proof {
        assert(-0x40_0000_0000_0000 <= rel * n <= 0x40_0000_0000_0000) by (nonlinear_arith)
            requires
                -0x5000_0000_0000 <= rel <= 0x5000_0000_0000,
                1 <= n <= 16,
        ;
    }
    let braw: i64 = div_floor(rel * n, SCALE);
    let banda: i64 = clamp(braw, 0, n - 1);
    let idx: usize = banda as usize;
    colores[idx]
}

/// A blotch pattern from two interfering waves: the spot color where the
/// product of the two normalized waves exceeds 0.7, the base elsewhere.
pub open spec fn spec_manchas(
    x: int,
    y: int,
    seed: int,
    color: (int, int, int),
    fondo: (int, int, int),
) -> (int, int, int) {
    let s1 = spec_sin(spec_fp_mul(x, 1966) + spec_fp_mul(y, 1966) + seed) / 2 + 32768;
    let s2 = spec_cos(spec_fp_mul(x, 4588) - spec_fp_mul(y, 3277) + 2 * seed) / 2 + 32768;
    let v = spec_fp_mul(s1, s2);
    if v > 45875 {
        color
    } else {
        fondo
    }
}

/// Scatter deterministic spots: return the spot color where the seeded
/// wave product is strong, the background color elsewhere.
pub fn manchas(
    x: i64,
    y: i64,
    seed: i64,
    color: (i64, i64, i64),
    fondo: (i64, i64, i64),
) -> (c: (i64, i64, i64))
    requires
        -0x1000_0000 <= x <= 0x1000_0000,
        -0x1000_0000 <= y <= 0x1000_0000,
        -0x1000_0000 <= seed <= 0x1000_0000,
    ensures
        ({
            let s = spec_manchas(
                x as int,
                y as int,
                seed as int,
                (color.0 as int, color.1 as int, color.2 as int),
                (fondo.0 as int, fondo.1 as int, fondo.2 as int),
            );
            c.0 == s.0 && c.1 == s.1 && c.2 == s.2
        }),
{
    let s1: i64 = div_floor(fp_sin(fp_mul(x, 1966) + fp_mul(y, 1966) + seed), 2) + 32768;
    let s2: i64 = div_floor(fp_cos(fp_mul(x, 4588) - fp_mul(y, 3277) + 2 * seed), 2) + 32768;
    let v: i64 = mul_unit(s1, s2);
    if v > 45875 {
        color
    } else {
        fondo
    }
}

/// A vertical blend between two colors over the body's height.
pub open spec fn spec_gradiente_vertical(
    y: int,
    cy: int,
    radio: int,
    c1: (int, int, int),
    c2: (int, int, int),
) -> (int, int, int) {
    let rel = ((y - cy) * 65536 / radio + 65536) / 2;
    spec_mezcla(c1, c2, rel)
}

/// Blend two colors by the normalized latitude inside the body's
/// vertical extent.
pub fn gradiente_vertical(
    y: i64,
    cy: i64,
    radio: i64,
    color1: (i64, i64, i64),
    color2: (i64, i64, i64),
) -> (c: (i64, i64, i64))
    requires
        1 <= radio <= 0x1000_0000,
        -0x1000_0000 <= cy <= 0x1000_0000,
        cy - radio <= y <= cy + radio,
        0 <= color1.0 <= 65536,
        0 <= color1.1 <= 65536,
        0 <= color1.2 <= 65536,
        0 <= color2.0 <= 65536,
        0 <= color2.1 <= 65536,
        0 <= color2.2 <= 65536,
    ensures
        ({
            let s = spec_gradiente_vertical(
                y as int,
                cy as int,
                radio as int,
                (color1.0 as int, color1.1 as int, color1.2 as int),
                (color2.0 as int, color2.1 as int, color2.2 as int),
            );
            c.0 == s.0 && c.1 == s.1 && c.2 == s.2
        }),
        0 <= c.0 <= 65536,
        0 <= c.1 <= 65536,
        0 <= c.2 <= 65536,
{
    proof {
        lemma_div_unit_range(y as int - cy as int, radio as int);
    }
    let q: i64 = fp_div(y - cy, radio);
    let rel: i64 = div_floor(q + SCALE, 2);
    mezcla(color1, color2, rel)
}

/// The simple stand-alone planet texture: a radial base gradient, a band
/// color, a spot layer, and a fixed two-step blend of the three.
pub open spec fn spec_textura_planeta(
    x: int,
    y: int,
    cx: int,
    cy: int,
    radio: int,
    seed: int,
) -> (int, int, int) {
    let base = spec_gradiente_radial(
        x,
        y,
        cx,
        cy,
        radio,
        (58982, 52429, 32768),
        (13107, 13107, 32768),
    );
    let bandas = spec_bandas_planetarias(
        y,
        cy,
        radio,
        seq![
            (58982i64, 52429i64, 32768i64),
            (45875i64, 39322i64, 19661i64),
            (32768i64, 26214i64, 13107i64),
            (52429i64, 45875i64, 26214i64),
        ],
    );
    let detalle = spec_manchas(x, y, seed, (65536, 19661, 13107), base);
    spec_mezcla(
        spec_mezcla(base, (bandas.0 as int, bandas.1 as int, bandas.2 as int), 32768),
        detalle,
        19661,
    )
}

/// Shade one point of the simple stand-alone planet texture.
pub fn textura_planeta(x: i64, y: i64, cx: i64, cy: i64, radio: i64, seed: i64) -> (c: (
    i64,
    i64,
    i64,
))
    requires
        1 <= radio <= 0x1000_0000,
        -0x1000_0000 <= x <= 0x1000_0000,
        -0x1000_0000 <= y <= 0x1000_0000,
        -0x1000_0000 <= cx <= 0x1000_0000,
        -0x1000_0000 <= cy <= 0x1000_0000,
        -0x1000_0000 <= seed <= 0x1000_0000,
    ensures
        ({
            let s = spec_textura_planeta(
                x as int,
                y as int,
                cx as int,
                cy as int,
                radio as int,
                seed as int,
            );
            c.0 == s.0 && c.1 == s.1 && c.2 == s.2
        }),
        0 <= c.0 <= 65536,
        0 <= c.1 <= 65536,
        0 <= c.2 <= 65536,
{
    let base: (i64, i64, i64) = gradiente_radial(
        x,
        y,
        cx,
        cy,
        radio,
        (58982, 52429, 32768),
        (13107, 13107, 32768),
    );
    let mut colores: Vec<(i64, i64, i64)> = Vec::new();
    colores.push((58982, 52429, 32768));
    colores.push((45875, 39322, 19661));
    colores.push((32768, 26214, 13107));
    colores.push((52429, 45875, 26214));
    proof {
        assert(colores@ =~= seq![
            (58982i64, 52429i64, 32768i64),
            (45875i64, 39322i64, 19661i64),
            (32768i64, 26214i64, 13107i64),
            (52429i64, 45875i64, 26214i64),
        ]);
    }
    let bandas: (i64, i64, i64) = bandas_planetarias(y, cy, radio, &colores);
    proof {
        assert(0 <= bandas.0 <= 65536 && 0 <= bandas.1 <= 65536 && 0 <= bandas.2 <= 65536) by {
            assert(spec_bandas_planetarias(y as int, cy as int, radio as int, colores@)
                == colores@[spec_clamp(
                ((((y - cy) * 65536) / (radio as int) + 65536) / 2 * 4) / 65536,
                0,
                3,
            )]);
        }
    }
    let detalle: (i64, i64, i64) = manchas(x, y, seed, (65536, 19661, 13107), base);
    let m1: (i64, i64, i64) = mezcla(base, bandas, 32768);
    mezcla(m1, detalle, 19661)
}

/// For `-d <= v <= d` and positive `d`, the normalized quotient
/// `v * SCALE / d` lies in `[-SCALE, SCALE]`.
proof fn lemma_div_unit_range(v: int, d: int)
    requires
        1 <= d,
        -d <= v <= d,
    ensures
        -65536 <= (v * 65536) / d <= 65536,
{
    assert(-(d * 65536) <= v * 65536 <= d * 65536) by (nonlinear_arith)
        requires
            -d <= v <= d,
            1 <= d,
    ;
    vstd::arithmetic::div_mod::lemma_div_is_ordered(v * 65536, d * 65536, d);
    vstd::arithmetic::div_mod::lemma_div_is_ordered(-(d * 65536), v * 65536, d);
    assert((d * 65536) / d == 65536) by (nonlinear_arith)
        requires
            1 <= d,
    ;
    assert((-(d * 65536)) / d == -65536) by (nonlinear_arith)
        requires
            1 <= d,
    ;
}

} // verus!
