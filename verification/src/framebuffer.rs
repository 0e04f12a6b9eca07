//! The framebuffer compositor: the owner of the pixel surface.
//!
//! The surface is a row-major vector of packed `0x00RRGGBB` pixels of
//! length exactly `width * height`; the index of `(x, y)` is
//! `y * width + x`. The drawing passes composite bodies (alpha blend),
//! rings (additive banding), orbit traces (overwrite) and star glows
//! (additive) into the surface, silently skipping every coordinate that
//! falls outside it.
//!
//! There is no depth buffer: occlusion is the caller's draw order, back
//! to front (the painter's algorithm). A frame must be issued as
//! background fill, starfield, orbit traces, the central glow, rocky
//! bodies, the moon, then gas giants; a pass drawn out of this order
//! paints over whatever should occlude it.

use vstd::prelude::*;
use crate::fp::SCALE;
use crate::fp::TAU_FP;
use crate::fp::div_floor;
use crate::fp::fp_cos;
use crate::fp::fp_div;
use crate::fp::fp_mul;
use crate::fp::fp_sin;
use crate::fp::rgb_to_u32;
use crate::fp::spec_cos;
use crate::fp::spec_fp_mul;
use crate::fp::spec_rgb_to_u32;
use crate::fp::spec_sin;
use crate::Vec2;

verus! {

/// The pixel surface and its dimensions. The buffer length never changes
/// after construction.
pub struct Framebuffer {
    pub width: usize,
    pub height: usize,
    pub buffer: Vec<u32>,
}

/// One step of the dotted orbit trace: the point of the ellipse at the
/// whole degree `a`, overwritten with the fixed trace color when it lands
/// on the surface.
pub open spec fn spec_orbit_step(
    buf: Seq<u32>,
    cx: int,
    cy: int,
    orad: int,
    w: int,
    h: int,
    a: int,
) -> Seq<u32> {
    let ang = (a * 411774) / 360;
    let x = cx + spec_fp_mul(orad, spec_cos(ang));
    let y = cy + spec_fp_mul(spec_fp_mul(orad, spec_sin(ang)), 26214);
    if 0 <= x && 0 <= y && x < w * 65536 && y < h * 65536 {
        buf.update((y / 65536) * w + x / 65536, spec_rgb_to_u32(19661, 19661, 26214) as u32)
    } else {
        buf
    }
}

/// The first `n` degree steps of the orbit trace, applied in order.
pub open spec fn spec_orbit(
    buf: Seq<u32>,
    cx: int,
    cy: int,
    orad: int,
    w: int,
    h: int,
    n: int,
) -> Seq<u32>
    decreases n,
{
    if n <= 0 {
        buf
    } else {
        spec_orbit_step(spec_orbit(buf, cx, cy, orad, w, h, n - 1), cx, cy, orad, w, h, n - 1)
    }
}

/// The first row or column of a box edge: the edge clamped to the
/// surface from below, in whole pixels.
pub open spec fn spec_lo(c: int) -> int {
    if c > 0 {
        c / 65536
    } else {
        0
    }
}

/// The last row or column of a box edge: the edge clamped to the surface,
/// in whole pixels, for a surface of `n` pixels on this axis.
pub open spec fn spec_hi(c: int, n: int) -> int {
    crate::fp::spec_clamp(c, 0, (n - 1) * 65536) / 65536
}

/// One pixel of the star glow pass: inside a box of twice the radius, the
/// core and glow falloffs are combined into a warm additive contribution,
/// summed onto the destination channels and clamped on the final pack.
#[verifier::opaque]
pub open spec fn spec_star_pixel(
    v: int,
    x: int,
    y: int,
    cx: int,
    cy: int,
    radius: int,
    w: int,
    h: int,
) -> int {
    let xlo = spec_lo(cx - 2 * radius);
    let xhi = spec_hi(cx + 2 * radius, w);
    let ylo = spec_lo(cy - 2 * radius);
    let yhi = spec_hi(cy + 2 * radius, h);
    if xlo <= x <= xhi && ylo <= y <= yhi {
        let dx = 65536 * x + 32768 - cx;
        let dy = 65536 * y + 32768 - cy;
        let d = crate::spec_vec_len(dx, dy);
        if d > 2 * radius {
            v
        } else {
            let t = (d * 65536) / radius;
            let core = crate::fp::spec_smoothstep(0, 65536, 65536 - t);
            let glow = crate::fp::spec_smoothstep(131072, 65536, t);
            let cr = crate::fp::spec_clamp(core + spec_fp_mul(glow, 39322), 0, 65536);
            let cg = crate::fp::spec_clamp(
                spec_fp_mul(core, 52429) + spec_fp_mul(glow, 22938),
                0,
                65536,
            );
            let cb = crate::fp::spec_clamp(
                spec_fp_mul(core, 13107) + spec_fp_mul(glow, 6554),
                0,
                65536,
            );
            spec_rgb_to_u32(
                crate::fp::spec_unpack_channel(crate::fp::spec_byte_r(v)) + cr,
                crate::fp::spec_unpack_channel(crate::fp::spec_byte_g(v)) + cg,
                crate::fp::spec_unpack_channel(crate::fp::spec_byte_b(v)) + cb,
            )
        }
    } else {
        v
    }
}

/// One pixel of the body pass: inside the clipped bounding box of the
/// disc, the texture shader's color is alpha-composited over the
/// destination; everything outside the disc is left untouched.
#[verifier::opaque]
pub open spec fn spec_body_pixel(
    v: int,
    x: int,
    y: int,
    cx: int,
    cy: int,
    radius: int,
    pi: int,
    gas: bool,
    w: int,
    h: int,
) -> int {
    let minx = spec_hi(cx - radius - 131072, w);
    let maxx = spec_hi(cx + radius + 131072, w);
    let miny = spec_hi(cy - radius - 131072, h);
    let maxy = spec_hi(cy + radius + 131072, h);
    if minx <= x <= maxx && miny <= y <= maxy {
        let px = 65536 * x + 32768;
        let py = 65536 * y + 32768;
        let tex = crate::textura::spec_planet_texture(px, py, cx, cy, radius, pi, gas);
        if tex.3 > 0 {
            spec_rgb_to_u32(
                crate::fp::spec_blend_channel(
                    tex.0,
                    crate::fp::spec_unpack_channel(crate::fp::spec_byte_r(v)),
                    tex.3,
                ),
                crate::fp::spec_blend_channel(
                    tex.1,
                    crate::fp::spec_unpack_channel(crate::fp::spec_byte_g(v)),
                    tex.3,
                ),
                crate::fp::spec_blend_channel(
                    tex.2,
                    crate::fp::spec_unpack_channel(crate::fp::spec_byte_b(v)),
                    tex.3,
                ),
            )
        } else {
            v
        }
    } else {
        v
    }
}

/// The periodic band mask of the ring pass over the band coordinate `bp`
/// in `[0, 12 * SCALE)`: a narrow smoothstep spike around the center of
/// each of the twelve bands.
pub open spec fn spec_ring_mask(bp: int) -> int {
    crate::fp::spec_smoothstep(1311, 0, vstd::math::abs(bp % 65536 - 32768) as int)
}

/// One pixel of the ring pass: inside the elliptical band between 1.15 and
/// 2 radii (vertical axis scaled to 0.6), the twelve-band mask plus a dust
/// term additively lightens the destination channels.
#[verifier::opaque]
pub open spec fn spec_ring_pixel(
    v: int,
    x: int,
    y: int,
    cx: int,
    cy: int,
    radius: int,
    w: int,
    h: int,
) -> int {
    let outer = 2 * radius;
    let inner = (radius * 75366) / 65536;
    let xlo = spec_lo(cx - outer);
    let xhi = spec_hi(cx + outer, w);
    let ylo = spec_lo(cy - outer);
    let yhi = spec_hi(cy + outer, h);
    if xlo <= x <= xhi && ylo <= y <= yhi {
        let dx = 65536 * x + 32768 - cx;
        let dyv = ((65536 * y + 32768 - cy) * 39322) / 65536;
        let rdist = crate::spec_vec_len(dx, dyv);
        if inner <= rdist <= outer {
            let bp = ((rdist - inner) * 786432) / (outer - inner);
            let dust = crate::noise::spec_fbm(spec_fp_mul(dx, 13107), spec_fp_mul(dyv, 13107));
            let intensity = spec_fp_mul(spec_ring_mask(bp), 19661) + spec_fp_mul(dust, 6554);
            spec_rgb_to_u32(
                crate::fp::spec_unpack_channel(crate::fp::spec_byte_r(v)) + spec_fp_mul(
                    intensity,
                    52429,
                ),
                crate::fp::spec_unpack_channel(crate::fp::spec_byte_g(v)) + spec_fp_mul(
                    intensity,
                    49152,
                ),
                crate::fp::spec_unpack_channel(crate::fp::spec_byte_b(v)) + spec_fp_mul(
                    intensity,
                    39322,
                ),
            )
        } else {
            v
        }
    } else {
        v
    }
}

/// One pixel of the whole body draw: the body pass, then, for a ringed
/// body, the ring pass over its result.
pub open spec fn spec_draw_body_pixel(
    v: int,
    x: int,
    y: int,
    cx: int,
    cy: int,
    radius: int,
    pi: int,
    gas: bool,
    rings: bool,
    w: int,
    h: int,
) -> int {
    let v1 = spec_body_pixel(v, x, y, cx, cy, radius, pi, gas, w, h);
    if rings {
        spec_ring_pixel(v1, x, y, cx, cy, radius, w, h)
    } else {
        v1
    }
}

/// Outside its bounding box the body pass leaves a pixel unchanged.
proof fn lemma_body_pixel_outside(
    v: int,
    x: int,
    y: int,
    cx: int,
    cy: int,
    radius: int,
    pi: int,
    gas: bool,
    w: int,
    h: int,
)
    requires
        !(spec_hi(cx - radius - 131072, w) <= x <= spec_hi(cx + radius + 131072, w) && spec_hi(
            cy - radius - 131072,
            h,
        ) <= y <= spec_hi(cy + radius + 131072, h)),
    ensures
        spec_body_pixel(v, x, y, cx, cy, radius, pi, gas, w, h) == v,
{
    reveal(spec_body_pixel);
}

/// Outside its bounding box the ring pass leaves a pixel unchanged.
proof fn lemma_ring_pixel_outside(
    v: int,
    x: int,
    y: int,
    cx: int,
    cy: int,
    radius: int,
    w: int,
    h: int,
)
    requires
        !(spec_lo(cx - 2 * radius) <= x <= spec_hi(cx + 2 * radius, w) && spec_lo(cy - 2 * radius)
            <= y <= spec_hi(cy + 2 * radius, h)),
    ensures
        spec_ring_pixel(v, x, y, cx, cy, radius, w, h) == v,
{
    reveal(spec_ring_pixel);
}

/// The new value of one pixel of the body pass.
#[verifier::rlimit(100)]
#[verifier::spinoff_prover]
fn body_pixel(
    v: u32,
    x: usize,
    y: usize,
    cx: i64,
    cy: i64,
    radius: i64,
    planet_index: usize,
    gas: bool,
    w: usize,
    h: usize,
) -> (r: u32)
    requires
        1 <= radius <= 0x1000_0000,
        -0x1000_0000 <= cx <= 0x1000_0000,
        -0x1000_0000 <= cy <= 0x1000_0000,
        1 <= w <= 4096,
        1 <= h <= 4096,
        x < w,
        y < h,
    ensures
        r as int == spec_body_pixel(
            v as int,
            x as int,
            y as int,
            cx as int,
            cy as int,
            radius as int,
            planet_index as int,
            gas,
            w as int,
            h as int,
        ),
{
    proof {
        reveal(spec_body_pixel);
    }
    let ws: i64 = (w as i64) * SCALE;
    let hs: i64 = (h as i64) * SCALE;
    let minx: i64 = ((crate::fp::clamp(cx - radius - 131072, 0, ws - SCALE) as u64) / 65536) as i64;
    let maxx: i64 = ((crate::fp::clamp(cx + radius + 131072, 0, ws - SCALE) as u64) / 65536) as i64;
    let miny: i64 = ((crate::fp::clamp(cy - radius - 131072, 0, hs - SCALE) as u64) / 65536) as i64;
    let maxy: i64 = ((crate::fp::clamp(cy + radius + 131072, 0, hs - SCALE) as u64) / 65536) as i64;
    let xi: i64 = x as i64;
    let yi: i64 = y as i64;
    if !(minx <= xi && xi <= maxx && miny <= yi && yi <= maxy) {
        return v;
    }
    let px: i64 = xi * SCALE + 32768;
    let py: i64 = yi * SCALE + 32768;
    let tex: (i64, i64, i64, i64) = crate::textura::planet_texture(
        Vec2::new(px, py),
        Vec2::new(cx, cy),
        radius,
        planet_index,
        gas,
    );
    if tex.3 > 0 {
        let orr: i64 = crate::fp::blend_channel(tex.0, crate::fp::unpack_r(v), tex.3);
        let og: i64 = crate::fp::blend_channel(tex.1, crate::fp::unpack_g(v), tex.3);
        let ob: i64 = crate::fp::blend_channel(tex.2, crate::fp::unpack_b(v), tex.3);
        rgb_to_u32(orr, og, ob)
    } else {
        v
    }
}

/// The new value of one pixel of the ring pass.
#[verifier::rlimit(100)]
#[verifier::spinoff_prover]
fn ring_pixel(v: u32, x: usize, y: usize, cx: i64, cy: i64, radius: i64, w: usize, h: usize) -> (r:
    u32)
    requires
        1 <= radius <= 0x1000_0000,
        -0x1000_0000 <= cx <= 0x1000_0000,
        -0x1000_0000 <= cy <= 0x1000_0000,
        1 <= w <= 4096,
        1 <= h <= 4096,
        x < w,
        y < h,
    ensures
        r as int == spec_ring_pixel(
            v as int,
            x as int,
            y as int,
            cx as int,
            cy as int,
            radius as int,
            w as int,
            h as int,
        ),
{
    proof {
        reveal(spec_ring_pixel);
    }
    let ws: i64 = (w as i64) * SCALE;
    let hs: i64 = (h as i64) * SCALE;
    let outer: i64 = 2 * radius;
    let inner: i64 = div_floor(radius * 75366, 65536);
    proof {
        assert(radius * 75366 < radius * 131072) by (nonlinear_arith)
            requires
                1 <= radius,
        ;
        vstd::arithmetic::div_mod::lemma_div_is_ordered(
            radius as int * 75366,
            radius as int * 131072,
            65536,
        );
        assert((radius as int * 131072) / 65536 == 2 * radius) by (nonlinear_arith);
        assert(0 <= radius * 75366) by (nonlinear_arith)
            requires
                1 <= radius,
        ;
        vstd::arithmetic::div_mod::lemma_div_pos_is_pos(radius as int * 75366, 65536);
    }
    let xlo: i64 = ((if cx - outer > 0 {
        cx - outer
    } else {
        0
    }) as u64 / 65536) as i64;
    let xhi: i64 = ((crate::fp::clamp(cx + outer, 0, ws - SCALE) as u64) / 65536) as i64;
    let ylo: i64 = ((if cy - outer > 0 {
        cy - outer
    } else {
        0
    }) as u64 / 65536) as i64;
    let yhi: i64 = ((crate::fp::clamp(cy + outer, 0, hs - SCALE) as u64) / 65536) as i64;
    let xi: i64 = x as i64;
    let yi: i64 = y as i64;
    if !(xlo <= xi && xi <= xhi && ylo <= yi && yi <= yhi) {
        return v;
    }
    let dx: i64 = xi * SCALE + 32768 - cx;
    let dyv: i64 = div_floor((yi * SCALE + 32768 - cy) * 39322, 65536);
    proof {
        lemma_mul_abs_le(yi * 65536 + 32768 - cy, 39322, 0x2100_0000, 65536);
    }
    let rdist: i64 = Vec2::new(dx, dyv).len();
    if inner <= rdist && rdist <= outer {
        let bp: i64 = div_floor((rdist - inner) * 786432, outer - inner);
        proof {
            assert((rdist - inner) * 786432 <= (outer - inner) * 786432) by (nonlinear_arith)
                requires
                    rdist <= outer,
            ;
            assert(0 <= (rdist - inner) * 786432) by (nonlinear_arith)
                requires
                    inner <= rdist,
            ;
            vstd::arithmetic::div_mod::lemma_div_is_ordered(
                (rdist as int - inner as int) * 786432,
                (outer as int - inner as int) * 786432,
                outer as int - inner as int,
            );
            assert(((outer as int - inner as int) * 786432) / (outer as int - inner as int)
                == 786432) by (nonlinear_arith)
                requires
                    1 <= outer as int - inner as int,
            ;
            vstd::arithmetic::div_mod::lemma_div_pos_is_pos(
                (rdist as int - inner as int) * 786432,
                outer as int - inner as int,
            );
        }
        let bmod: i64 = ((bp as u64) % 65536) as i64;
        let mask: i64 = crate::fp::smoothstep(1311, 0, crate::fp::abs_fp(bmod - 32768));
        let dust: i64 = crate::noise::fbm(fp_mul(dx, 13107), fp_mul(dyv, 13107));
        let intensity: i64 = crate::fp::mul_unit(mask, 19661) + crate::fp::mul_unit(dust, 6554);
        proof {
            assert(spec_fp_mul(mask as int, 19661) == spec_fp_mul(spec_ring_mask(bp as int), 19661));
        }
        let outr: u32 = rgb_to_u32(
            crate::fp::unpack_r(v) + crate::fp::mul_unit(intensity, 52429),
            crate::fp::unpack_g(v) + crate::fp::mul_unit(intensity, 49152),
            crate::fp::unpack_b(v) + crate::fp::mul_unit(intensity, 39322),
        );
        outr
    } else {
        v
    }
}

/// A pixel whose fixed-point position lies on the surface has a flat
/// index inside the buffer.
pub proof fn lemma_pix_index_range(x: int, y: int, w: int, h: int)
    requires
        1 <= w,
        1 <= h,
        0 <= x < w * 65536,
        0 <= y < h * 65536,
    ensures
        0 <= (y / 65536) * w + x / 65536 < w * h,
        0 <= x / 65536 < w,
        0 <= y / 65536 < h,
{
    vstd::arithmetic::div_mod::lemma_div_is_ordered(x, w * 65536 - 1, 65536);
    vstd::arithmetic::div_mod::lemma_div_is_ordered(y, h * 65536 - 1, 65536);
    lemma_px_floor(w);
    lemma_px_floor(h);
    vstd::arithmetic::div_mod::lemma_div_pos_is_pos(x, 65536);
    vstd::arithmetic::div_mod::lemma_div_pos_is_pos(y, 65536);
    assert((y / 65536) * w + x / 65536 < h * w) by (nonlinear_arith)
        requires
            0 <= x / 65536 < w,
            0 <= y / 65536 < h,
    ;
    assert(h * w == w * h) by (nonlinear_arith);
    assert((y / 65536) * w >= 0) by (nonlinear_arith)
        requires
            0 <= y / 65536,
            1 <= w,
    ;
}

/// The new value of one pixel of the star glow pass.
#[verifier::rlimit(100)]
#[verifier::spinoff_prover]
fn star_pixel(v: u32, x: usize, y: usize, cx: i64, cy: i64, radius: i64, w: usize, h: usize) -> (r:
    u32)
    requires
        1 <= radius <= 0x1000_0000,
        -0x1000_0000 <= cx <= 0x1000_0000,
        -0x1000_0000 <= cy <= 0x1000_0000,
        1 <= w <= 4096,
        1 <= h <= 4096,
        x < w,
        y < h,
    ensures
        r as int == spec_star_pixel(
            v as int,
            x as int,
            y as int,
            cx as int,
            cy as int,
            radius as int,
            w as int,
            h as int,
        ),
{
    proof {
        reveal(spec_star_pixel);
    }
    let ws: i64 = (w as i64) * SCALE;
    let hs: i64 = (h as i64) * SCALE;
    let xlo_fp: i64 = if cx - 2 * radius > 0 {
        cx - 2 * radius
    } else {
        0
    };
    let xhi_fp: i64 = crate::fp::clamp(cx + 2 * radius, 0, ws - SCALE);
    let ylo_fp: i64 = if cy - 2 * radius > 0 {
        cy - 2 * radius
    } else {
        0
    };
    let yhi_fp: i64 = crate::fp::clamp(cy + 2 * radius, 0, hs - SCALE);
    let xlo: i64 = ((xlo_fp as u64) / 65536) as i64;
    let xhi: i64 = ((xhi_fp as u64) / 65536) as i64;
    let ylo: i64 = ((ylo_fp as u64) / 65536) as i64;
    let yhi: i64 = ((yhi_fp as u64) / 65536) as i64;
    let xi: i64 = x as i64;
    let yi: i64 = y as i64;
    if !(xlo <= xi && xi <= xhi && ylo <= yi && yi <= yhi) {
        return v;
    }
    let px: i64 = xi * SCALE + 32768;
    let py: i64 = yi * SCALE + 32768;
    let dxv: i64 = px - cx;
    let dyv: i64 = py - cy;
    let d: i64 = Vec2::new(dxv, dyv).len();
    if d > 2 * radius {
        return v;
    }
    let t: i64 = fp_div(d, radius);
    proof {
        assert(d * 65536 <= radius * 131072) by (nonlinear_arith)
            requires
                d <= 2 * radius,
                0 <= d,
        ;
        vstd::arithmetic::div_mod::lemma_div_is_ordered(
            d as int * 65536,
            radius as int * 131072,
            radius as int,
        );
        assert((radius as int * 131072) / (radius as int) == 131072) by (nonlinear_arith)
            requires
                1 <= radius,
        ;
        vstd::arithmetic::div_mod::lemma_div_pos_is_pos(d as int * 65536, radius as int);
    }
    let core: i64 = crate::fp::smoothstep(0, SCALE, SCALE - t);
    let glow: i64 = crate::fp::smoothstep(2 * SCALE, SCALE, t);
    let cr: i64 = crate::fp::clamp(core + crate::fp::mul_unit(glow, 39322), 0, SCALE);
    let cg: i64 = crate::fp::clamp(
        crate::fp::mul_unit(core, 52429) + crate::fp::mul_unit(glow, 22938),
        0,
        SCALE,
    );
    let cb: i64 = crate::fp::clamp(
        crate::fp::mul_unit(core, 13107) + crate::fp::mul_unit(glow, 6554),
        0,
        SCALE,
    );
    rgb_to_u32(
        crate::fp::unpack_r(v) + cr,
        crate::fp::unpack_g(v) + cg,
        crate::fp::unpack_b(v) + cb,
    )
}

/// Outside the glow box the star pass leaves a pixel unchanged.
proof fn lemma_star_pixel_outside(v: int, x: int, y: int, cx: int, cy: int, radius: int, w: int, h: int)
    requires
        !(spec_lo(cx - 2 * radius) <= x <= spec_hi(cx + 2 * radius, w) && spec_lo(cy - 2 * radius)
            <= y <= spec_hi(cy + 2 * radius, h)),
    ensures
        spec_star_pixel(v, x, y, cx, cy, radius, w, h) == v,
{
    reveal(spec_star_pixel);
}

impl Framebuffer {
    /// The surface is well formed: positive, bounded dimensions and a
    /// buffer of exactly `width * height` pixels.
    pub open spec fn wf(self) -> bool {
        &&& 1 <= self.width <= 4096
        &&& 1 <= self.height <= 4096
        &&& self.buffer@.len() == self.width * self.height
    }

    /// Build a surface of the given dimensions with every pixel set to
    /// the background color.
    pub fn new(width: usize, height: usize, color: u32) -> (fb: Framebuffer)
        requires
            1 <= width <= 4096,
            1 <= height <= 4096,
        ensures
            fb.wf(),
            fb.width == width,
            fb.height == height,
            fb.buffer@.len() == width * height,
            forall|i: int| 0 <= i < fb.buffer@.len() ==> fb.buffer@[i] == color,
    {
        proof {
            assert(width * height <= 4096 * 4096) by (nonlinear_arith)
                requires
                    width <= 4096,
                    height <= 4096,
            ;
            assert(width * height >= 1) by (nonlinear_arith)
                requires
                    width >= 1,
                    height >= 1,
            ;
        }
        let total: usize = width * height;
        let mut buffer: Vec<u32> = Vec::new();
        while buffer.len() < total
            invariant
                buffer@.len() <= total,
                forall|i: int| 0 <= i < buffer@.len() ==> buffer@[i] == color,
            decreases total - buffer@.len(),
        {
            buffer.push(color);
        }
        Framebuffer { width, height, buffer }
    }

    /// The finished surface as a flat, row-major slice of packed pixels.
    pub fn as_slice(&self) -> (s: &[u32])
        ensures
            s@ == self.buffer@,
    {
        self.buffer.as_slice()
    }

    /// Overwrite one pixel per whole degree of an ellipse (vertical axis
    /// scaled to 0.4) with the fixed dim trace color, skipping points off
    /// the surface: a dotted orbit trace, not a continuous line.
    pub fn draw_orbit(&mut self, center: Vec2, orbit_radius: i64)
        requires
            old(self).wf(),
            -0x1000_0000 <= center.x <= 0x1000_0000,
            -0x1000_0000 <= center.y <= 0x1000_0000,
            0 <= orbit_radius <= 0x1000_0000,
        ensures
            final(self).wf(),
            final(self).width == old(self).width,
            final(self).height == old(self).height,
            final(self).buffer@ == spec_orbit(
                old(self).buffer@,
                center.x as int,
                center.y as int,
                orbit_radius as int,
                old(self).width as int,
                old(self).height as int,
                360,
            ),
    {
        let trace: u32 = rgb_to_u32(19661, 19661, 26214);
        let w: usize = self.width;
        let h: usize = self.height;
        let ws: i64 = (w as i64) * SCALE;
        let hs: i64 = (h as i64) * SCALE;
        let mut a: usize = 0;
        while a < 360
            invariant
                self.wf(),
                self.width == old(self).width,
                self.height == old(self).height,
                w == self.width,
                h == self.height,
                ws == w as int * 65536,
                hs == h as int * 65536,
                trace == spec_rgb_to_u32(19661, 19661, 26214),
                -0x1000_0000 <= center.x <= 0x1000_0000,
                -0x1000_0000 <= center.y <= 0x1000_0000,
                0 <= orbit_radius <= 0x1000_0000,
                a <= 360,
                self.buffer@ == spec_orbit(
                    old(self).buffer@,
                    center.x as int,
                    center.y as int,
                    orbit_radius as int,
                    w as int,
                    h as int,
                    a as int,
                ),
            decreases 360 - a,
        {
            let ang: i64 = div_floor((a as i64) * TAU_FP, 360);
            proof {
                vstd::arithmetic::div_mod::lemma_div_nonincreasing(a as int * 411774, 360);
                vstd::arithmetic::div_mod::lemma_div_pos_is_pos(a as int * 411774, 360);
            }
            let cosv: i64 = fp_cos(ang);
            let sinv: i64 = fp_sin(ang);
            let rc: i64 = fp_mul(orbit_radius, cosv);
            proof {
                lemma_mul_abs_le(orbit_radius as int, cosv as int, 0x1000_0000, 65536);
            }
            let xv: i64 = center.x + rc;
            let rs: i64 = fp_mul(orbit_radius, sinv);
            proof {
                lemma_mul_abs_le(orbit_radius as int, sinv as int, 0x1000_0000, 65536);
            }
            let rs4: i64 = fp_mul(rs, 26214);
            proof {
                lemma_mul_abs_le(rs as int, 26214, 0x1000_0000, 65536);
            }
            let yv: i64 = center.y + rs4;
            if xv >= 0 && yv >= 0 && xv < ws && yv < hs {
                let xi: usize = ((xv as u64) / 65536) as usize;
                let yi: usize = ((yv as u64) / 65536) as usize;
                proof {
                    vstd::arithmetic::div_mod::lemma_div_is_ordered(
                        xv as int,
                        w as int * 65536 - 1,
                        65536,
                    );
                    vstd::arithmetic::div_mod::lemma_div_is_ordered(
                        yv as int,
                        h as int * 65536 - 1,
                        65536,
                    );
                    lemma_px_floor(w as int);
                    lemma_px_floor(h as int);
                    assert((yi as int) * (w as int) + (xi as int) < (h as int) * (w as int))
                        by (nonlinear_arith)
                        requires
                            0 <= xi < w as int,
                            0 <= yi < h as int,
                    ;
                    assert((w as int) * (h as int) == (h as int) * (w as int)) by (nonlinear_arith);
                    assert((h as int) * (w as int) <= 4096 * 4096) by (nonlinear_arith)
                        requires
                            0 < w as int <= 4096,
                            0 < h as int <= 4096,
                    ;
                }
                let idx: usize = yi * w + xi;
                self.buffer[idx] = trace;
            }
            a = a + 1;
            proof {
                assert(self.buffer@ == spec_orbit(
                    old(self).buffer@,
                    center.x as int,
                    center.y as int,
                    orbit_radius as int,
                    w as int,
                    h as int,
                    a as int,
                ));
            }
        }
    }

    /// Additively composite a star glow centered at `center`: the only
    /// drawing pass that can brighten a pixel beyond its prior value.
    /// A radius below one pixel unit is rejected by skipping the draw.
    #[verifier::rlimit(100)]
    #[verifier::spinoff_prover]
    pub fn draw_star(&mut self, center: Vec2, radius: i64)
        requires
            old(self).wf(),
            -0x1000_0000 <= center.x <= 0x1000_0000,
            -0x1000_0000 <= center.y <= 0x1000_0000,
            radius <= 0x1000_0000,
        ensures
            final(self).wf(),
            final(self).width == old(self).width,
            final(self).height == old(self).height,
            radius < 1 ==> final(self).buffer@ == old(self).buffer@,
            radius >= 1 ==> forall|i: int|
                0 <= i < old(self).buffer@.len() ==> #[trigger] final(self).buffer@[i]
                    == spec_star_pixel(
                    old(self).buffer@[i] as int,
                    i % (old(self).width as int),
                    i / (old(self).width as int),
                    center.x as int,
                    center.y as int,
                    radius as int,
                    old(self).width as int,
                    old(self).height as int,
                ),
    {
        if radius < 1 {
            return ;
        }
        let w: usize = self.width;
        let h: usize = self.height;
        let ws: i64 = (w as i64) * SCALE;
        let hs: i64 = (h as i64) * SCALE;
        let cx: i64 = center.x;
        let cy: i64 = center.y;
        let xlo_fp: i64 = if cx - 2 * radius > 0 {
            cx - 2 * radius
        } else {
            0
        };
        let xhi_fp: i64 = crate::fp::clamp(cx + 2 * radius, 0, ws - SCALE);
        let ylo_fp: i64 = if cy - 2 * radius > 0 {
            cy - 2 * radius
        } else {
            0
        };
        let yhi_fp: i64 = crate::fp::clamp(cy + 2 * radius, 0, hs - SCALE);
        let xlo: usize = ((xlo_fp as u64) / 65536) as usize;
        let xhi: usize = ((xhi_fp as u64) / 65536) as usize;
        let ylo: usize = ((ylo_fp as u64) / 65536) as usize;
        let yhi: usize = ((yhi_fp as u64) / 65536) as usize;
        proof {
            vstd::arithmetic::div_mod::lemma_div_is_ordered(
                xhi_fp as int,
                w as int * 65536 - 1,
                65536,
            );
            vstd::arithmetic::div_mod::lemma_div_is_ordered(
                yhi_fp as int,
                h as int * 65536 - 1,
                65536,
            );
            lemma_px_floor(w as int);
            lemma_px_floor(h as int);
            assert(xlo as int == spec_lo(cx - 2 * radius));
            assert(ylo as int == spec_lo(cy - 2 * radius));
            assert(xhi as int == spec_hi(cx + 2 * radius, w as int));
            assert(yhi as int == spec_hi(cy + 2 * radius, h as int));
        }
        let mut yi: usize = ylo;
        while yi <= yhi
            invariant
                self.wf(),
                self.width == old(self).width,
                self.height == old(self).height,
                w == self.width,
                h == self.height,
                ws == w as int * 65536,
                hs == h as int * 65536,
                cx == center.x,
                cy == center.y,
                1 <= radius <= 0x1000_0000,
                -0x1000_0000 <= cx <= 0x1000_0000,
                -0x1000_0000 <= cy <= 0x1000_0000,
                xlo as int == spec_lo(cx - 2 * radius),
                ylo as int == spec_lo(cy - 2 * radius),
                xhi as int == spec_hi(cx + 2 * radius, w as int),
                yhi as int == spec_hi(cy + 2 * radius, h as int),
                xhi < w,
                yhi < h,
                ylo <= yi,
                yi <= yhi + 1 || yi == ylo,
                old(self).buffer@.len() == w as int * h as int,
                forall|i: int|
                    0 <= i < old(self).buffer@.len() ==> #[trigger] self.buffer@[i] == (
                    if ylo <= i / (w as int) < yi && xlo <= i % (w as int) <= xhi {
                        spec_star_pixel(
                            old(self).buffer@[i] as int,
                            i % (w as int),
                            i / (w as int),
                            cx as int,
                            cy as int,
                            radius as int,
                            w as int,
                            h as int,
                        )
                    } else {
                        old(self).buffer@[i] as int
                    }),
            decreases yhi + 1 - yi,
        {
            let mut xi: usize = xlo;
            while xi <= xhi
                invariant
                    self.wf(),
                    self.width == old(self).width,
                    self.height == old(self).height,
                    w == self.width,
                    h == self.height,
                    ws == w as int * 65536,
                    hs == h as int * 65536,
                    cx == center.x,
                    cy == center.y,
                    1 <= radius <= 0x1000_0000,
                    -0x1000_0000 <= cx <= 0x1000_0000,
                    -0x1000_0000 <= cy <= 0x1000_0000,
                    xlo as int == spec_lo(cx - 2 * radius),
                    ylo as int == spec_lo(cy - 2 * radius),
                    xhi as int == spec_hi(cx + 2 * radius, w as int),
                    yhi as int == spec_hi(cy + 2 * radius, h as int),
                    xhi < w,
                    yhi < h,
                    ylo <= yi <= yhi,
                    xlo <= xi,
                    xi <= xhi + 1 || xi == xlo,
                    old(self).buffer@.len() == w as int * h as int,
                    forall|i: int|
                        0 <= i < old(self).buffer@.len() ==> #[trigger] self.buffer@[i] == (
                        if (ylo <= i / (w as int) < yi && xlo <= i % (w as int) <= xhi) || (i / (
                        w as int) == yi && xlo <= i % (w as int) < xi) {
                            spec_star_pixel(
                                old(self).buffer@[i] as int,
                                i % (w as int),
                                i / (w as int),
                                cx as int,
                                cy as int,
                                radius as int,
                                w as int,
                                h as int,
                            )
                        } else {
                            old(self).buffer@[i] as int
                        }),
                decreases xhi + 1 - xi,
            {
                proof {
                    assert((yi as int) * (w as int) + (xi as int) < (w as int) * (h as int))
                        by (nonlinear_arith)
                        requires
                            0 <= xi < w as int,
                            0 <= yi < h as int,
                    ;
                    assert((w as int) * (h as int) <= 4096 * 4096) by (nonlinear_arith)
                        requires
                            0 < w as int <= 4096,
                            0 < h as int <= 4096,
                    ;
                    lemma_flat_of_xy(xi as int, yi as int, w as int);
                }
                let idx: usize = yi * w + xi;
                let dst: u32 = self.buffer[idx];
                let outv: u32 = star_pixel(dst, xi, yi, cx, cy, radius, w, h);
                self.buffer[idx] = outv;
                xi = xi + 1;
                proof {
                    assert forall|i: int| 0 <= i < old(self).buffer@.len() implies #[trigger] self.buffer@[i] == (
                        if (ylo <= i / (w as int) < yi && xlo <= i % (w as int) <= xhi) || (i / (
                        w as int) == yi && xlo <= i % (w as int) < xi) {
                            spec_star_pixel(
                                old(self).buffer@[i] as int,
                                i % (w as int),
                                i / (w as int),
                                cx as int,
                                cy as int,
                                radius as int,
                                w as int,
                                h as int,
                            )
                        } else {
                            old(self).buffer@[i] as int
                        }) by {
                        lemma_flat_index(i, w as int, h as int);
                        vstd::arithmetic::div_mod::lemma_fundamental_div_mod(i, w as int);
                        assert((i / (w as int)) * (w as int) == (w as int) * (i / (w as int)))
                            by (nonlinear_arith);
                        assert((yi as int - 1) * (w as int) == (w as int) * (yi as int - 1))
                            by (nonlinear_arith);
                    }
                }
            }
            proof {
                assert forall|i: int| 0 <= i < old(self).buffer@.len() implies #[trigger] self.buffer@[i] == (
                    if ylo <= i / (w as int) < yi + 1 && xlo <= i % (w as int) <= xhi {
                        spec_star_pixel(
                            old(self).buffer@[i] as int,
                            i % (w as int),
                            i / (w as int),
                            cx as int,
                            cy as int,
                            radius as int,
                            w as int,
                            h as int,
                        )
                    } else {
                        old(self).buffer@[i] as int
                    }) by {
                    lemma_flat_index(i, w as int, h as int);
                }
            }
            yi = yi + 1;
        }
        proof {
            assert forall|i: int| 0 <= i < old(self).buffer@.len() implies #[trigger] self.buffer@[i]
                == spec_star_pixel(
                old(self).buffer@[i] as int,
                i % (w as int),
                i / (w as int),
                cx as int,
                cy as int,
                radius as int,
                w as int,
                h as int,
            ) by {
                lemma_flat_index(i, w as int, h as int);
                let x = i % (w as int);
                let y = i / (w as int);
                if !(xlo <= x <= xhi && ylo <= y <= yhi) {
                    lemma_star_pixel_outside(
                        old(self).buffer@[i] as int,
                        x,
                        y,
                        cx as int,
                        cy as int,
                        radius as int,
                        w as int,
                        h as int,
                    );
                }
            }
        }
    }

    /// Draw a celestial body: alpha-composite the texture shader's output
    /// over the disc's bounding box, and, for a ringed body, additively
    /// lighten the elliptical ring band around it. A radius below one
    /// pixel unit is rejected by skipping the draw.
    #[verifier::rlimit(100)]
    #[verifier::spinoff_prover]
    pub fn draw_body(
        &mut self,
        center: Vec2,
        radius: i64,
        planet_index: usize,
        is_gas: bool,
        has_rings: bool,
    )
        requires
            old(self).wf(),
            -0x1000_0000 <= center.x <= 0x1000_0000,
            -0x1000_0000 <= center.y <= 0x1000_0000,
            radius <= 0x1000_0000,
        ensures
            final(self).wf(),
            final(self).width == old(self).width,
            final(self).height == old(self).height,
            radius < 1 ==> final(self).buffer@ == old(self).buffer@,
            radius >= 1 ==> forall|i: int|
                0 <= i < old(self).buffer@.len() ==> #[trigger] final(self).buffer@[i]
                    == spec_draw_body_pixel(
                    old(self).buffer@[i] as int,
                    i % (old(self).width as int),
                    i / (old(self).width as int),
                    center.x as int,
                    center.y as int,
                    radius as int,
                    planet_index as int,
                    is_gas,
                    has_rings,
                    old(self).width as int,
                    old(self).height as int,
                ),
    {
        if radius < 1 {
            return ;
        }
        let w: usize = self.width;
        let h: usize = self.height;
        let ws: i64 = (w as i64) * SCALE;
        let hs: i64 = (h as i64) * SCALE;
        let cx: i64 = center.x;
        let cy: i64 = center.y;
        let minx: usize = ((crate::fp::clamp(cx - radius - 131072, 0, ws - SCALE) as u64) / 65536) as usize;
        let maxx: usize = ((crate::fp::clamp(cx + radius + 131072, 0, ws - SCALE) as u64) / 65536) as usize;
        let miny: usize = ((crate::fp::clamp(cy - radius - 131072, 0, hs - SCALE) as u64) / 65536) as usize;
        let maxy: usize = ((crate::fp::clamp(cy + radius + 131072, 0, hs - SCALE) as u64) / 65536) as usize;
        proof {
            vstd::arithmetic::div_mod::lemma_div_is_ordered(
                crate::fp::spec_clamp(cx + radius + 131072, 0, (w as int - 1) * 65536),
                w as int * 65536 - 1,
                65536,
            );
            vstd::arithmetic::div_mod::lemma_div_is_ordered(
                crate::fp::spec_clamp(cy + radius + 131072, 0, (h as int - 1) * 65536),
                h as int * 65536 - 1,
                65536,
            );
            lemma_px_floor(w as int);
            lemma_px_floor(h as int);
            assert(minx as int == spec_hi(cx - radius - 131072, w as int));
            assert(maxx as int == spec_hi(cx + radius + 131072, w as int));
            assert(miny as int == spec_hi(cy - radius - 131072, h as int));
            assert(maxy as int == spec_hi(cy + radius + 131072, h as int));
        }
        let mut yi: usize = miny;
        while yi <= maxy
            invariant
                self.wf(),
                self.width == old(self).width,
                self.height == old(self).height,
                w == self.width,
                h == self.height,
                ws == w as int * 65536,
                hs == h as int * 65536,
                cx == center.x,
                cy == center.y,
                1 <= radius <= 0x1000_0000,
                -0x1000_0000 <= cx <= 0x1000_0000,
                -0x1000_0000 <= cy <= 0x1000_0000,
                minx as int == spec_hi(cx - radius - 131072, w as int),
                maxx as int == spec_hi(cx + radius + 131072, w as int),
                miny as int == spec_hi(cy - radius - 131072, h as int),
                maxy as int == spec_hi(cy + radius + 131072, h as int),
                maxx < w,
                maxy < h,
                miny <= yi,
                yi <= maxy + 1 || yi == miny,
                old(self).buffer@.len() == w as int * h as int,
                forall|i: int|
                    0 <= i < old(self).buffer@.len() ==> #[trigger] self.buffer@[i] == (
                    if miny <= i / (w as int) < yi && minx <= i % (w as int) <= maxx {
                        spec_body_pixel(
                            old(self).buffer@[i] as int,
                            i % (w as int),
                            i / (w as int),
                            cx as int,
                            cy as int,
                            radius as int,
                            planet_index as int,
                            is_gas,
                            w as int,
                            h as int,
                        )
                    } else {
                        old(self).buffer@[i] as int
                    }),
            decreases maxy + 1 - yi,
        {
            let mut xi: usize = minx;
            while xi <= maxx
                invariant
                    self.wf(),
                    self.width == old(self).width,
                    self.height == old(self).height,
                    w == self.width,
                    h == self.height,
                    ws == w as int * 65536,
                    hs == h as int * 65536,
                    cx == center.x,
                    cy == center.y,
                    1 <= radius <= 0x1000_0000,
                    -0x1000_0000 <= cx <= 0x1000_0000,
                    -0x1000_0000 <= cy <= 0x1000_0000,
                    minx as int == spec_hi(cx - radius - 131072, w as int),
                    maxx as int == spec_hi(cx + radius + 131072, w as int),
                    miny as int == spec_hi(cy - radius - 131072, h as int),
                    maxy as int == spec_hi(cy + radius + 131072, h as int),
                    maxx < w,
                    maxy < h,
                    miny <= yi <= maxy,
                    minx <= xi,
                    xi <= maxx + 1 || xi == minx,
                    old(self).buffer@.len() == w as int * h as int,
                    forall|i: int|
                        0 <= i < old(self).buffer@.len() ==> #[trigger] self.buffer@[i] == (
                        if (miny <= i / (w as int) < yi && minx <= i % (w as int) <= maxx) || (i / (
                        w as int) == yi && minx <= i % (w as int) < xi) {
                            spec_body_pixel(
                                old(self).buffer@[i] as int,
                                i % (w as int),
                                i / (w as int),
                                cx as int,
                                cy as int,
                                radius as int,
                                planet_index as int,
                                is_gas,
                                w as int,
                                h as int,
                            )
                        } else {
                            old(self).buffer@[i] as int
                        }),
                decreases maxx + 1 - xi,
            {
                proof {
                    assert((yi as int) * (w as int) + (xi as int) < (w as int) * (h as int))
                        by (nonlinear_arith)
                        requires
                            0 <= xi < w as int,
                            0 <= yi < h as int,
                    ;
                    assert((w as int) * (h as int) <= 4096 * 4096) by (nonlinear_arith)
                        requires
                            0 < w as int <= 4096,
                            0 < h as int <= 4096,
                    ;
                    lemma_flat_of_xy(xi as int, yi as int, w as int);
                }
                let idx: usize = yi * w + xi;
                let dst: u32 = self.buffer[idx];
                let outv: u32 = body_pixel(dst, xi, yi, cx, cy, radius, planet_index, is_gas, w, h);
                self.buffer[idx] = outv;
                xi = xi + 1;
                proof {
                    assert forall|i: int| 0 <= i < old(self).buffer@.len() implies #[trigger] self.buffer@[i] == (
                        if (miny <= i / (w as int) < yi && minx <= i % (w as int) <= maxx) || (i / (
                        w as int) == yi && minx <= i % (w as int) < xi) {
                            spec_body_pixel(
                                old(self).buffer@[i] as int,
                                i % (w as int),
                                i / (w as int),
                                cx as int,
                                cy as int,
                                radius as int,
                                planet_index as int,
                                is_gas,
                                w as int,
                                h as int,
                            )
                        } else {
                            old(self).buffer@[i] as int
                        }) by {
                        lemma_flat_index(i, w as int, h as int);
                        vstd::arithmetic::div_mod::lemma_fundamental_div_mod(i, w as int);
                        assert((i / (w as int)) * (w as int) == (w as int) * (i / (w as int)))
                            by (nonlinear_arith);
                    }
                }
            }
            proof {
                assert forall|i: int| 0 <= i < old(self).buffer@.len() implies #[trigger] self.buffer@[i] == (
                    if miny <= i / (w as int) < yi + 1 && minx <= i % (w as int) <= maxx {
                        spec_body_pixel(
                            old(self).buffer@[i] as int,
                            i % (w as int),
                            i / (w as int),
                            cx as int,
                            cy as int,
                            radius as int,
                            planet_index as int,
                            is_gas,
                            w as int,
                            h as int,
                        )
                    } else {
                        old(self).buffer@[i] as int
                    }) by {
                    lemma_flat_index(i, w as int, h as int);
                }
            }
            yi = yi + 1;
        }
        proof {
            assert forall|i: int| 0 <= i < old(self).buffer@.len() implies #[trigger] self.buffer@[i]
                == spec_body_pixel(
                old(self).buffer@[i] as int,
                i % (w as int),
                i / (w as int),
                cx as int,
                cy as int,
                radius as int,
                planet_index as int,
                is_gas,
                w as int,
                h as int,
            ) by {
                lemma_flat_index(i, w as int, h as int);
                let x = i % (w as int);
                let y = i / (w as int);
                if !(minx <= x <= maxx && miny <= y <= maxy) {
                    lemma_body_pixel_outside(
                        old(self).buffer@[i] as int,
                        x,
                        y,
                        cx as int,
                        cy as int,
                        radius as int,
                        planet_index as int,
                        is_gas,
                        w as int,
                        h as int,
                    );
                }
            }
        }
        let ghost mid: Seq<u32> = self.buffer@;
        if has_rings {
            let outer: i64 = 2 * radius;
            let xlo: usize = (((if cx - outer > 0 {
                cx - outer
            } else {
                0
            }) as u64) / 65536) as usize;
            let xhi: usize = ((crate::fp::clamp(cx + outer, 0, ws - SCALE) as u64) / 65536) as usize;
            let ylo: usize = (((if cy - outer > 0 {
                cy - outer
            } else {
                0
            }) as u64) / 65536) as usize;
            let yhi: usize = ((crate::fp::clamp(cy + outer, 0, hs - SCALE) as u64) / 65536) as usize;
            proof {
                vstd::arithmetic::div_mod::lemma_div_is_ordered(
                    crate::fp::spec_clamp(cx + outer, 0, (w as int - 1) * 65536),
                    w as int * 65536 - 1,
                    65536,
                );
                vstd::arithmetic::div_mod::lemma_div_is_ordered(
                    crate::fp::spec_clamp(cy + outer, 0, (h as int - 1) * 65536),
                    h as int * 65536 - 1,
                    65536,
                );
                lemma_px_floor(w as int);
                lemma_px_floor(h as int);
                assert(xlo as int == spec_lo(cx - 2 * radius));
                assert(ylo as int == spec_lo(cy - 2 * radius));
                assert(xhi as int == spec_hi(cx + 2 * radius, w as int));
                assert(yhi as int == spec_hi(cy + 2 * radius, h as int));
            }
            let mut yi: usize = ylo;
            while yi <= yhi
                invariant
                    self.wf(),
                    self.width == old(self).width,
                    self.height == old(self).height,
                    w == self.width,
                    h == self.height,
                    ws == w as int * 65536,
                    hs == h as int * 65536,
                    cx == center.x,
                    cy == center.y,
                    1 <= radius <= 0x1000_0000,
                    -0x1000_0000 <= cx <= 0x1000_0000,
                    -0x1000_0000 <= cy <= 0x1000_0000,
                    xlo as int == spec_lo(cx - 2 * radius),
                    ylo as int == spec_lo(cy - 2 * radius),
                    xhi as int == spec_hi(cx + 2 * radius, w as int),
                    yhi as int == spec_hi(cy + 2 * radius, h as int),
                    xhi < w,
                    yhi < h,
                    ylo <= yi,
                    yi <= yhi + 1 || yi == ylo,
                    mid.len() == w as int * h as int,
                    old(self).buffer@.len() == w as int * h as int,
                    forall|i: int|
                        0 <= i < mid.len() ==> #[trigger] self.buffer@[i] == (
                        if ylo <= i / (w as int) < yi && xlo <= i % (w as int) <= xhi {
                            spec_ring_pixel(
                                mid[i] as int,
                                i % (w as int),
                                i / (w as int),
                                cx as int,
                                cy as int,
                                radius as int,
                                w as int,
                                h as int,
                            )
                        } else {
                            mid[i] as int
                        }),
                decreases yhi + 1 - yi,
            {
                let mut xi: usize = xlo;
                while xi <= xhi
                    invariant
                        self.wf(),
                        self.width == old(self).width,
                        self.height == old(self).height,
                        w == self.width,
                        h == self.height,
                        ws == w as int * 65536,
                        hs == h as int * 65536,
                        cx == center.x,
                        cy == center.y,
                        1 <= radius <= 0x1000_0000,
                        -0x1000_0000 <= cx <= 0x1000_0000,
                        -0x1000_0000 <= cy <= 0x1000_0000,
                        xlo as int == spec_lo(cx - 2 * radius),
                        ylo as int == spec_lo(cy - 2 * radius),
                        xhi as int == spec_hi(cx + 2 * radius, w as int),
                        yhi as int == spec_hi(cy + 2 * radius, h as int),
                        xhi < w,
                        yhi < h,
                        ylo <= yi <= yhi,
                        xlo <= xi,
                        xi <= xhi + 1 || xi == xlo,
                        mid.len() == w as int * h as int,
                        old(self).buffer@.len() == w as int * h as int,
                        forall|i: int|
                            0 <= i < mid.len() ==> #[trigger] self.buffer@[i] == (
                            if (ylo <= i / (w as int) < yi && xlo <= i % (w as int) <= xhi) || (i
                                / (w as int) == yi && xlo <= i % (w as int) < xi) {
                                spec_ring_pixel(
                                    mid[i] as int,
                                    i % (w as int),
                                    i / (w as int),
                                    cx as int,
                                    cy as int,
                                    radius as int,
                                    w as int,
                                    h as int,
                                )
                            } else {
                                mid[i] as int
                            }),
                    decreases xhi + 1 - xi,
                {
                    proof {
                        assert((yi as int) * (w as int) + (xi as int) < (w as int) * (h as int))
                            by (nonlinear_arith)
                            requires
                                0 <= xi < w as int,
                                0 <= yi < h as int,
                        ;
                        assert((w as int) * (h as int) <= 4096 * 4096) by (nonlinear_arith)
                            requires
                                0 < w as int <= 4096,
                                0 < h as int <= 4096,
                        ;
                        lemma_flat_of_xy(xi as int, yi as int, w as int);
                    }
                    let idx: usize = yi * w + xi;
                    let dst: u32 = self.buffer[idx];
                    let outv: u32 = ring_pixel(dst, xi, yi, cx, cy, radius, w, h);
                    self.buffer[idx] = outv;
                    xi = xi + 1;
                    proof {
                        assert forall|i: int| 0 <= i < mid.len() implies #[trigger] self.buffer@[i] == (
                            if (ylo <= i / (w as int) < yi && xlo <= i % (w as int) <= xhi) || (i
                                / (w as int) == yi && xlo <= i % (w as int) < xi) {
                                spec_ring_pixel(
                                    mid[i] as int,
                                    i % (w as int),
                                    i / (w as int),
                                    cx as int,
                                    cy as int,
                                    radius as int,
                                    w as int,
                                    h as int,
                                )
                            } else {
                                mid[i] as int
                            }) by {
                            lemma_flat_index(i, w as int, h as int);
                            vstd::arithmetic::div_mod::lemma_fundamental_div_mod(i, w as int);
                            assert((i / (w as int)) * (w as int) == (w as int) * (i / (w as int)))
                                by (nonlinear_arith);
                        }
                    }
                }
                proof {
                    assert forall|i: int| 0 <= i < mid.len() implies #[trigger] self.buffer@[i] == (
                        if ylo <= i / (w as int) < yi + 1 && xlo <= i % (w as int) <= xhi {
                            spec_ring_pixel(
                                mid[i] as int,
                                i % (w as int),
                                i / (w as int),
                                cx as int,
                                cy as int,
                                radius as int,
                                w as int,
                                h as int,
                            )
                        } else {
                            mid[i] as int
                        }) by {
                        lemma_flat_index(i, w as int, h as int);
                    }
                }
                yi = yi + 1;
            }
            proof {
                assert forall|i: int| 0 <= i < mid.len() implies #[trigger] self.buffer@[i]
                    == spec_ring_pixel(
                    mid[i] as int,
                    i % (w as int),
                    i / (w as int),
                    cx as int,
                    cy as int,
                    radius as int,
                    w as int,
                    h as int,
                ) by {
                    lemma_flat_index(i, w as int, h as int);
                    let x = i % (w as int);
                    let y = i / (w as int);
                    if !(xlo <= x <= xhi && ylo <= y <= yhi) {
                        lemma_ring_pixel_outside(
                            mid[i] as int,
                            x,
                            y,
                            cx as int,
                            cy as int,
                            radius as int,
                            w as int,
                            h as int,
                        );
                    }
                }
            }
        }
    }
}

/// The row of a flat buffer index is a valid row and its column a valid
/// column.
pub proof fn lemma_flat_index(i: int, w: int, h: int)
    requires
        1 <= w,
        1 <= h,
        0 <= i < w * h,
    ensures
        0 <= i % w < w,
        0 <= i / w < h,
{
    vstd::arithmetic::div_mod::lemma_mod_bound(i, w);
    vstd::arithmetic::div_mod::lemma_div_pos_is_pos(i, w);
    vstd::arithmetic::div_mod::lemma_div_is_ordered(i, w * h - 1, w);
    assert(w * h - 1 == (h - 1) * w + (w - 1)) by (nonlinear_arith);
    vstd::arithmetic::div_mod::lemma_fundamental_div_mod_converse(w * h - 1, w, h - 1, w - 1);
}

/// A flat index is its row times the width plus its column.
pub proof fn lemma_flat_of_xy(x: int, y: int, w: int)
    requires
        1 <= w,
        0 <= x < w,
        0 <= y,
    ensures
        (y * w + x) / w == y,
        (y * w + x) % w == x,
{
    vstd::arithmetic::div_mod::lemma_fundamental_div_mod_converse(y * w + x, w, y, x);


}

/// A surface pixel within `radius` of the center on one axis lies inside
/// the clipped bounding box of the body pass on that axis.
proof fn lemma_axis_in_box(p: int, c: int, radius: int, n: int)
    requires
        1 <= radius,
        1 <= n <= 4096,
        0 <= p < n,
        -radius <= 65536 * p + 32768 - c <= radius,
    ensures
        spec_hi(c - radius - 131072, n) <= p <= spec_hi(c + radius + 131072, n),
{
    let lo = c - radius - 131072;
    let hi = c + radius + 131072;
    assert(lo <= 65536 * p - 98304);
    assert(hi >= 65536 * p + 98304);
    let cl = crate::fp::spec_clamp(lo, 0, (n - 1) * 65536);
    let ch = crate::fp::spec_clamp(hi, 0, (n - 1) * 65536);
    if lo <= 0 {
        vstd::arithmetic::div_mod::lemma_div_pos_is_pos(p, 1);
        assert(cl == 0 && cl / 65536 == 0);
    } else {
        assert(lo <= 65536 * p - 98304 < 65536 * (n - 1));
        assert(cl <= 65536 * p - 98304);
        vstd::arithmetic::div_mod::lemma_div_is_ordered(cl, 65536 * p - 98304, 65536);
        vstd::arithmetic::div_mod::lemma_fundamental_div_mod_converse(
            65536 * p - 98304,
            65536,
            p - 2,
            32768,
        );
        vstd::arithmetic::div_mod::lemma_div_pos_is_pos(cl, 65536);
    }
    if hi >= (n - 1) * 65536 {
        assert(ch == (n - 1) * 65536);
        vstd::arithmetic::div_mod::lemma_fundamental_div_mod_converse(
            (n - 1) * 65536,
            65536,
            n - 1,
            0,
        );
    } else {
        assert(ch == hi);
        vstd::arithmetic::div_mod::lemma_div_is_ordered(65536 * p + 98304, ch, 65536);
        vstd::arithmetic::div_mod::lemma_fundamental_div_mod_converse(
            65536 * p + 98304,
            65536,
            p + 1,
            32768,
        );
    }
}

/// Inside the disc the shader is fully opaque, so the body pass replaces
/// the destination pixel outright: the new value is the packed shader
/// color and does not depend on what the pixel held before.
#[verifier::rlimit(100)]
#[verifier::spinoff_prover]
pub proof fn lemma_draw_body_replaces(
    v1: int,
    v2: int,
    x: int,
    y: int,
    cx: int,
    cy: int,
    radius: int,
    pi: int,
    gas: bool,
    w: int,
    h: int,
)
    requires
        1 <= radius <= 0x1000_0000,
        -0x1000_0000 <= cx <= 0x1000_0000,
        -0x1000_0000 <= cy <= 0x1000_0000,
        1 <= w <= 4096,
        1 <= h <= 4096,
        0 <= x < w,
        0 <= y < h,
        crate::spec_vec_len(65536 * x + 32768 - cx, 65536 * y + 32768 - cy) <= radius,
    ensures
        spec_body_pixel(v1, x, y, cx, cy, radius, pi, gas, w, h) == spec_body_pixel(
            v2,
            x,
            y,
            cx,
            cy,
            radius,
            pi,
            gas,
            w,
            h,
        ),
        ({
            let tex = crate::textura::spec_planet_texture(
                65536 * x + 32768,
                65536 * y + 32768,
                cx,
                cy,
                radius,
                pi,
                gas,
            );
            spec_body_pixel(v1, x, y, cx, cy, radius, pi, gas, w, h) == spec_rgb_to_u32(
                tex.0,
                tex.1,
                tex.2,
            )
        }),
{
    reveal(spec_body_pixel);
    reveal(crate::textura::spec_planet_texture);
    let dx = 65536 * x + 32768 - cx;
    let dy = 65536 * y + 32768 - cy;
    let d = crate::spec_vec_len(dx, dy);
    assert(d * d <= crate::spec_len2(dx, dy) < (d + 1) * (d + 1) && 0 <= d) by {
        lemma_isqrt_exists(dx, dy);
    }
    assert(-radius <= dx <= radius && -radius <= dy <= radius) by (nonlinear_arith)
        requires
            d * d <= crate::spec_len2(dx, dy) < (d + 1) * (d + 1),
            0 <= d <= radius,
            crate::spec_len2(dx, dy) == dx * dx + dy * dy,
    ;
    lemma_axis_in_box(x, cx, radius, w);
    lemma_axis_in_box(y, cy, radius, h);
    let tex = crate::textura::spec_planet_texture(
        65536 * x + 32768,
        65536 * y + 32768,
        cx,
        cy,
        radius,
        pi,
        gas,
    );
    assert(tex.3 == 65536);
    crate::fp::lemma_blend_full(
        tex.0,
        crate::fp::spec_unpack_channel(crate::fp::spec_byte_r(v1)),
    );
    crate::fp::lemma_blend_full(
        tex.1,
        crate::fp::spec_unpack_channel(crate::fp::spec_byte_g(v1)),
    );
    crate::fp::lemma_blend_full(
        tex.2,
        crate::fp::spec_unpack_channel(crate::fp::spec_byte_b(v1)),
    );
    crate::fp::lemma_blend_full(
        tex.0,
        crate::fp::spec_unpack_channel(crate::fp::spec_byte_r(v2)),
    );
    crate::fp::lemma_blend_full(
        tex.1,
        crate::fp::spec_unpack_channel(crate::fp::spec_byte_g(v2)),
    );
    crate::fp::lemma_blend_full(
        tex.2,
        crate::fp::spec_unpack_channel(crate::fp::spec_byte_b(v2)),
    );
}

/// Every vector has an integer square root of its squared length.
proof fn lemma_isqrt_exists(dx: int, dy: int)
    ensures
        exists|r: int|
            0 <= r && #[trigger] (r * r) <= crate::spec_len2(dx, dy) && (r + 1) * (r + 1)
                > crate::spec_len2(dx, dy),
{
    let n = crate::spec_len2(dx, dy);
    assert(0 <= n) by (nonlinear_arith)
        requires
            n == dx * dx + dy * dy,
    ;
    lemma_isqrt_exists_nat(n);
}

/// Every nonnegative integer has an integer square root.
proof fn lemma_isqrt_exists_nat(n: int)
    requires
        0 <= n,
    ensures
        exists|r: int| 0 <= r && #[trigger] (r * r) <= n && (r + 1) * (r + 1) > n,
    decreases n,
{
    if n == 0 {
        assert(0 * 0 <= n && (0 + 1) * (0 + 1) > n) by (nonlinear_arith)
            requires
                n == 0,
        ;
    } else {
        lemma_isqrt_exists_nat(n - 1);
        let r = choose|r: int|
            0 <= r && #[trigger] (r * r) <= n - 1 && (r + 1) * (r + 1) > n - 1;
        if (r + 1) * (r + 1) > n {
            assert(r * r <= n);
        } else {
            assert((r + 1) * (r + 1) == n);
            assert((r + 2) * (r + 2) > n) by (nonlinear_arith)
                requires
                    (r + 1) * (r + 1) == n,
                    0 <= r,
            ;
            assert(0 <= r + 1 && (r + 1) * (r + 1) <= n);
        }
    }
}

/// Applying the star glow twice at the same spot leaves every channel at
/// least as bright as one application, and every byte within the legal
/// packed range.
pub proof fn lemma_draw_star_brightens(
    v: int,
    x: int,
    y: int,
    cx: int,
    cy: int,
    radius: int,
    w: int,
    h: int,
)
    requires
        0 <= v,
        1 <= radius <= 0x1000_0000,
    ensures
        ({
            let v1 = spec_star_pixel(v, x, y, cx, cy, radius, w, h);
            let v2 = spec_star_pixel(v1, x, y, cx, cy, radius, w, h);
            &&& crate::fp::spec_byte_r(v2) >= crate::fp::spec_byte_r(v1)
            &&& crate::fp::spec_byte_g(v2) >= crate::fp::spec_byte_g(v1)
            &&& crate::fp::spec_byte_b(v2) >= crate::fp::spec_byte_b(v1)
            &&& 0 <= crate::fp::spec_byte_r(v2) <= 255
            &&& 0 <= crate::fp::spec_byte_g(v2) <= 255
            &&& 0 <= crate::fp::spec_byte_b(v2) <= 255
        }),
{
    reveal(spec_star_pixel);
    let v1 = spec_star_pixel(v, x, y, cx, cy, radius, w, h);
    let v2 = spec_star_pixel(v1, x, y, cx, cy, radius, w, h);
    lemma_byte_range(v);
    let xlo = spec_lo(cx - 2 * radius);
    let xhi = spec_hi(cx + 2 * radius, w);
    let ylo = spec_lo(cy - 2 * radius);
    let yhi = spec_hi(cy + 2 * radius, h);
    let dx = 65536 * x + 32768 - cx;
    let dy = 65536 * y + 32768 - cy;
    let d = crate::spec_vec_len(dx, dy);
    if xlo <= x <= xhi && ylo <= y <= yhi && d <= 2 * radius {
        let t = (d * 65536) / radius;
        let core = crate::fp::spec_smoothstep(0, 65536, 65536 - t);
        let glow = crate::fp::spec_smoothstep(131072, 65536, t);
        let cr = crate::fp::spec_clamp(core + spec_fp_mul(glow, 39322), 0, 65536);
        let cg = crate::fp::spec_clamp(
            spec_fp_mul(core, 52429) + spec_fp_mul(glow, 22938),
            0,
            65536,
        );
        let cb = crate::fp::spec_clamp(
            spec_fp_mul(core, 13107) + spec_fp_mul(glow, 6554),
            0,
            65536,
        );
        assert(0 <= cr && 0 <= cg && 0 <= cb);
        lemma_star_channel_step(crate::fp::spec_byte_r(v), cr);
        lemma_star_channel_step(crate::fp::spec_byte_g(v), cg);
        lemma_star_channel_step(crate::fp::spec_byte_b(v), cb);
        lemma_pack_bytes_of_rgb(
            crate::fp::spec_unpack_channel(crate::fp::spec_byte_r(v)) + cr,
            crate::fp::spec_unpack_channel(crate::fp::spec_byte_g(v)) + cg,
            crate::fp::spec_unpack_channel(crate::fp::spec_byte_b(v)) + cb,
        );
        lemma_pack_bytes_of_rgb(
            crate::fp::spec_unpack_channel(crate::fp::spec_byte_r(v1)) + cr,
            crate::fp::spec_unpack_channel(crate::fp::spec_byte_g(v1)) + cg,
            crate::fp::spec_unpack_channel(crate::fp::spec_byte_b(v1)) + cb,
        );
    } else {
        assert(v2 == v1);
        lemma_byte_range(v1);
    }
}

/// The bytes of any nonnegative packed value lie in `[0, 255]`.
proof fn lemma_byte_range(v: int)
    requires
        0 <= v,
    ensures
        0 <= crate::fp::spec_byte_r(v) <= 255,
        0 <= crate::fp::spec_byte_g(v) <= 255,
        0 <= crate::fp::spec_byte_b(v) <= 255,
{
    vstd::arithmetic::div_mod::lemma_mod_bound(v / 0x10000, 0x100);
    vstd::arithmetic::div_mod::lemma_mod_bound(v / 0x100, 0x100);
    vstd::arithmetic::div_mod::lemma_mod_bound(v, 0x100);
}

/// The bytes of a freshly packed pixel are its three packed channels.
proof fn lemma_pack_bytes_of_rgb(r: int, g: int, b: int)
    ensures
        crate::fp::spec_byte_r(spec_rgb_to_u32(r, g, b)) == crate::fp::spec_pack_channel(r),
        crate::fp::spec_byte_g(spec_rgb_to_u32(r, g, b)) == crate::fp::spec_pack_channel(g),
        crate::fp::spec_byte_b(spec_rgb_to_u32(r, g, b)) == crate::fp::spec_pack_channel(b),
{
    crate::fp::lemma_pack_channel_range(r);
    crate::fp::lemma_pack_channel_range(g);
    crate::fp::lemma_pack_channel_range(b);
    crate::fp::lemma_rgb_bytes(
        crate::fp::spec_pack_channel(r),
        crate::fp::spec_pack_channel(g),
        crate::fp::spec_pack_channel(b),
    );
}

/// One additive step of a star channel: adding a nonnegative contribution
/// to an unpacked byte and repacking never darkens the byte.
proof fn lemma_star_channel_step(q: int, c: int)
    requires
        0 <= q <= 255,
        0 <= c,
    ensures
        crate::fp::spec_pack_channel(crate::fp::spec_unpack_channel(q) + c)
            >= crate::fp::spec_pack_channel(crate::fp::spec_unpack_channel(q)),
        crate::fp::spec_pack_channel(crate::fp::spec_unpack_channel(q)) == q,
{
    crate::fp::lemma_channel_roundtrip(q);
    crate::fp::lemma_pack_channel_monotone(
        crate::fp::spec_unpack_channel(q),
        crate::fp::spec_unpack_channel(q) + c,
    );
}

/// The band coordinate of the center of band `k`: the point of full mask
/// intensity.
pub open spec fn spec_band_center(k: int) -> int {
    65536 * k + 32768
}

/// Across the normalized ring interval the band mask peaks exactly twelve
/// times: it attains its full value precisely at the twelve band centers,
/// one per band, and nowhere else.
pub proof fn lemma_ring_band_peaks(bp: int)
    requires
        0 <= bp < 786432,
    ensures
        0 <= spec_ring_mask(bp) <= 65536,
        (spec_ring_mask(bp) == 65536) <==> (exists|k: int|
            0 <= k < 12 && bp == #[trigger] spec_band_center(k)),
{
    let a = vstd::math::abs(bp % 65536 - 32768) as int;
    vstd::arithmetic::div_mod::lemma_mod_bound(bp, 65536);
    crate::fp::lemma_smoothstep_props(1311, 0, a);
    let t = crate::fp::spec_smoothstep_t(1311, 0, a);
    if a == 0 {
        assert((1311int * 65536) / 1311 == 65536) by (nonlinear_arith);
        assert(t == 65536);
        let k = bp / 65536;
        vstd::arithmetic::div_mod::lemma_fundamental_div_mod(bp, 65536);
        vstd::arithmetic::div_mod::lemma_div_pos_is_pos(bp, 65536);
        vstd::arithmetic::div_mod::lemma_div_is_ordered(bp, 786431, 65536);
        vstd::arithmetic::div_mod::lemma_fundamental_div_mod_converse(786431, 65536, 11, 65535);
        assert(0 <= k < 12 && bp == spec_band_center(k));
    } else {
        assert((1311 - a) * 65536 <= 1310 * 65536) by (nonlinear_arith)
            requires
                1 <= a,
        ;
        vstd::arithmetic::div_mod::lemma_div_is_ordered(
            (1311 - a) * 65536,
            1310int * 65536,
            1311,
        );
        vstd::arithmetic::div_mod::lemma_fundamental_div_mod_converse(
            1310int * 65536,
            1311,
            65486,
            14,
        );
        assert(t < 65536);
        assert forall|k: int| 0 <= k < 12 implies bp != #[trigger] spec_band_center(k) by {
            if bp == spec_band_center(k) {
                vstd::arithmetic::div_mod::lemma_fundamental_div_mod_converse(
                    bp,
                    65536,
                    k,
                    32768,
                );
            }
        }
    }
}

/// For bounded `a` and `b`, the fixed-point product stays within the
/// bound of `a`.
proof fn lemma_mul_abs_le(a: int, b: int, ab: int, bb: int)
    requires
        -ab <= a <= ab,
        -bb <= b <= bb,
        0 < ab,
        0 < bb,
        bb <= 65536,
    ensures
        -ab <= (a * b) / 65536 <= ab,
{
    assert(-(ab * 65536) <= a * b <= ab * 65536) by (nonlinear_arith)
        requires
            -ab <= a <= ab,
            -bb <= b <= bb,
            0 < ab,
            0 < bb,
            bb <= 65536,
    ;
    vstd::arithmetic::div_mod::lemma_div_is_ordered(a * b, ab * 65536, 65536);
    vstd::arithmetic::div_mod::lemma_div_is_ordered(-(ab * 65536), a * b, 65536);
    assert((ab * 65536) / 65536 == ab) by (nonlinear_arith);
    assert((-(ab * 65536)) / 65536 == -ab) by (nonlinear_arith);
}

/// The floor of `(d * 65536 - 1) / 65536` is `d - 1`.
proof fn lemma_px_floor(d: int)
    requires
        1 <= d,
    ensures
        (d * 65536 - 1) / 65536 == d - 1,
{
    vstd::arithmetic::div_mod::lemma_fundamental_div_mod_converse(
        d * 65536 - 1,
        65536,
        d - 1,
        65535,
    );
}

} // verus!
