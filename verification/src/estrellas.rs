//! The starfield: deterministic placement of background stars and their
//! per-frame twinkle and jitter.

use vstd::prelude::*;
use crate::fp::SCALE;
use crate::fp::abs_fp;
use crate::fp::fp_cos;
use crate::fp::fp_mul;
use crate::fp::fp_sin;
use crate::fp::mul_unit;
use crate::fp::rgb_to_u32;
use crate::fp::spec_cos;
use crate::fp::spec_fp_mul;
use crate::fp::spec_rgb_to_u32;
use crate::fp::spec_sin;
use crate::framebuffer::Framebuffer;
use crate::framebuffer::lemma_pix_index_range;
use crate::noise::hash;
use crate::noise::spec_hash;
use crate::Vec2;

verus! {

/// One background star: an immutable position and the scalar seed that
/// derives its motion and brightness each frame. Created once, never
/// mutated.
pub struct Estrella {
    pub pos: Vec2,
    pub seed: i64,
}

/// Place `num` stars deterministically: the position of star `i` is the
/// hash of its index, stretched over the surface; its seed is its index.
pub fn generar_estrellas(num: usize, width: usize, height: usize) -> (stars: Vec<Estrella>)
    requires
        1 <= width <= 4096,
        1 <= height <= 4096,
        num <= 0x10_0000,
    ensures
        stars@.len() == num,
        forall|j: int|
            0 <= j < num ==> {
                let s = #[trigger] stars@[j];
                &&& s.seed == j
                &&& s.pos.x == spec_hash(12345 * j) * (width - 1)
                &&& s.pos.y == spec_hash(98765 * j) * (height - 1)
                &&& 0 <= s.pos.x < width * 65536
                &&& 0 <= s.pos.y < height * 65536
            },
{
    let mut stars: Vec<Estrella> = Vec::new();
    let mut i: usize = 0;
    while i < num
        invariant
            1 <= width <= 4096,
            1 <= height <= 4096,
            num <= 0x10_0000,
            i <= num,
            stars@.len() == i,
            forall|j: int|
                0 <= j < i ==> {
                    let s = #[trigger] stars@[j];
                    &&& s.seed == j
                    &&& s.pos.x == spec_hash(12345 * j) * (width - 1)
                    &&& s.pos.y == spec_hash(98765 * j) * (height - 1)
                    &&& 0 <= s.pos.x < width * 65536
                    &&& 0 <= s.pos.y < height * 65536
                },
        decreases num - i,
    {
        let hx: i64 = hash(12345 * (i as i64));
        let hy: i64 = hash(98765 * (i as i64));
        proof {
            assert(0 <= hx * (width - 1) < 65536 * (width as int)) by (nonlinear_arith)
                requires
                    0 <= hx < 65536,
                    1 <= width <= 4096,
            ;
            assert(0 <= hy * (height - 1) < 65536 * (height as int)) by (nonlinear_arith)
                requires
                    0 <= hy < 65536,
                    1 <= height <= 4096,
            ;
            assert(65536 * (width as int) == (width as int) * 65536) by (nonlinear_arith);
            assert(65536 * (height as int) == (height as int) * 65536) by (nonlinear_arith);
        }
        let px: i64 = hx * ((width as i64) - 1);
        let py: i64 = hy * ((height as i64) - 1);
        stars.push(Estrella { pos: Vec2 { x: px, y: py }, seed: i as i64 });
        i = i + 1;
    }
    stars
}

/// The jittered position and twinkle color of one star at one instant,
/// written onto the surface when it lands inside it.
#[verifier::opaque]
pub open spec fn spec_star_write(buf: Seq<u32>, s: Estrella, tiempo: int, w: int, h: int) -> Seq<
    u32,
> {
    let ax = 2 * spec_hash(123 * s.seed) - 65536;
    let ay = 2 * spec_hash(987 * s.seed) - 65536;
    let phase = spec_fp_mul(tiempo, 13107) + 655 * s.seed;
    let sx = 5 * spec_sin(phase);
    let sy = 5 * spec_cos(phase);
    let x = s.pos.x + spec_fp_mul(ax, sx);
    let y = s.pos.y + spec_fp_mul(ay, sy);
    let brillo = 45875 + spec_fp_mul(vstd::math::abs(2 * spec_hash(65536 * s.seed + 2 * tiempo)
        - 65536) as int, 19661);
    let color = spec_rgb_to_u32(brillo, brillo, brillo);
    if 0 <= x && 0 <= y && x < w * 65536 && y < h * 65536 {
        buf.update((y / 65536) * w + x / 65536, color as u32)
    } else {
        buf
    }
}

/// The first `n` stars of the field, drawn in order.
pub open spec fn spec_animate(
    buf: Seq<u32>,
    stars: Seq<Estrella>,
    tiempo: int,
    w: int,
    h: int,
    n: int,
) -> Seq<u32>
    decreases n,
{
    if n <= 0 {
        buf
    } else {
        spec_star_write(spec_animate(buf, stars, tiempo, w, h, n - 1), stars[n - 1], tiempo, w, h)
    }
}

/// Overwrite one pixel per star with a grayscale twinkle: a small
/// sinusoidal jitter of the star's fixed position and a flicker
/// brightness between 0.7 and 1, both derived from the star's seed and
/// the elapsed time alone.
#[verifier::rlimit(100)]
#[verifier::spinoff_prover]
pub fn animar_estrellas(estrellas: &Vec<Estrella>, tiempo: i64, fb: &mut Framebuffer)
    requires
        old(fb).wf(),
        0 <= tiempo <= 0x4000_0000,
        forall|j: int|
            0 <= j < estrellas@.len() ==> {
                let s = #[trigger] estrellas@[j];
                &&& 0 <= s.seed <= 0x10_0000
                &&& -0x1000_0000 <= s.pos.x <= 0x1000_0000
                &&& -0x1000_0000 <= s.pos.y <= 0x1000_0000
            },
    ensures
        final(fb).wf(),
        final(fb).width == old(fb).width,
        final(fb).height == old(fb).height,
        final(fb).buffer@ == spec_animate(
            old(fb).buffer@,
            estrellas@,
            tiempo as int,
            old(fb).width as int,
            old(fb).height as int,
            estrellas@.len() as int,
        ),
{
    let w: usize = fb.width;
    let h: usize = fb.height;
    let mut j: usize = 0;
    while j < estrellas.len()
        invariant
            fb.wf(),
            fb.width == old(fb).width,
            fb.height == old(fb).height,
            w == fb.width,
            h == fb.height,
            0 <= tiempo <= 0x4000_0000,
            j <= estrellas@.len(),
            forall|k: int|
                0 <= k < estrellas@.len() ==> {
                    let s = #[trigger] estrellas@[k];
                    &&& 0 <= s.seed <= 0x10_0000
                    &&& -0x1000_0000 <= s.pos.x <= 0x1000_0000
                    &&& -0x1000_0000 <= s.pos.y <= 0x1000_0000
                },
            fb.buffer@ == spec_animate(
                old(fb).buffer@,
                estrellas@,
                tiempo as int,
                w as int,
                h as int,
                j as int,
            ),
        decreases estrellas@.len() - j,
    {
        star_write(fb, &estrellas[j], tiempo);
        j = j + 1;
    }
}

/// Draw one star's twinkle onto the surface.
#[verifier::rlimit(100)]
#[verifier::spinoff_prover]
fn star_write(fb: &mut Framebuffer, s: &Estrella, tiempo: i64)
    requires
        old(fb).wf(),
        0 <= tiempo <= 0x4000_0000,
        0 <= s.seed <= 0x10_0000,
        -0x1000_0000 <= s.pos.x <= 0x1000_0000,
        -0x1000_0000 <= s.pos.y <= 0x1000_0000,
    ensures
        final(fb).wf(),
        final(fb).width == old(fb).width,
        final(fb).height == old(fb).height,
        final(fb).buffer@ == spec_star_write(
            old(fb).buffer@,
            *s,
            tiempo as int,
            old(fb).width as int,
            old(fb).height as int,
        ),
{
    proof {
        reveal(spec_star_write);
    }
    let w: usize = fb.width;
    let h: usize = fb.height;
    let ws: i64 = (w as i64) * SCALE;
    let hs: i64 = (h as i64) * SCALE;
    let ax: i64 = 2 * hash(123 * s.seed) - SCALE;
    let ay: i64 = 2 * hash(987 * s.seed) - SCALE;
    let phase: i64 = fp_mul(tiempo, 13107) + 655 * s.seed;
    let sx: i64 = 5 * fp_sin(phase);
    let sy: i64 = 5 * fp_cos(phase);
    let mx: i64 = fp_mul(ax, sx);
    let my: i64 = fp_mul(ay, sy);
    proof {
        lemma_jitter_bound(ax as int, sx as int);
        lemma_jitter_bound(ay as int, sy as int);
    }
    let x: i64 = s.pos.x + mx;
    let y: i64 = s.pos.y + my;
    let hb: i64 = hash(SCALE * s.seed + 2 * tiempo);
    let brillo: i64 = 45875 + mul_unit(abs_fp(2 * hb - SCALE), 19661);
    let color: u32 = rgb_to_u32(brillo, brillo, brillo);
    if x >= 0 && y >= 0 && x < ws && y < hs {
        proof {
            lemma_pix_index_range(x as int, y as int, w as int, h as int);
            assert((w as int) * (h as int) <= 4096 * 4096) by (nonlinear_arith)
                requires
                    0 < w as int <= 4096,
                    0 < h as int <= 4096,
            ;
        }
        let xi: usize = ((x as u64) / 65536) as usize;
        let yi: usize = ((y as u64) / 65536) as usize;
        let idx: usize = yi * w + xi;
        fb.buffer[idx] = color;
    }
}

/// The jitter offset of a star stays within five pixels: an amplitude in
/// `[-1, 1]` times a swing in `[-5, 5]`.
proof fn lemma_jitter_bound(a: int, s: int)
    requires
        -65536 <= a <= 65536,
        -327680 <= s <= 327680,
    ensures
        -327680 <= (a * s) / 65536 <= 327680,
{
    assert(-(327680 * 65536) <= a * s <= 327680 * 65536) by (nonlinear_arith)
        requires
            -65536 <= a <= 65536,
            -327680 <= s <= 327680,
    ;
    vstd::arithmetic::div_mod::lemma_div_is_ordered(a * s, 327680int * 65536, 65536);
    vstd::arithmetic::div_mod::lemma_div_is_ordered(-(327680int * 65536), a * s, 65536);
    assert((327680 * 65536) / 65536 == 327680) by (nonlinear_arith);
    assert((-(327680 * 65536)) / 65536 == -327680) by (nonlinear_arith);
}

} // verus!
