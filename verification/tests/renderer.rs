use solarium::fp;
use solarium::framebuffer::Framebuffer;
use solarium::noise;
use solarium::textura;
use solarium::Vec2;

const S: i64 = 65536;

fn px(p: i64) -> i64 {
    p * S
}

#[test]
fn hash_is_deterministic_and_in_range() {
    for seed in [0i64, 1, 2, 12345, 98765, 1 << 40, 987654321] {
        let a = noise::hash(seed);
        let b = noise::hash(seed);
        assert_eq!(a, b);
        assert!(0 <= a && a < S);
    }
}

#[test]
fn hash_spreads_nearby_seeds() {
    let mut distinct = std::collections::HashSet::new();
    for i in 0..64i64 {
        distinct.insert(noise::hash(i * 12345));
    }
    assert!(distinct.len() > 32);
}

#[test]
fn noise2_and_fbm_stay_in_range() {
    for k in 0..50i64 {
        let x = k * 7919 - 100000;
        let y = k * 104729 - 500000;
        let n = noise::noise2(x, y);
        assert!(0 <= n && n < S);
        let f = noise::fbm(x, y);
        assert!(0 <= f && f < S);
    }
}

#[test]
fn fbm_is_continuous_under_small_perturbations() {
    for k in 0..40i64 {
        let x = k * 31013 - 600000;
        let y = k * 17389 - 300000;
        for d in [1i64, 2, 5, 16, 100, 1000] {
            let a = noise::fbm(x, y);
            let b = noise::fbm(x + d, y - d);
            assert!((a - b).abs() <= 3 * (2 * d) + 45);
        }
    }
}

#[test]
fn texture_is_transparent_outside_the_disc() {
    let center = Vec2::new(px(50), px(50));
    let radius = px(10);
    let far = Vec2::new(px(80), px(50));
    let (_, _, _, a) = textura::planet_texture(far, center, radius, 0, false);
    assert_eq!(a, 0);
    let corner = Vec2::new(px(99), px(99));
    let (_, _, _, a2) = textura::planet_texture(corner, center, radius, 1, true);
    assert_eq!(a2, 0);
}

#[test]
fn texture_is_opaque_inside_the_disc() {
    let center = Vec2::new(px(50), px(50));
    let radius = px(10);
    for (qx, qy) in [(50, 50), (55, 50), (50, 44), (43, 50)] {
        for gas in [false, true] {
            for idx in 0..5usize {
                let (r, g, b, a) = textura::planet_texture(
                    Vec2::new(px(qx), px(qy)),
                    center,
                    radius,
                    idx,
                    gas,
                );
                assert_eq!(a, S);
                assert!(0 <= r && r <= S);
                assert!(0 <= g && g <= S);
                assert!(0 <= b && b <= S);
            }
        }
    }
}

#[test]
fn texture_clips_exactly_at_the_radius() {
    let center = Vec2::new(px(50), px(50));
    let radius = px(10);
    // Exactly on the rim: still opaque.
    let (_, _, _, on) = textura::planet_texture(Vec2::new(px(60), px(50)), center, radius, 0, false);
    assert_eq!(on, S);
    // One fixed-point unit past the rim: transparent.
    let (_, _, _, past) =
        textura::planet_texture(Vec2::new(px(60) + 1, px(50)), center, radius, 0, false);
    assert_eq!(past, 0);
}

#[test]
fn generate_returns_exactly_n_stars_in_bounds() {
    let stars = solarium::estrellas::generar_estrellas(500, 200, 100);
    assert_eq!(stars.len(), 500);
    for s in &stars {
        assert!(0 <= s.pos.x && s.pos.x < 200 * S);
        assert!(0 <= s.pos.y && s.pos.y < 100 * S);
    }
}

#[test]
fn generate_is_reproducible() {
    let a = solarium::estrellas::generar_estrellas(64, 320, 200);
    let b = solarium::estrellas::generar_estrellas(64, 320, 200);
    for (s, t) in a.iter().zip(b.iter()) {
        assert_eq!(s.pos.x, t.pos.x);
        assert_eq!(s.pos.y, t.pos.y);
        assert_eq!(s.seed, t.seed);
    }
}

#[test]
fn animate_keeps_the_surface_size() {
    let stars = solarium::estrellas::generar_estrellas(50, 100, 100);
    let mut fb = Framebuffer::new(100, 100, 0);
    solarium::estrellas::animar_estrellas(&stars, 12345, &mut fb);
    assert_eq!(fb.as_slice().len(), 10000);
}

#[test]
fn draw_body_fully_replaces_pixels_inside_the_disc() {
    let mut dark = Framebuffer::new(100, 100, fp::rgb_to_u32(0, 0, 0));
    let mut light = Framebuffer::new(100, 100, fp::rgb_to_u32(S, S, S));
    let center = Vec2::new(px(50), px(50));
    dark.draw_body(center, px(10), 0, false, false);
    light.draw_body(center, px(10), 0, false, false);
    for y in 42..58usize {
        for x in 42..58usize {
            let dx = x as i64 - 50;
            let dy = y as i64 - 50;
            if dx * dx + dy * dy <= 81 {
                let i = y * 100 + x;
                assert_eq!(dark.as_slice()[i], light.as_slice()[i]);
            }
        }
    }
}

#[test]
fn draw_body_skips_a_degenerate_radius() {
    let bg = fp::rgb_to_u32(1311, 1311, 3277);
    let mut fb = Framebuffer::new(64, 64, bg);
    fb.draw_body(Vec2::new(px(32), px(32)), 0, 0, false, true);
    fb.draw_body(Vec2::new(px(32), px(32)), -px(5), 1, true, false);
    for &p in fb.as_slice() {
        assert_eq!(p, bg);
    }
}

#[test]
fn draw_star_twice_is_at_least_as_bright_and_stays_packed() {
    let bg = fp::rgb_to_u32(6554, 6554, 13107);
    let mut once = Framebuffer::new(80, 80, bg);
    let mut twice = Framebuffer::new(80, 80, bg);
    let center = Vec2::new(px(40), px(40));
    once.draw_star(center, px(8));
    twice.draw_star(center, px(8));
    twice.draw_star(center, px(8));
    for i in 0..once.as_slice().len() {
        let a = once.as_slice()[i];
        let b = twice.as_slice()[i];
        assert!((b >> 16) & 0xFF >= (a >> 16) & 0xFF);
        assert!((b >> 8) & 0xFF >= (a >> 8) & 0xFF);
        assert!(b & 0xFF >= a & 0xFF);
        assert!(b <= 0x00FF_FFFF);
    }
}

#[test]
fn draw_star_skips_a_degenerate_radius() {
    let bg = fp::rgb_to_u32(3277, 3277, 3277);
    let mut fb = Framebuffer::new(32, 32, bg);
    fb.draw_star(Vec2::new(px(16), px(16)), 0);
    for &p in fb.as_slice() {
        assert_eq!(p, bg);
    }
}

#[test]
fn ring_band_mask_peaks_exactly_twelve_times() {
    // The band mask over one normalized pass of the ring interval: full
    // intensity only at the twelve band centers.
    let mut peaks = 0usize;
    for bp in 0..(12 * S) {
        let m = fp::smoothstep(1311, 0, (bp % S - S / 2).abs());
        assert!(0 <= m && m <= S);
        if m == S {
            peaks += 1;
        }
    }
    assert_eq!(peaks, 12);
}

#[test]
fn ringed_body_lightens_the_band() {
    let bg = fp::rgb_to_u32(0, 0, 0);
    let mut plain = Framebuffer::new(200, 200, bg);
    let mut ringed = Framebuffer::new(200, 200, bg);
    let center = Vec2::new(px(100), px(100));
    plain.draw_body(center, px(20), 0, true, false);
    ringed.draw_body(center, px(20), 0, true, true);
    // On the horizontal midline the band [1.15 r, 2 r] lies outside the
    // disc; the ring pass may only brighten it.
    let mut brightened = 0usize;
    for x in 124..139usize {
        let i = 100 * 200 + x;
        let p = plain.as_slice()[i];
        let r = ringed.as_slice()[i];
        assert!((r >> 16) & 0xFF >= (p >> 16) & 0xFF);
        if r != p {
            brightened += 1;
        }
    }
    assert!(brightened > 0);
}

#[test]
fn end_to_end_single_rocky_body() {
    let bg = fp::rgb_to_u32(1311, 1311, 3277);
    let mut fb = Framebuffer::new(100, 100, bg);
    fb.draw_body(Vec2::new(px(50), px(50)), px(10), 0, false, false);
    let pixels = fb.as_slice();
    assert_eq!(pixels.len(), 10000);
    assert_ne!(pixels[50 * 100 + 50], bg);
    assert_eq!(pixels[99 * 100 + 99], bg);
}

#[test]
fn orbit_trace_is_dotted_and_dim() {
    let bg = fp::rgb_to_u32(0, 0, 0);
    let trace = fp::rgb_to_u32(19661, 19661, 26214);
    let mut fb = Framebuffer::new(100, 100, bg);
    fb.draw_orbit(Vec2::new(px(50), px(50)), px(20));
    let pixels = fb.as_slice();
    let mut painted = 0usize;
    for &p in pixels {
        if p != bg {
            assert_eq!(p, trace);
            painted += 1;
        }
    }
    // 360 dotted samples land on far fewer distinct pixels than a full
    // ellipse outline would need, and at least a ring's worth exist.
    assert!(painted > 30 && painted <= 360);
}

#[test]
fn packing_round_trips_every_byte() {
    for q in 0..=255u32 {
        let c = (q << 16) | (q << 8) | q;
        let r = fp::unpack_r(c);
        let g = fp::unpack_g(c);
        let b = fp::unpack_b(c);
        assert_eq!(fp::rgb_to_u32(r, g, b), c);
    }
}

#[test]
fn scalar_helpers_hit_known_values() {
    assert_eq!(fp::clamp(70000, 0, S), S);
    assert_eq!(fp::clamp(-3, 0, S), 0);
    assert_eq!(fp::mix(0, S, S / 2), S / 2);
    assert_eq!(fp::mix(S, S, 12345), S);
    assert_eq!(fp::smoothstep(0, S, S / 2), S / 2);
    assert_eq!(fp::smoothstep(0, S, S), S);
    assert_eq!(fp::smoothstep(0, S, 0), 0);
    assert_eq!(fp::isqrt(0), 0);
    assert_eq!(fp::isqrt(2), 1);
    assert_eq!(fp::isqrt((S as u64) * (S as u64)), S as u64);
    assert_eq!(Vec2::new(3 * S, 4 * S).len(), 5 * S);
}

#[test]
fn sine_approximation_is_odd_and_bounded() {
    assert_eq!(fp::fp_sin(0), 0);
    let quarter = fp::TAU_FP / 4;
    assert!(fp::fp_sin(quarter) > 65000);
    assert!(fp::fp_sin(-quarter) < -65000);
    for k in -20..20i64 {
        let v = fp::fp_sin(k * 10000);
        assert!(-S <= v && v <= S);
    }
}

#[test]
fn simple_texture_is_reproducible_and_in_range() {
    let a = textura::textura_planeta(px(10), px(12), px(8), px(8), px(6), 777);
    let b = textura::textura_planeta(px(10), px(12), px(8), px(8), px(6), 777);
    assert_eq!(a, b);
    assert!(0 <= a.0 && a.0 <= S);
    assert!(0 <= a.1 && a.1 <= S);
    assert!(0 <= a.2 && a.2 <= S);
}

#[test]
fn mezcla_blends_midway() {
    let c = textura::mezcla((0, 0, 0), (S, S, S), S / 2);
    assert_eq!(c, (S / 2, S / 2, S / 2));
    let d = textura::mezcla((S, 0, S / 2), (S, 0, S / 2), 12345);
    assert_eq!(d, (S, 0, S / 2));
}

#[test]
fn bandas_picks_the_clamped_band() {
    let colores = vec![(10i64, 11i64, 12i64), (20, 21, 22), (30, 31, 32), (40, 41, 42)];
    // Top of the body: first band; bottom: last band; far outside: clamped.
    assert_eq!(
        textura::bandas_planetarias(px(0), px(10), px(10), &colores),
        (10, 11, 12)
    );
    assert_eq!(
        textura::bandas_planetarias(px(19), px(10), px(10), &colores),
        (40, 41, 42)
    );
    assert_eq!(
        textura::bandas_planetarias(px(500), px(10), px(10), &colores),
        (40, 41, 42)
    );
}

#[test]
fn gradiente_radial_matches_the_endpoints() {
    let c0 = textura::gradiente_radial(px(5), px(5), px(5), px(5), px(4), (S, 0, 0), (0, S, 0));
    assert_eq!(c0, (S, 0, 0));
    let c1 = textura::gradiente_radial(px(5) + px(40), px(5), px(5), px(5), px(4), (S, 0, 0), (0, S, 0));
    assert_eq!(c1, (0, S, 0));
}
