use bigsryai::color::hsv_to_rgb;
use bigsryai::effects::{
    CellWaves, ColorfulEffect, DrawContext, Effect, ExtrusionEffect, GlowEffect, RotationEffect,
    SparkleEffect, SurrealEffect, TILT_ONE,
};
use bigsryai::raster::{Raster, Rgba};
use bigsryai::render::{default_effects, draw_cell_with_effects, render_cell};

fn px(r: u8, g: u8, b: u8, a: u8) -> Rgba {
    Rgba { r, g, b, a }
}

fn white() -> Rgba {
    px(255, 255, 255, 255)
}

fn flat_waves(w: u32, h: u32) -> CellWaves {
    CellWaves {
        extrude_dx: vec![0; w as usize],
        extrude_dy: vec![0; h as usize],
        swirl_dx: vec![0; w as usize],
        swirl_dy: vec![0; h as usize],
        tilt_cos: TILT_ONE as i32,
        tilt_sin: 0,
    }
}

fn wavy(i: u32, w: u32, h: u32) -> CellWaves {
    let wave = |k: u32, step: f64, cos: bool| {
        let a = (k as f64 + i as f64) * step;
        (5.0 * if cos { a.cos() } else { a.sin() }).round() as i32
    };
    let angle = 0.3 * (i as f64 * 0.7).sin();
    CellWaves {
        extrude_dx: (0..w).map(|k| wave(k, 0.17, false)).collect(),
        extrude_dy: (0..h).map(|k| wave(k, 0.17, true)).collect(),
        swirl_dx: (0..w).map(|k| wave(k, 0.27, false)).collect(),
        swirl_dy: (0..h).map(|k| wave(k, 0.27, true)).collect(),
        tilt_cos: (angle.cos() * TILT_ONE as f64).round() as i32,
        tilt_sin: (angle.sin() * TILT_ONE as f64).round() as i32,
    }
}

fn patterned(w: u32, h: u32) -> Raster {
    let mut pixels = Vec::new();
    for y in 0..h {
        for x in 0..w {
            pixels.push(px((x * 37 % 256) as u8, (y * 91 % 256) as u8, ((x + y) * 13 % 256) as u8, 255));
        }
    }
    Raster { width: w, height: h, pixels }
}

fn at(r: &Raster, x: u32, y: u32) -> Rgba {
    r.pixels[(y * r.width + x) as usize]
}

#[test]
fn hsv_primary_hues() {
    assert_eq!(hsv_to_rgb(0, 1, 1000, 1000), (255, 0, 0));
    assert_eq!(hsv_to_rgb(1, 3, 1000, 1000), (0, 255, 0));
    assert_eq!(hsv_to_rgb(2, 3, 1000, 1000), (0, 0, 255));
    assert_eq!(hsv_to_rgb(1, 6, 1000, 1000), (255, 255, 0));
}

#[test]
fn hsv_negative_and_whole_turns() {
    // -1/6 of a turn: sector floor(-1) mod 6 = 5, so magenta.
    assert_eq!(hsv_to_rgb(-1, 6, 1000, 1000), (255, 0, 255));
    assert_eq!(hsv_to_rgb(1, 1, 1000, 1000), (255, 0, 0));
    assert_eq!(hsv_to_rgb(-1, 1, 1000, 1000), (255, 0, 0));
    // -1/12 is the same hue as 11/12.
    assert_eq!(hsv_to_rgb(-1, 12, 900, 1000), hsv_to_rgb(11, 12, 900, 1000));
    assert_eq!(hsv_to_rgb(-25, 12, 900, 1000), hsv_to_rgb(11, 12, 900, 1000));
}

#[test]
fn hsv_partial_saturation_rounds() {
    // p = 0.1 * 255 = 25.5, rounded to 26.
    assert_eq!(hsv_to_rgb(0, 1, 900, 1000), (255, 26, 26));
    // hue 1/12: f = 0.5, t = 1 - 0.45 = 0.55, 0.55 * 255 = 140.25.
    assert_eq!(hsv_to_rgb(1, 12, 900, 1000), (255, 140, 26));
    // a whole turn is the same colour as none.
    assert_eq!(hsv_to_rgb(12, 12, 900, 1000), hsv_to_rgb(0, 1, 900, 1000));
    assert_eq!(hsv_to_rgb(5, 10, 0, 500), (128, 128, 128));
}

#[test]
fn glow_default_on_single_black_pixel() {
    let g = GlowEffect::default();
    assert_eq!((g.range, g.intensity), (3, 300));
    let stamp = Raster { width: 1, height: 1, pixels: vec![px(0, 0, 0, 200)] };
    let waves = flat_waves(1, 1);
    let mut ctx = DrawContext {
        canvas: Raster::filled(1, 1, white()),
        base_x: 0,
        base_y: 0,
        stamp: &stamp,
        cell_index: 0,
        waves: &waves,
    };
    g.apply(&mut ctx);
    // Only offset (0, 0) lands on the canvas: weight 0.3, so 0 moves to 76 (of 76.5).
    assert_eq!(ctx.canvas.pixels, vec![px(76, 76, 76, 200)]);
}

#[test]
fn glow_above_full_intensity_washes_to_white() {
    let g = GlowEffect { range: 3, intensity: 2000 };
    let stamp = Raster { width: 1, height: 1, pixels: vec![px(0, 40, 90, 17)] };
    let waves = flat_waves(1, 1);
    let mut ctx = DrawContext {
        canvas: Raster::filled(1, 1, px(0, 0, 0, 0)),
        base_x: 0,
        base_y: 0,
        stamp: &stamp,
        cell_index: 0,
        waves: &waves,
    };
    g.apply(&mut ctx);
    // weight 2.0 at offset (0, 0) is held at 1.0: full white, alpha kept.
    assert_eq!(ctx.canvas.pixels, vec![px(255, 255, 255, 17)]);
}

#[test]
fn glow_weight_falls_off_with_distance() {
    let stamp = Raster { width: 1, height: 1, pixels: vec![px(0, 0, 0, 255)] };
    let waves = flat_waves(1, 1);
    let mut ctx = DrawContext {
        canvas: Raster::filled(7, 7, white()),
        base_x: 3,
        base_y: 3,
        stamp: &stamp,
        cell_index: 0,
        waves: &waves,
    };
    GlowEffect::default().apply(&mut ctx);
    let c = &ctx.canvas;
    assert_eq!(at(c, 3, 3), px(76, 76, 76, 255));
    // distance 1: weight 0.2, so 0 moves to 50 (of 51).
    assert_eq!(at(c, 4, 3), px(50, 50, 50, 255));
    // distance 3 and beyond: weight 0, the source pixel itself.
    assert_eq!(at(c, 6, 3), px(0, 0, 0, 255));
    assert_eq!(at(c, 6, 6), px(0, 0, 0, 255));
}

#[test]
fn extrusion_darkens_each_step() {
    let stamp = Raster { width: 1, height: 1, pixels: vec![px(255, 90, 9, 255)] };
    let waves = flat_waves(1, 1);
    let mut ctx = DrawContext {
        canvas: Raster::filled(40, 20, white()),
        base_x: 0,
        base_y: 0,
        stamp: &stamp,
        cell_index: 0,
        waves: &waves,
    };
    ExtrusionEffect.apply(&mut ctx);
    let c = &ctx.canvas;
    assert_eq!(at(c, 0, 0), px(255, 90, 9, 255));
    assert_eq!(at(c, 5, 2), px(226, 80, 8, 255));
    assert_eq!(at(c, 35, 14), px(56, 20, 2, 255));
    assert_eq!(at(c, 1, 0), white());
}

#[test]
fn extrusion_follows_the_wobble() {
    let stamp = Raster { width: 1, height: 1, pixels: vec![px(10, 10, 10, 255)] };
    let mut waves = flat_waves(1, 1);
    waves.extrude_dx = vec![3];
    waves.extrude_dy = vec![-1];
    let mut ctx = DrawContext {
        canvas: Raster::filled(10, 10, white()),
        base_x: 0,
        base_y: 1,
        stamp: &stamp,
        cell_index: 0,
        waves: &waves,
    };
    ExtrusionEffect.apply(&mut ctx);
    assert_eq!(at(&ctx.canvas, 3, 0), px(10, 10, 10, 255));
    assert_eq!(at(&ctx.canvas, 8, 2), px(8, 8, 8, 255));
}

#[test]
fn rotation_without_tilt_squashes_and_reddens() {
    let stamp = patterned(4, 4);
    let waves = flat_waves(4, 4);
    let mut ctx = DrawContext {
        canvas: Raster::filled(4, 4, white()),
        base_x: 0,
        base_y: 0,
        stamp: &stamp,
        cell_index: 0,
        waves: &waves,
    };
    RotationEffect.apply(&mut ctx);
    // Row 3: 2 + 0.7 * 1 = 2.7, rounded to 3. Rows 0 and 1 (0.6 and 1.3) both land
    // on row 1, and row 1, drawn later, wins.
    let s = at(&stamp, 1, 3);
    assert_eq!(at(&ctx.canvas, 1, 3), px(s.r.saturating_add(30), s.g, s.b, s.a));
    let s = at(&stamp, 2, 1);
    assert_eq!(at(&ctx.canvas, 2, 1), px(s.r.saturating_add(30), s.g, s.b, s.a));
    // Nothing lands on row 0.
    assert_eq!(at(&ctx.canvas, 0, 0), white());
}

#[test]
fn rotation_quarter_turn() {
    let stamp = patterned(3, 3);
    let mut waves = flat_waves(3, 3);
    waves.tilt_cos = 0;
    waves.tilt_sin = TILT_ONE as i32;
    let mut ctx = DrawContext {
        canvas: Raster::filled(3, 3, white()),
        base_x: 0,
        base_y: 0,
        stamp: &stamp,
        cell_index: 0,
        waves: &waves,
    };
    RotationEffect.apply(&mut ctx);
    // (2, 1): offset (0.5, -0.5) from the centre turns to (0.5, 0.5):
    // x = 2.0, y = 1.5 + 0.7 * 0.5 = 1.85, rounded to 2.
    let s = at(&stamp, 2, 1);
    assert_eq!(at(&ctx.canvas, 2, 2), px(s.r.saturating_add(30), s.g, s.b, s.a));
}

#[test]
fn sparkle_whitens_bright_diagonal() {
    let stamp = Raster { width: 2, height: 1, pixels: vec![px(250, 250, 250, 7), px(250, 250, 250, 7)] };
    let waves = flat_waves(2, 1);
    let mut ctx = DrawContext {
        canvas: Raster::filled(2, 1, px(0, 0, 0, 0)),
        base_x: 0,
        base_y: 0,
        stamp: &stamp,
        cell_index: 96,
        waves: &waves,
    };
    SparkleEffect.apply(&mut ctx);
    // Only (1, 0) has (px + py + 96) mod 97 == 0.
    assert_eq!(ctx.canvas.pixels, vec![px(0, 0, 0, 0), px(255, 255, 255, 7)]);
}

fn sparkle_one(p: Rgba) -> Vec<Rgba> {
    let stamp = Raster { width: 1, height: 1, pixels: vec![p] };
    let waves = flat_waves(1, 1);
    let mut ctx = DrawContext {
        canvas: Raster::filled(1, 1, px(0, 0, 0, 255)),
        base_x: 0,
        base_y: 0,
        stamp: &stamp,
        cell_index: 0,
        waves: &waves,
    };
    SparkleEffect.apply(&mut ctx);
    ctx.canvas.pixels
}

#[test]
fn sparkle_skips_pixels_with_mean_200() {
    // 600 / 3 is exactly 200, not above it.
    assert_eq!(sparkle_one(px(200, 200, 200, 9)), vec![px(0, 0, 0, 255)]);
    assert_eq!(sparkle_one(px(255, 255, 90, 9)), vec![px(0, 0, 0, 255)]);
}

#[test]
fn sparkle_takes_mean_just_above_200() {
    // 601 / 3 and 602 / 3 are above 200.
    assert_eq!(sparkle_one(px(200, 200, 201, 9)), vec![px(255, 255, 255, 9)]);
    assert_eq!(sparkle_one(px(200, 200, 202, 9)), vec![px(255, 255, 255, 9)]);
}

#[test]
fn surreal_shifts_and_tints() {
    let stamp = Raster { width: 1, height: 1, pixels: vec![px(5, 100, 250, 77)] };
    let waves = flat_waves(1, 1);
    let mut ctx = DrawContext {
        canvas: Raster::filled(5, 1, white()),
        base_x: 0,
        base_y: 0,
        stamp: &stamp,
        cell_index: 101,
        waves: &waves,
    };
    SurrealEffect.apply(&mut ctx);
    assert_eq!(at(&ctx.canvas, 3, 0), px(0, 90, 255, 77));
    assert_eq!(at(&ctx.canvas, 0, 0), white());
}

#[test]
fn surreal_write_past_the_edge_is_dropped() {
    let stamp = Raster { width: 1, height: 1, pixels: vec![px(5, 100, 250, 77)] };
    let waves = flat_waves(1, 1);
    let mut ctx = DrawContext {
        canvas: Raster::filled(2, 2, white()),
        base_x: 0,
        base_y: 0,
        stamp: &stamp,
        cell_index: 0,
        waves: &waves,
    };
    SurrealEffect.apply(&mut ctx);
    assert_eq!(ctx.canvas.pixels, vec![white(); 4]);
}

#[test]
fn colorful_mixes_with_rainbow() {
    let stamp = Raster { width: 1, height: 1, pixels: vec![px(1, 101, 201, 50)] };
    let waves = flat_waves(1, 1);
    let mut ctx = DrawContext {
        canvas: Raster::filled(1, 1, white()),
        base_x: 0,
        base_y: 0,
        stamp: &stamp,
        cell_index: 0,
        waves: &waves,
    };
    ColorfulEffect.apply(&mut ctx);
    // hue 0: HSV(0, 0.9, 1) = (255, 26, 26).
    assert_eq!(ctx.canvas.pixels, vec![px(128, 63, 113, 50)]);
}

#[test]
fn colorful_hue_moves_with_index() {
    let stamp = Raster { width: 1, height: 1, pixels: vec![px(0, 0, 0, 255)] };
    let mut waves = flat_waves(1, 1);
    waves.swirl_dx = vec![1];
    let mut ctx = DrawContext {
        canvas: Raster::filled(2, 1, white()),
        base_x: 0,
        base_y: 0,
        stamp: &stamp,
        cell_index: 7,
        waves: &waves,
    };
    ColorfulEffect.apply(&mut ctx);
    // hue 0.35: sector 2, f = 0.1; (p, v, t) = (26, 255, 48), halved.
    let (r, g, b) = hsv_to_rgb(7, 20, 900, 1000);
    assert_eq!((r, g, b), (26, 255, 48));
    assert_eq!(ctx.canvas.pixels, vec![white(), px(13, 127, 24, 255)]);
}

#[test]
fn pipeline_runs_in_fixed_order() {
    let effects = default_effects();
    assert_eq!(effects.len(), 6);
    let stamp = patterned(5, 4);
    let waves = wavy(3, 5, 4);
    let mut ctx = DrawContext {
        canvas: Raster::filled(5, 4, white()),
        base_x: 0,
        base_y: 0,
        stamp: &stamp,
        cell_index: 3,
        waves: &waves,
    };
    draw_cell_with_effects(&mut ctx, &effects);
    let mut step = DrawContext {
        canvas: Raster::filled(5, 4, white()),
        base_x: 0,
        base_y: 0,
        stamp: &stamp,
        cell_index: 3,
        waves: &waves,
    };
    for e in effects.iter() {
        e.apply(&mut step);
    }
    assert_eq!(ctx.canvas.pixels, step.canvas.pixels);
    assert_eq!(render_cell(3, &stamp, &waves, &effects).pixels, ctx.canvas.pixels);
}

#[test]
fn render_cell_is_deterministic() {
    let effects = default_effects();
    let stamp = patterned(11, 7);
    for i in [0u32, 1, 96, 1000] {
        let waves = wavy(i, 11, 7);
        let a = render_cell(i, &stamp, &waves, &effects);
        let b = render_cell(i, &stamp, &waves, &effects);
        assert_eq!(a.pixels, b.pixels);
        assert_eq!((a.width, a.height), (11, 7));
    }
}

#[test]
fn effects_stay_inside_small_and_prime_canvases() {
    let effects = default_effects();
    for (w, h) in [(1u32, 1u32), (2, 3), (7, 13), (13, 7), (31, 1)] {
        let stamp = patterned(w, h);
        for i in [0u32, 1, 6, 96, 100, 4242, u32::MAX] {
            let waves = wavy(i % 10_000, w, h);
            let cell = render_cell(i, &stamp, &waves, &effects);
            assert_eq!((cell.width, cell.height), (w, h));
            assert_eq!(cell.pixels.len(), (w * h) as usize);
        }
    }
}

#[test]
fn empty_stamp_gives_empty_cell() {
    let effects = default_effects();
    let stamp = Raster { width: 0, height: 5, pixels: vec![] };
    let cell = render_cell(0, &stamp, &flat_waves(0, 5), &effects);
    assert_eq!((cell.width, cell.height, cell.pixels.len()), (0, 5, 0));
}
