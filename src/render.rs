use vstd::prelude::*;

use vstd::arithmetic::div_mod::lemma_fundamental_div_mod_converse;

use crate::effects::colorful::colorful_dab;
use crate::effects::extrusion::{extrude_dab, EXTRUDE_STEPS};
use crate::effects::glow::glow_dab;
use crate::effects::rotation::rotation_dab;
use crate::effects::sparkle::sparkle_dab;
use crate::effects::surreal::surreal_dab;
use crate::effects::{
    CellWaves, ColorfulEffect, DrawContext, Effect, ExtrusionEffect, Frame, GlowEffect,
    RotationEffect, SparkleEffect, SurrealEffect,
};
use crate::raster::{
    lemma_offset_in_bounds, lemma_paint_keeps_size, lemma_paint_layers_keeps_size, lemma_split_index, offset,
    white, white_spec, Raster, Rgba,
};

verus! {

/// One step of an effect pipeline: one of the six effects.
pub enum Stage {
    Glow(GlowEffect),
    Extrusion(ExtrusionEffect),
    Rotation(RotationEffect),
    Sparkle(SparkleEffect),
    Surreal(SurrealEffect),
    Colorful(ColorfulEffect),
}

impl Effect for Stage {
    open spec fn valid(&self) -> bool {
        match self {
            Stage::Glow(e) => e.valid(),
            Stage::Extrusion(e) => e.valid(),
            Stage::Rotation(e) => e.valid(),
            Stage::Sparkle(e) => e.valid(),
            Stage::Surreal(e) => e.valid(),
            Stage::Colorful(e) => e.valid(),
        }
    }

    open spec fn painted(&self, f: Frame, c: Seq<Rgba>) -> Seq<Rgba> {
        match self {
            Stage::Glow(e) => e.painted(f, c),
            Stage::Extrusion(e) => e.painted(f, c),
            Stage::Rotation(e) => e.painted(f, c),
            Stage::Sparkle(e) => e.painted(f, c),
            Stage::Surreal(e) => e.painted(f, c),
            Stage::Colorful(e) => e.painted(f, c),
        }
    }

    fn apply(&self, ctx: &mut DrawContext) {
        match self {
            Stage::Glow(e) => e.apply(ctx),
            Stage::Extrusion(e) => e.apply(ctx),
            Stage::Rotation(e) => e.apply(ctx),
            Stage::Sparkle(e) => e.apply(ctx),
            Stage::Surreal(e) => e.apply(ctx),
            Stage::Colorful(e) => e.apply(ctx),
        }
    }
}

/// A canvas holding `c` after the first `n` stages have drawn on it, in order, within `f`.
pub open spec fn run_stages(stages: Seq<Stage>, f: Frame, c: Seq<Rgba>, n: int) -> Seq<Rgba>
    decreases n,
{
    if n <= 0 {
        c
    } else {
        stages[n - 1].painted(f, run_stages(stages, f, c, n - 1))
    }
}

/// Every stage has usable parameters.
pub open spec fn all_valid(stages: Seq<Stage>) -> bool {
    forall|i: int| 0 <= i < stages.len() ==> #[trigger] stages[i].valid()
}

/// The pipeline of the benchmark: glow (radius 3, intensity 0.3), extrusion, rotation,
/// sparkle, surreal, colorful.
pub open spec fn default_stages() -> Seq<Stage> {
    seq![
        Stage::Glow(GlowEffect { range: 3, intensity: 300 }),
        Stage::Extrusion(ExtrusionEffect),
        Stage::Rotation(RotationEffect),
        Stage::Sparkle(SparkleEffect),
        Stage::Surreal(SurrealEffect),
        Stage::Colorful(ColorfulEffect),
    ]
}

/// The benchmark's six effects, in their fixed order.
pub fn default_effects() -> (r: Vec<Stage>)
    ensures
        r@ == default_stages(),
        all_valid(r@),
{
    let r = vec![
        Stage::Glow(GlowEffect::default()),
        Stage::Extrusion(ExtrusionEffect),
        Stage::Rotation(RotationEffect),
        Stage::Sparkle(SparkleEffect),
        Stage::Surreal(SurrealEffect),
        Stage::Colorful(ColorfulEffect),
    ];
    assert(r@ =~= default_stages());
    r
}

/// Runs every effect of `effects` on `ctx`, in order.
pub fn draw_cell_with_effects(ctx: &mut DrawContext, effects: &[Stage])
    requires
        old(ctx).wf(),
        all_valid(effects@),
    ensures
        final(ctx).wf(),
        final(ctx).frame() == old(ctx).frame(),
        final(ctx).canvas.pixels@ == run_stages(
            effects@,
            old(ctx).frame(),
            old(ctx).canvas.pixels@,
            effects@.len() as int,
        ),
{
    let ghost f = ctx.frame();
    let ghost c0 = ctx.canvas.pixels@;
    let mut i: usize = 0;
    while i < effects.len()
        invariant
            f == old(ctx).frame(),
            c0 == old(ctx).canvas.pixels@,
            all_valid(effects@),
            ctx.wf(),
            ctx.frame() == f,
            i <= effects@.len(),
            ctx.canvas.pixels@ == run_stages(effects@, f, c0, i as int),
        decreases effects@.len() - i,
    {
        assert(effects@[i as int].valid());
        effects[i].apply(ctx);
        i += 1;
    }
}

/// The frame in which cell `i` is drawn: a canvas of the stamp's size, origin (0, 0).
pub open spec fn cell_frame(i: u32, stamp: Raster, waves: CellWaves) -> Frame {
    Frame {
        canvas_w: stamp.width,
        canvas_h: stamp.height,
        base_x: 0,
        base_y: 0,
        stamp,
        cell_index: i,
        waves,
    }
}

/// A white canvas of `n` pixels.
pub open spec fn blank(n: int) -> Seq<Rgba> {
    Seq::new(n as nat, |j: int| white_spec())
}

/// The pixels of cell `i`: the stages run, in order, on a white canvas of the stamp's size.
pub open spec fn cell_pixels(i: u32, stamp: Raster, waves: CellWaves, stages: Seq<Stage>) -> Seq<Rgba> {
    run_stages(stages, cell_frame(i, stamp, waves), blank(stamp.width * stamp.height), stages.len() as int)
}

/// Draws cell `cell_index`: a fresh white canvas the size of the stamp, with every effect
/// applied to it in order.
pub fn render_cell(cell_index: u32, text_stamp: &Raster, waves: &CellWaves, effects: &[Stage]) -> (r: Raster)
    requires
        text_stamp.wf(),
        waves.fits(text_stamp.width as int, text_stamp.height as int),
        all_valid(effects@),
    ensures
        r.wf(),
        r.width == text_stamp.width,
        r.height == text_stamp.height,
        r.pixels@ == cell_pixels(cell_index, *text_stamp, *waves, effects@),
{
    let canvas = Raster::filled(text_stamp.width, text_stamp.height, white());
    let mut ctx = DrawContext { canvas, base_x: 0, base_y: 0, stamp: text_stamp, cell_index, waves };
    draw_cell_with_effects(&mut ctx, effects);
    ctx.canvas
}

/// Pixel (x, y) of a strip of cells `w` wide: pixel (x mod w, y) of cell `x / w`.
pub open spec fn strip_at(cells: Seq<Raster>, w: int, x: int, y: int) -> Rgba {
    cells[x / w].at(x % w, y)
}

/// Places `cells`, all `stamp_w` x `stamp_h`, side by side: cell `i` at column `i * stamp_w`.
pub fn compose_strip(cells: &Vec<Raster>, stamp_w: u32, stamp_h: u32) -> (r: Raster)
    requires
        forall|i: int|
            0 <= i < cells@.len() ==> (#[trigger] cells@[i]).wf() && cells@[i].width == stamp_w
                && cells@[i].height == stamp_h,
        cells@.len() * stamp_w <= u32::MAX,
        cells@.len() * stamp_w * stamp_h <= usize::MAX,
    ensures
        r.wf(),
        r.width == cells@.len() * stamp_w,
        r.height == stamp_h,
        forall|x: int, y: int|
            0 <= x < r.width && 0 <= y < r.height ==> #[trigger] r.at(x, y) == strip_at(
                cells@,
                stamp_w as int,
                x,
                y,
            ),
{
    let n: usize = cells.len();
    let w: usize = stamp_w as usize;
    let h: usize = stamp_h as usize;
    let nw: usize = n * w;
    let total: usize = nw * h;
    let mut pixels: Vec<Rgba> = Vec::with_capacity(total);
    let mut j: usize = 0;
    while j < total
        invariant
            n == cells@.len(),
            w == stamp_w,
            h == stamp_h,
            nw == n * w,
            total == nw * h,
            forall|i: int|
                0 <= i < cells@.len() ==> (#[trigger] cells@[i]).wf() && cells@[i].width == stamp_w
                    && cells@[i].height == stamp_h,
            j <= total,
            pixels@.len() == j,
            forall|t: int|
                0 <= t < j ==> #[trigger] pixels@[t] == strip_at(
                    cells@,
                    w as int,
                    t % (nw as int),
                    t / (nw as int),
                ),
        decreases total - j,
    {
        proof {
            lemma_split_index(j as int, nw as int, h as int);
        }
        let sx: usize = j % nw;
        let sy: usize = j / nw;
        proof {
            assert(w > 0) by (nonlinear_arith)
                requires
                    nw == n * w,
                    nw > 0,
            ;
            lemma_split_index(sx as int, w as int, n as int);
            lemma_offset_in_bounds(w as int, h as int, (sx % w) as int, sy as int);
        }
        let cell: &Raster = &cells[sx / w];
        assert(cells@[(sx / w) as int].wf());
        let p: Rgba = cell.pixels[sy * w + sx % w];
        pixels.push(p);
        j += 1;
    }
    let r = Raster { width: (n * w) as u32, height: stamp_h, pixels };
    assert forall|x: int, y: int| 0 <= x < r.width && 0 <= y < r.height implies #[trigger] r.at(x, y)
        == strip_at(cells@, stamp_w as int, x, y) by {
        lemma_offset_in_bounds(nw as int, h as int, x, y);
        lemma_fundamental_div_mod_converse(offset(nw as int, x, y), nw as int, y, x);
    }
    r
}

} // verus!

verus! {

/// No effect changes the size of the canvas it draws on: what would fall outside is dropped.
pub proof fn lemma_stage_keeps_size(s: Stage, f: Frame, c: Seq<Rgba>)
    requires
        c.len() == f.canvas_w * f.canvas_h,
    ensures
        s.painted(f, c).len() == c.len(),
{
    let (w, h) = (f.canvas_w as int, f.canvas_h as int);
    match s {
        Stage::Glow(g) => {
            lemma_paint_layers_keeps_size(c, w, h, |o: int, k: int| glow_dab(g, f, o, k), g.layers(), f.area());
        },
        Stage::Extrusion(_) => {
            lemma_paint_layers_keeps_size(c, w, h, |e: int, k: int| extrude_dab(f, e, k), EXTRUDE_STEPS as int, f.area());
        },
        Stage::Rotation(_) => lemma_paint_keeps_size(c, w, h, |k: int| rotation_dab(f, k), f.area()),
        Stage::Sparkle(_) => lemma_paint_keeps_size(c, w, h, |k: int| sparkle_dab(f, k), f.area()),
        Stage::Surreal(_) => lemma_paint_keeps_size(c, w, h, |k: int| surreal_dab(f, k), f.area()),
        Stage::Colorful(_) => lemma_paint_keeps_size(c, w, h, |k: int| colorful_dab(f, k), f.area()),
    }
}

/// The whole pipeline keeps the canvas's size.
pub proof fn lemma_pipeline_keeps_size(stages: Seq<Stage>, f: Frame, c: Seq<Rgba>, n: int)
    requires
        c.len() == f.canvas_w * f.canvas_h,
        n <= stages.len(),
    ensures
        run_stages(stages, f, c, n).len() == c.len(),
    decreases n,
{
    if n > 0 {
        lemma_pipeline_keeps_size(stages, f, c, n - 1);
        lemma_stage_keeps_size(stages[n - 1], f, run_stages(stages, f, c, n - 1));
    }
}

/// Drawing is deterministic: the pipeline, run within one frame on two independently
/// made blank canvases, leaves them pixel-identical.
pub proof fn lemma_pipeline_deterministic(stages: Seq<Stage>, f: Frame, c1: Seq<Rgba>, c2: Seq<Rgba>)
    requires
        c1 =~= blank(f.canvas_w * f.canvas_h),
        c2 =~= blank(f.canvas_w * f.canvas_h),
    ensures
        run_stages(stages, f, c1, stages.len() as int) == run_stages(stages, f, c2, stages.len() as int),
{
    assert(c1 == c2);
}

} // verus!

verus! {

/// `s`'s pixels on a canvas `w` wide and as high as `s`: columns past `s`'s width are white.
pub open spec fn padded(s: Raster, w: int) -> Seq<Rgba> {
    Seq::new((w * s.height) as nat, |t: int| if t % w < s.width { s.at(t % w, t / w) } else { white_spec() })
}

/// The widest of the first `k` strips, 0 for none.
pub open spec fn max_width(strips: Seq<Raster>, k: int) -> int
    decreases k,
{
    if k <= 0 {
        0
    } else {
        let m = max_width(strips, k - 1);
        if strips[k - 1].width > m {
            strips[k - 1].width as int
        } else {
            m
        }
    }
}

/// The heights of the first `k` strips, added up.
pub open spec fn total_height(strips: Seq<Raster>, k: int) -> int
    decreases k,
{
    if k <= 0 {
        0
    } else {
        total_height(strips, k - 1) + strips[k - 1].height
    }
}

/// The first `k` strips one below the other on a canvas `w` wide, row by row.
pub open spec fn stacked(strips: Seq<Raster>, w: int, k: int) -> Seq<Rgba>
    decreases k,
{
    if k <= 0 {
        Seq::empty()
    } else {
        stacked(strips, w, k - 1) + padded(strips[k - 1], w)
    }
}

proof fn lemma_stacked_len(strips: Seq<Raster>, w: int, k: int)
    requires
        0 <= w,
        0 <= k <= strips.len(),
    ensures
        stacked(strips, w, k).len() == w * total_height(strips, k),
        total_height(strips, k) >= 0,
    decreases k,
{
    if k > 0 {
        lemma_stacked_len(strips, w, k - 1);
        assert(w * total_height(strips, k - 1) + w * strips[k - 1].height == w * total_height(strips, k))
            by (nonlinear_arith)
            requires
                total_height(strips, k) == total_height(strips, k - 1) + strips[k - 1].height,
        ;
    }
}

proof fn lemma_height_grows(strips: Seq<Raster>, j: int, k: int)
    requires
        0 <= j <= k <= strips.len(),
    ensures
        0 <= total_height(strips, j) <= total_height(strips, k),
    decreases k,
{
    if j < k {
        lemma_height_grows(strips, j, k - 1);
    } else if k > 0 {
        lemma_height_grows(strips, k - 1, k - 1);
    }
}

/// Puts `strips` one below the other, left-aligned, on a white canvas as wide as the
/// widest of them.
pub fn stack_strips(strips: &Vec<Raster>) -> (r: Raster)
    requires
        forall|i: int| 0 <= i < strips@.len() ==> (#[trigger] strips@[i]).wf(),
        total_height(strips@, strips@.len() as int) <= u32::MAX,
        max_width(strips@, strips@.len() as int) * total_height(strips@, strips@.len() as int) <= usize::MAX,
    ensures
        r.wf(),
        r.width == max_width(strips@, strips@.len() as int),
        r.height == total_height(strips@, strips@.len() as int),
        r.pixels@ == stacked(strips@, r.width as int, strips@.len() as int),
{
    let count: usize = strips.len();
    let mut w: u32 = 0;
    let mut h: u32 = 0;
    let mut k: usize = 0;
    while k < count
        invariant
            count == strips@.len(),
            k <= count,
            w == max_width(strips@, k as int),
            h == total_height(strips@, k as int),
            total_height(strips@, count as int) <= u32::MAX,
        decreases count - k,
    {
        proof {
            lemma_height_grows(strips@, k as int + 1, count as int);
        }
        if strips[k].width > w {
            w = strips[k].width;
        }
        h = h + strips[k].height;
        k += 1;
    }
    let mut pixels: Vec<Rgba> = Vec::new();
    let mut k: usize = 0;
    while k < count
        invariant
            count == strips@.len(),
            forall|i: int| 0 <= i < strips@.len() ==> (#[trigger] strips@[i]).wf(),
            k <= count,
            w == max_width(strips@, count as int),
            h == total_height(strips@, count as int),
            w * h <= usize::MAX,
            pixels@ == stacked(strips@, w as int, k as int),
        decreases count - k,
    {
        let s: &Raster = &strips[k];
        assert(strips@[k as int].wf());
        proof {
            lemma_stacked_len(strips@, w as int, k as int);
            lemma_height_grows(strips@, k as int + 1, count as int);
            assert(w * s.height <= w * h) by (nonlinear_arith)
                requires
                    s.height <= h,
                    w >= 0,
            ;
        }
        let n: usize = (w as usize) * (s.height as usize);
        let ghost start = pixels@;
        let mut t: usize = 0;
        while t < n
            invariant
                s.wf(),
                n == w * s.height,
                t <= n,
                pixels@ == start + padded(*s, w as int).subrange(0, t as int),
            decreases n - t,
        {
            proof {
                lemma_split_index(t as int, w as int, s.height as int);
            }
            let x: usize = t % (w as usize);
            let y: usize = t / (w as usize);
            if x < s.width as usize {
                proof {
                    lemma_offset_in_bounds(s.width as int, s.height as int, x as int, y as int);
                }
                pixels.push(s.pixels[y * (s.width as usize) + x]);
            } else {
                pixels.push(white());
            }
            assert(pixels@ =~= start + padded(*s, w as int).subrange(0, t as int + 1));
            t += 1;
        }
        assert(padded(*s, w as int).subrange(0, n as int) =~= padded(*s, w as int));
        k += 1;
    }
    proof {
        lemma_stacked_len(strips@, w as int, count as int);
    }
    Raster { width: w, height: h, pixels }
}

} // verus!
