use vstd::prelude::*;

use crate::effects::{DrawContext, Effect, Frame};
use crate::raster::{Dab, Rgba};

verus! {

/// Shifts one diagonal in every 101 three pixels right and tints it blue.
pub struct SurrealEffect;

/// `c - 10`, floored at 0.
pub open spec fn dim10(c: u8) -> u8 {
    if c >= 10 {
        (c - 10) as u8
    } else {
        0
    }
}

/// `c + 10`, capped at 255.
pub open spec fn tint10(c: u8) -> u8 {
    if c <= 245 {
        (c + 10) as u8
    } else {
        255
    }
}

/// The write for stamp pixel `k`: where `(px + py + i) mod 101` is 0, the pixel goes
/// three columns right with red and green lowered by 10 and blue raised by 10.
pub open spec fn surreal_dab(f: Frame, k: int) -> Option<Dab> {
    let (px, py) = (f.src_x(k), f.src_y(k));
    let p = f.stamp.pixels@[k];
    if (px + py + f.cell_index) % 101 == 0 {
        Some(
            (
                f.base_x + px + 3,
                f.base_y + py,
                Rgba { r: dim10(p.r), g: dim10(p.g), b: tint10(p.b), a: p.a },
            ),
        )
    } else {
        None
    }
}

impl Effect for SurrealEffect {
    open spec fn valid(&self) -> bool {
        true
    }

    open spec fn painted(&self, f: Frame, c: Seq<Rgba>) -> Seq<Rgba> {
        f.painted_with(c, |k: int| surreal_dab(f, k))
    }

    fn apply(&self, ctx: &mut DrawContext) {
        let n: usize = ctx.stamp.pixels.len();
        let ghost f = ctx.frame();
        let ghost c0 = ctx.canvas.pixels@;
        let mut k: usize = 0;
        while k < n
            invariant
                f == old(ctx).frame(),
                c0 == old(ctx).canvas.pixels@,
                ctx.wf(),
                ctx.frame() == f,
                n == f.area(),
                k <= n,
                ctx.canvas.pixels@ == crate::raster::paint(c0, f.canvas_w as int, f.canvas_h as int, |j: int| surreal_dab(f, j), k as int),
            decreases n - k,
        {
            let (px, py, p) = ctx.source(k);
            let phase: u64 = (px as u64 + py as u64 + ctx.cell_index as u64) % 101;
            if phase == 0 {
                let r: u8 = if p.r >= 10 { p.r - 10 } else { 0 };
                let g: u8 = if p.g >= 10 { p.g - 10 } else { 0 };
                let b: u8 = if p.b <= 245 { p.b + 10 } else { 255 };
                let x: i64 = ctx.base_x as i64 + px as i64 + 3;
                let y: i64 = ctx.base_y as i64 + py as i64;
                ctx.canvas.put(x, y, Rgba { r, g, b, a: p.a });
            }
            k += 1;
        }
    }
}

} // verus!
