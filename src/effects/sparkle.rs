use vstd::prelude::*;

use crate::effects::{DrawContext, Effect, Frame};
use crate::raster::{Dab, Rgba};

verus! {

/// Turns bright stamp pixels white, one diagonal in every 97.
pub struct SparkleEffect;

/// The write for stamp pixel `k`: a pixel whose mean channel exceeds 200 (its channels
/// add up to more than 600) and whose
/// `(px + py + i) mod 97` is 0 becomes white, keeping its alpha, at its own place.
pub open spec fn sparkle_dab(f: Frame, k: int) -> Option<Dab> {
    let (px, py) = (f.src_x(k), f.src_y(k));
    let p = f.stamp.pixels@[k];
    if p.r + p.g + p.b > 600 && (px + py + f.cell_index) % 97 == 0 {
        Some((f.base_x + px, f.base_y + py, Rgba { r: 255, g: 255, b: 255, a: p.a }))
    } else {
        None
    }
}

impl Effect for SparkleEffect {
    open spec fn valid(&self) -> bool {
        true
    }

    open spec fn painted(&self, f: Frame, c: Seq<Rgba>) -> Seq<Rgba> {
        f.painted_with(c, |k: int| sparkle_dab(f, k))
    }

    fn apply(&self, ctx: &mut DrawContext) {
        let n: usize = ctx.stamp.pixels.len();
        let ghost f = ctx.frame();
        let ghost c0 = ctx.canvas.pixels@;
        let mut k: usize = 0;
        while k < n
            invariant
                f == old(ctx).frame(),
                c0 == old(ctx).canvas.pixels@,
                ctx.wf(),
                ctx.frame() == f,
                n == f.area(),
                k <= n,
                ctx.canvas.pixels@ == crate::raster::paint(c0, f.canvas_w as int, f.canvas_h as int, |j: int| sparkle_dab(f, j), k as int),
            decreases n - k,
        {
            let (px, py, p) = ctx.source(k);
            let sum: u32 = p.r as u32 + p.g as u32 + p.b as u32;
            let phase: u64 = (px as u64 + py as u64 + ctx.cell_index as u64) % 97;
            if sum > 600 && phase == 0 {
                let x: i64 = ctx.base_x as i64 + px as i64;
                let y: i64 = ctx.base_y as i64 + py as i64;
                ctx.canvas.put(x, y, Rgba { r: 255, g: 255, b: 255, a: p.a });
            }
            k += 1;
        }
    }
}

} // verus!
