use vstd::prelude::*;

use crate::color::{hsv_rgb, hsv_to_rgb};
use crate::effects::{DrawContext, Effect, Frame};
use crate::raster::{Dab, Rgba};

verus! {

/// Moves one diagonal in every seven along the cell's swirl and mixes it with a rainbow.
pub struct ColorfulEffect;

/// Numerator of the hue of stamp pixel (px, py) of cell `i`, over `colorful_hue_den(w, h)`:
/// the fractional part of `i * 0.05 + px / w + py / h`.
pub open spec fn colorful_hue_num(w: int, h: int, i: int, px: int, py: int) -> int {
    (i * w * h + 20 * px * h + 20 * py * w) % (20 * w * h)
}

pub open spec fn colorful_hue_den(w: int, h: int) -> int {
    20 * w * h
}

/// The average of two channels, rounded down.
pub open spec fn mix(a: u8, b: int) -> u8 {
    ((a + b) / 2) as u8
}

/// The write for stamp pixel `k`: where `(px + py + i) mod 7` is 0, the pixel moves by
/// the swirl offsets of its column and row, and each colour channel becomes the mean of
/// its own and that of HSV(hue, 0.9, 1.0).
pub open spec fn colorful_dab(f: Frame, k: int) -> Option<Dab> {
    let (px, py) = (f.src_x(k), f.src_y(k));
    let (w, h) = (f.stamp.width as int, f.stamp.height as int);
    let p = f.stamp.pixels@[k];
    let (r2, g2, b2) = hsv_rgb(
        colorful_hue_num(w, h, f.cell_index as int, px, py),
        colorful_hue_den(w, h),
        900,
        1000,
    );
    if (px + py + f.cell_index) % 7 == 0 {
        Some(
            (
                f.base_x + px + f.waves.swirl_dx@[px],
                f.base_y + py + f.waves.swirl_dy@[py],
                Rgba { r: mix(p.r, r2), g: mix(p.g, g2), b: mix(p.b, b2), a: p.a },
            ),
        )
    } else {
        None
    }
}

impl Effect for ColorfulEffect {
    open spec fn valid(&self) -> bool {
        true
    }

    open spec fn painted(&self, f: Frame, c: Seq<Rgba>) -> Seq<Rgba> {
        f.painted_with(c, |k: int| colorful_dab(f, k))
    }

    fn apply(&self, ctx: &mut DrawContext) {
        let n: usize = ctx.stamp.pixels.len();
        let ghost f = ctx.frame();
        let ghost c0 = ctx.canvas.pixels@;
        let w: u64 = ctx.stamp.width as u64;
        let h: u64 = ctx.stamp.height as u64;
        let mut k: usize = 0;
        while k < n
            invariant
                f == old(ctx).frame(),
                c0 == old(ctx).canvas.pixels@,
                ctx.wf(),
                ctx.frame() == f,
                n == f.area(),
                k <= n,
                w == f.stamp.width,
                h == f.stamp.height,
                ctx.canvas.pixels@ == crate::raster::paint(c0, f.canvas_w as int, f.canvas_h as int, |j: int| colorful_dab(f, j), k as int),
            decreases n - k,
        {
            let (px, py, p) = ctx.source(k);
            let phase: u64 = (px as u64 + py as u64 + ctx.cell_index as u64) % 7;
            if phase == 0 {
                let i: u64 = ctx.cell_index as u64;
                let area: u64 = n as u64;
                proof {
                    assert(w * h == area);
                    assert(20 * px * h < 20 * area) by (nonlinear_arith)
                        requires
                            px < w,
                            py < h,
                            w * h == area,
                    ;
                    assert(20 * py * w < 20 * area) by (nonlinear_arith)
                        requires
                            px < w,
                            py < h,
                            w * h == area,
                    ;
                    assert(i * area <= 0xffff_ffff * 0xffff_ffff_ffff_ffff) by (nonlinear_arith)
                        requires
                            i <= 0xffff_ffff,
                            area <= 0xffff_ffff_ffff_ffff,
                    ;
                }
                let den: u128 = 20 * (area as u128);
                let num: u128 = ((i as u128) * (area as u128) + 20 * (px as u128) * (h as u128)
                    + 20 * (py as u128) * (w as u128)) % den;
                proof {
                    assert(num < den);
                    assert(i * w * h == i * area) by (nonlinear_arith)
                        requires
                            w * h == area,
                    ;
                }
                let (r2, g2, b2) = hsv_to_rgb(num as i128, den, 900, 1000);
                proof {
                    let (wi, hi) = (w as int, h as int);
                    assert(den == colorful_hue_den(wi, hi)) by (nonlinear_arith)
                        requires
                            den == 20 * area,
                            wi * hi == area,
                    ;
                    assert(num == colorful_hue_num(wi, hi, i as int, px as int, py as int));
                    assert((r2 as int, g2 as int, b2 as int) == hsv_rgb(
                        colorful_hue_num(wi, hi, i as int, px as int, py as int),
                        colorful_hue_den(wi, hi),
                        900,
                        1000,
                    ));
                }
                let r: u8 = ((p.r as u16 + r2 as u16) / 2) as u8;
                let g: u8 = ((p.g as u16 + g2 as u16) / 2) as u8;
                let b: u8 = ((p.b as u16 + b2 as u16) / 2) as u8;
                let x: i64 = ctx.base_x as i64 + px as i64 + ctx.waves.swirl_dx[px as usize] as i64;
                let y: i64 = ctx.base_y as i64 + py as i64 + ctx.waves.swirl_dy[py as usize] as i64;
                ctx.canvas.put(x, y, Rgba { r, g, b, a: p.a });
            }
            k += 1;
        }
    }
}

} // verus!
