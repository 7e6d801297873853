use vstd::prelude::*;

use crate::effects::{DrawContext, Effect, Frame, TILT_ONE};
use crate::raster::{Dab, Rgba};

verus! {

/// Redraws the stamp tilted about its centre, squashed vertically, with more red.
pub struct RotationEffect;

/// `n / d` rounded to the nearest integer, halves away from zero.
pub open spec fn round_div(n: int, d: int) -> int {
    if n >= 0 {
        (2 * n + d) / (2 * d)
    } else {
        -((d - 2 * n) / (2 * d))
    }
}

pub fn round_div_exec(n: i64, d: i64) -> (r: i64)
    requires
        0 < d < 0x1000_0000_0000_0000,
        -0x1000_0000_0000_0000 < n < 0x1000_0000_0000_0000,
    ensures
        r == round_div(n as int, d as int),
{
    if n >= 0 {
        (2 * n + d) / (2 * d)
    } else {
        -((d - 2 * n) / (2 * d))
    }
}

/// `c + 30`, capped at 255.
pub open spec fn redden(c: u8) -> u8 {
    if c <= 225 {
        (c + 30) as u8
    } else {
        255
    }
}

/// Destination column of stamp pixel (px, py): with the centre at (w / 2, h / 2), the
/// offset from it rotated by the cell's tilt, rounded.
pub open spec fn tilt_x(w: int, h: int, c: int, s: int, px: int, py: int) -> int {
    let (dx2, dy2) = (2 * px - w, 2 * py - h);
    round_div(w * TILT_ONE + dx2 * c - dy2 * s, 2 * TILT_ONE)
}

/// Destination row of stamp pixel (px, py): the rotated vertical offset, times 0.7, rounded.
pub open spec fn tilt_y(w: int, h: int, c: int, s: int, px: int, py: int) -> int {
    let (dx2, dy2) = (2 * px - w, 2 * py - h);
    round_div(10 * h * TILT_ONE + 7 * (dx2 * s + dy2 * c), 20 * TILT_ONE)
}

/// The write for stamp pixel `k`: every pixel moves to its tilted place, red raised by 30.
pub open spec fn rotation_dab(f: Frame, k: int) -> Option<Dab> {
    let (px, py) = (f.src_x(k), f.src_y(k));
    let (w, h) = (f.stamp.width as int, f.stamp.height as int);
    let (c, s) = (f.waves.tilt_cos as int, f.waves.tilt_sin as int);
    let p = f.stamp.pixels@[k];
    Some(
        (
            f.base_x + tilt_x(w, h, c, s, px, py),
            f.base_y + tilt_y(w, h, c, s, px, py),
            Rgba { r: redden(p.r), g: p.g, b: p.b, a: p.a },
        ),
    )
}

impl Effect for RotationEffect {
    open spec fn valid(&self) -> bool {
        true
    }

    open spec fn painted(&self, f: Frame, c: Seq<Rgba>) -> Seq<Rgba> {
        f.painted_with(c, |k: int| rotation_dab(f, k))
    }

    fn apply(&self, ctx: &mut DrawContext) {
        let n: usize = ctx.stamp.pixels.len();
        let ghost f = ctx.frame();
        let ghost c0 = ctx.canvas.pixels@;
        let w: i64 = ctx.stamp.width as i64;
        let h: i64 = ctx.stamp.height as i64;
        let c: i64 = ctx.waves.tilt_cos as i64;
        let s: i64 = ctx.waves.tilt_sin as i64;
        let mut k: usize = 0;
        while k < n
            invariant
                f == old(ctx).frame(),
                c0 == old(ctx).canvas.pixels@,
                ctx.wf(),
                ctx.frame() == f,
                n == f.area(),
                k <= n,
                w == f.stamp.width,
                h == f.stamp.height,
                c == f.waves.tilt_cos,
                s == f.waves.tilt_sin,
                ctx.canvas.pixels@ == crate::raster::paint(c0, f.canvas_w as int, f.canvas_h as int, |j: int| rotation_dab(f, j), k as int),
            decreases n - k,
        {
            let (px, py, p) = ctx.source(k);
            let dx2: i64 = 2 * (px as i64) - w;
            let dy2: i64 = 2 * (py as i64) - h;
            proof {
                assert(-0x2_0000_0000 < dx2 < 0x2_0000_0000);
                assert(-0x2_0000_0000 < dy2 < 0x2_0000_0000);
                assert(-0x8_0000_0000_0000 < dx2 * c < 0x8_0000_0000_0000) by (nonlinear_arith)
                    requires
                        -0x2_0000_0000 < dx2 < 0x2_0000_0000,
                        -16384 <= c <= 16384,
                ;
                assert(-0x8_0000_0000_0000 < dy2 * s < 0x8_0000_0000_0000) by (nonlinear_arith)
                    requires
                        -0x2_0000_0000 < dy2 < 0x2_0000_0000,
                        -16384 <= s <= 16384,
                ;
                assert(-0x8_0000_0000_0000 < dx2 * s < 0x8_0000_0000_0000) by (nonlinear_arith)
                    requires
                        -0x2_0000_0000 < dx2 < 0x2_0000_0000,
                        -16384 <= s <= 16384,
                ;
                assert(-0x8_0000_0000_0000 < dy2 * c < 0x8_0000_0000_0000) by (nonlinear_arith)
                    requires
                        -0x2_0000_0000 < dy2 < 0x2_0000_0000,
                        -16384 <= c <= 16384,
                ;
            }
            let nx: i64 = round_div_exec(w * TILT_ONE + dx2 * c - dy2 * s, 2 * TILT_ONE);
            let ny: i64 = round_div_exec(10 * h * TILT_ONE + 7 * (dx2 * s + dy2 * c), 20 * TILT_ONE);
            let r: u8 = if p.r <= 225 { p.r + 30 } else { 255 };
            let x: i64 = ctx.base_x as i64 + nx;
            let y: i64 = ctx.base_y as i64 + ny;
            proof {
                assert(nx == tilt_x(w as int, h as int, c as int, s as int, px as int, py as int));
            }
            ctx.canvas.put(x, y, Rgba { r, g: p.g, b: p.b, a: p.a });
            k += 1;
        }
    }
}

} // verus!
