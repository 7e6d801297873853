use vstd::prelude::*;

use crate::effects::{DrawContext, Effect, Frame};
use crate::raster::{paint, Dab, Rgba};

verus! {

/// Stacks eight progressively darker, wobbling copies of the stamp down and to the right.
pub struct ExtrusionEffect;

/// Number of stacked copies.
pub const EXTRUDE_STEPS: u32 = 8;

/// `c * (1 - e / 9)`, rounded down.
pub open spec fn darken(c: u8, e: int) -> u8 {
    (c * (9 - e) / 9) as u8
}

/// The write for stamp pixel `k` in copy `e`: offset by (5e, 2e) plus the wobble of its
/// column and row, each colour channel darkened by the factor `1 - e / 9`.
pub open spec fn extrude_dab(f: Frame, e: int, k: int) -> Option<Dab> {
    let (px, py) = (f.src_x(k), f.src_y(k));
    let p = f.stamp.pixels@[k];
    Some(
        (
            f.base_x + 5 * e + px + f.waves.extrude_dx@[px],
            f.base_y + 2 * e + py + f.waves.extrude_dy@[py],
            Rgba { r: darken(p.r, e), g: darken(p.g, e), b: darken(p.b, e), a: p.a },
        ),
    )
}

fn darken_exec(c: u8, e: u32) -> (r: u8)
    requires
        e < EXTRUDE_STEPS,
    ensures
        r == darken(c, e as int),
{
    proof {
        assert(c * (9 - e) <= 255 * 9) by (nonlinear_arith)
            requires
                c <= 255,
                e < 8,
        ;
    }
    ((c as u32) * (9 - e) / 9) as u8
}

impl Effect for ExtrusionEffect {
    open spec fn valid(&self) -> bool {
        true
    }

    open spec fn painted(&self, f: Frame, c: Seq<Rgba>) -> Seq<Rgba> {
        f.layered_with(c, |e: int, k: int| extrude_dab(f, e, k), EXTRUDE_STEPS as int)
    }

    fn apply(&self, ctx: &mut DrawContext) {
        let n: usize = ctx.stamp.pixels.len();
        let ghost f = ctx.frame();
        let ghost c0 = ctx.canvas.pixels@;
        let ghost dabs = |e: int, k: int| extrude_dab(f, e, k);
        let mut e: u32 = 0;
        while e < EXTRUDE_STEPS
            invariant
                f == old(ctx).frame(),
                c0 == old(ctx).canvas.pixels@,
                dabs == (|e: int, k: int| extrude_dab(f, e, k)),
                ctx.wf(),
                ctx.frame() == f,
                n == f.area(),
                e <= EXTRUDE_STEPS,
                ctx.canvas.pixels@ == f.layered_with(c0, dabs, e as int),
            decreases EXTRUDE_STEPS - e,
        {
            let ghost start = ctx.canvas.pixels@;
            let mut k: usize = 0;
            while k < n
                invariant
                    f == old(ctx).frame(),
                c0 == old(ctx).canvas.pixels@,
                    dabs == (|e: int, k: int| extrude_dab(f, e, k)),
                    ctx.wf(),
                    ctx.frame() == f,
                    n == f.area(),
                    e < EXTRUDE_STEPS,
                    k <= n,
                    ctx.canvas.pixels@ == paint(
                        start,
                        f.canvas_w as int,
                        f.canvas_h as int,
                        |j: int| dabs(e as int, j),
                        k as int,
                    ),
                decreases n - k,
            {
                let (px, py, p) = ctx.source(k);
                let x: i64 = ctx.base_x as i64 + 5 * (e as i64) + px as i64
                    + ctx.waves.extrude_dx[px as usize] as i64;
                let y: i64 = ctx.base_y as i64 + 2 * (e as i64) + py as i64
                    + ctx.waves.extrude_dy[py as usize] as i64;
                let r: u8 = darken_exec(p.r, e);
                let g: u8 = darken_exec(p.g, e);
                let b: u8 = darken_exec(p.b, e);
                ctx.canvas.put(x, y, Rgba { r, g, b, a: p.a });
                k += 1;
            }
            e += 1;
        }
    }
}

} // verus!
