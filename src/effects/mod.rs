use vstd::prelude::*;

use crate::raster::{lemma_split_index, Dab, Raster, Rgba};

pub mod colorful;
pub mod extrusion;
pub mod glow;
pub mod rotation;
pub mod sparkle;
pub mod surreal;

pub use colorful::ColorfulEffect;
pub use extrusion::ExtrusionEffect;
pub use glow::GlowEffect;
pub use rotation::RotationEffect;
pub use sparkle::SparkleEffect;
pub use surreal::SurrealEffect;

verus! {

/// Fixed-point scale of `CellWaves::tilt_cos` and `CellWaves::tilt_sin`: 1.0 is this value.
pub const TILT_ONE: i64 = 16384;

/// The trigonometric parameters of one cell, already rounded to integers.
///
/// For cell index `i`, a stamp column `px` and a stamp row `py`, these hold
/// `extrude_dx[px] = round(5 sin((px + i) * 0.17))`,
/// `extrude_dy[py] = round(5 cos((py + i) * 0.17))`,
/// `swirl_dx[px] = round(5 sin((px + i) * 0.27))`,
/// `swirl_dy[py] = round(5 cos((py + i) * 0.27))`,
/// and `tilt_cos`, `tilt_sin` are the cosine and sine of the angle `0.3 sin(i * 0.7)`,
/// scaled by `TILT_ONE` and rounded. The effects are defined, and proved, for any values
/// of the right shape.
#[derive(Clone, Debug)]
pub struct CellWaves {
    pub extrude_dx: Vec<i32>,
    pub extrude_dy: Vec<i32>,
    pub swirl_dx: Vec<i32>,
    pub swirl_dy: Vec<i32>,
    pub tilt_cos: i32,
    pub tilt_sin: i32,
}

impl CellWaves {
    /// One entry per column and per row of a `w` x `h` stamp, and a tilt within [-1, 1].
    pub open spec fn fits(&self, w: int, h: int) -> bool {
        &&& self.extrude_dx@.len() == w
        &&& self.extrude_dy@.len() == h
        &&& self.swirl_dx@.len() == w
        &&& self.swirl_dy@.len() == h
        &&& -TILT_ONE <= self.tilt_cos <= TILT_ONE
        &&& -TILT_ONE <= self.tilt_sin <= TILT_ONE
    }
}

/// Everything one effect needs to draw one cell: the canvas it draws on, where the
/// stamp's origin lies on that canvas, the stamp, the cell's index and its wave table.
pub struct DrawContext<'a> {
    pub canvas: Raster,
    pub base_x: u32,
    pub base_y: u32,
    pub stamp: &'a Raster,
    pub cell_index: u32,
    pub waves: &'a CellWaves,
}

/// What an effect reads while drawing one cell: everything in a `DrawContext` but the
/// canvas's pixels.
pub struct Frame {
    pub canvas_w: u32,
    pub canvas_h: u32,
    pub base_x: u32,
    pub base_y: u32,
    pub stamp: Raster,
    pub cell_index: u32,
    pub waves: CellWaves,
}

impl Frame {
    /// Number of pixels of the stamp.
    pub open spec fn area(&self) -> int {
        self.stamp.pixels@.len() as int
    }

    /// Column of the stamp pixel with index `k`.
    pub open spec fn src_x(&self, k: int) -> int {
        k % (self.stamp.width as int)
    }

    /// Row of the stamp pixel with index `k`.
    pub open spec fn src_y(&self, k: int) -> int {
        k / (self.stamp.width as int)
    }

    /// `paint` on a canvas of this frame's size holding `c`, one write per stamp pixel.
    pub open spec fn painted_with(&self, c: Seq<Rgba>, dabs: spec_fn(int) -> Option<Dab>) -> Seq<Rgba> {
        crate::raster::paint(c, self.canvas_w as int, self.canvas_h as int, dabs, self.area())
    }

    /// `paint_layers` on a canvas of this frame's size holding `c`, `m` layers.
    pub open spec fn layered_with(
        &self,
        c: Seq<Rgba>,
        dabs: spec_fn(int, int) -> Option<Dab>,
        m: int,
    ) -> Seq<Rgba> {
        crate::raster::paint_layers(
            c,
            self.canvas_w as int,
            self.canvas_h as int,
            dabs,
            m,
            self.area(),
        )
    }
}

impl<'a> DrawContext<'a> {
    pub open spec fn wf(&self) -> bool {
        &&& self.canvas.wf()
        &&& self.stamp.wf()
        &&& self.waves.fits(self.stamp.width as int, self.stamp.height as int)
    }

    pub open spec fn frame(&self) -> Frame {
        Frame {
            canvas_w: self.canvas.width,
            canvas_h: self.canvas.height,
            base_x: self.base_x,
            base_y: self.base_y,
            stamp: *self.stamp,
            cell_index: self.cell_index,
            waves: *self.waves,
        }
    }

    /// Column, row and colour of the stamp pixel with index `k`, in row-major order.
    pub fn source(&self, k: usize) -> (r: (u32, u32, Rgba))
        requires
            self.wf(),
            k < self.frame().area(),
        ensures
            r.0 as int == self.frame().src_x(k as int),
            r.1 as int == self.frame().src_y(k as int),
            r.0 < self.stamp.width,
            r.1 < self.stamp.height,
            r.2 == self.stamp.pixels@[k as int],
    {
        proof {
            lemma_split_index(k as int, self.stamp.width as int, self.stamp.height as int);
        }
        let w: usize = self.stamp.width as usize;
        ((k % w) as u32, (k / w) as u32, self.stamp.pixels[k])
    }
}

/// A deterministic pixel transformation of one cell's canvas.
pub trait Effect {
    /// The parameters of the effect are usable.
    spec fn valid(&self) -> bool;

    /// The pixels of a canvas that held `c` after the effect has drawn on it within `f`.
    spec fn painted(&self, f: Frame, c: Seq<Rgba>) -> Seq<Rgba>;

    /// Draws on `ctx.canvas`, reading `ctx.stamp`; writes that would fall outside the
    /// canvas are skipped.
    fn apply(&self, ctx: &mut DrawContext)
        requires
            self.valid(),
            old(ctx).wf(),
        ensures
            final(ctx).wf(),
            final(ctx).frame() == old(ctx).frame(),
            final(ctx).canvas.pixels@ == self.painted(old(ctx).frame(), old(ctx).canvas.pixels@),
    ;
}

} // verus!
