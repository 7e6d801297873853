use vstd::prelude::*;

use crate::effects::{DrawContext, Effect, Frame};
use crate::raster::{paint, Dab, Rgba};

verus! {

/// Fixed-point scale of glow weights: a weight of 1.0 is this value.
pub const GLOW_ONE: u64 = 65536;

/// Largest glow radius accepted.
pub const MAX_GLOW_RANGE: u32 = 1000;

/// Redraws the stamp at every offset of a square around it, washed toward white by a
/// weight that falls off with the offset's length.
pub struct GlowEffect {
    /// Radius `R` of the square of offsets.
    pub range: u32,
    /// Strength of the glow at offset (0, 0), in thousandths; weights above 1.0 wash
    /// all the way to white.
    pub intensity: u32,
}

/// The integer square root: the largest `r` with `r * r <= x`.
pub open spec fn isqrt(x: nat) -> nat
    decreases x,
{
    if x == 0 {
        0
    } else {
        let r = isqrt((x - 1) as nat);
        if (r + 1) * (r + 1) <= x {
            r + 1
        } else {
            r
        }
    }
}

proof fn lemma_isqrt(x: nat)
    ensures
        isqrt(x) * isqrt(x) <= x < (isqrt(x) + 1) * (isqrt(x) + 1),
    decreases x,
{
    if x > 0 {
        lemma_isqrt((x - 1) as nat);
        let r = isqrt((x - 1) as nat);
        assert((r + 1) * (r + 1) < (r + 2) * (r + 2)) by (nonlinear_arith)
            requires
                r >= 0,
        ;
        if (r + 1) * (r + 1) <= x {
            assert(isqrt(x) == r + 1);
            assert(x < (r + 2) * (r + 2));
            assert((r + 1) + 1 == r + 2);
        } else {
            assert(isqrt(x) == r);
        }
    } else {
        assert(isqrt(0) == 0);
        assert((0 + 1) * (0 + 1) == 1) by (nonlinear_arith);
    }
}

proof fn lemma_isqrt_unique(x: nat, r: nat)
    requires
        r * r <= x < (r + 1) * (r + 1),
    ensures
        r == isqrt(x),
{
    lemma_isqrt(x);
    let q = isqrt(x);
    if r < q {
        assert((r + 1) * (r + 1) <= q * q) by (nonlinear_arith)
            requires
                0 <= r < q,
        ;
    } else if q < r {
        assert((q + 1) * (q + 1) <= r * r) by (nonlinear_arith)
            requires
                0 <= q < r,
        ;
    }
}

fn isqrt_exec(x: u64) -> (r: u64)
    requires
        x < 0x40_0000_0000_0000,
    ensures
        r == isqrt(x as nat),
{
    let mut lo: u64 = 0;
    let mut hi: u64 = 0x800_0000;
    while hi - lo > 1
        invariant
            lo < hi <= 0x800_0000,
            lo * lo <= x,
            x < hi * hi,
        decreases hi - lo,
    {
        let mid: u64 = lo + (hi - lo) / 2;
        proof {
            assert(mid * mid <= 0x800_0000 * 0x800_0000) by (nonlinear_arith)
                requires
                    mid < 0x800_0000,
            ;
        }
        if mid * mid <= x {
            lo = mid;
        } else {
            hi = mid;
        }
    }
    proof {
        lemma_isqrt_unique(x as nat, lo as nat);
    }
    lo
}

/// The weight, over `GLOW_ONE`, at offset (dx, dy) for radius `R` and intensity `I`:
/// `max(0, (R - dist) / R) * I / 1000`, where `dist * GLOW_ONE` is rounded down, at most 1
/// (full white).
pub open spec fn glow_weight(range: int, intensity: int, dx: int, dy: int) -> int {
    let root = isqrt(((dx * dx + dy * dy) * (GLOW_ONE * GLOW_ONE)) as nat);
    let gap = range * GLOW_ONE - root;
    if range == 0 || gap <= 0 {
        0
    } else if gap * intensity / (range * 1000) > GLOW_ONE {
        GLOW_ONE as int
    } else {
        gap * intensity / (range * 1000)
    }
}

/// Channel `c` moved toward 255 by weight `a` over `GLOW_ONE`, rounded down.
pub open spec fn brighten(c: u8, a: int) -> u8 {
    ((c * (GLOW_ONE - a) + 255 * a) / GLOW_ONE as int) as u8
}

/// Horizontal offset of layer `o` in a square of radius `R`.
pub open spec fn glow_dx(range: int, o: int) -> int {
    o / (2 * range + 1) - range
}

/// Vertical offset of layer `o` in a square of radius `R`.
pub open spec fn glow_dy(range: int, o: int) -> int {
    o % (2 * range + 1) - range
}

/// The write for stamp pixel `k` in layer `o`: moved by the layer's offset, washed toward
/// white by the offset's weight, alpha kept. Layers run over dx, then dy, ascending.
pub open spec fn glow_dab(g: GlowEffect, f: Frame, o: int, k: int) -> Option<Dab> {
    let (px, py) = (f.src_x(k), f.src_y(k));
    let (dx, dy) = (glow_dx(g.range as int, o), glow_dy(g.range as int, o));
    let a = glow_weight(g.range as int, g.intensity as int, dx, dy);
    let p = f.stamp.pixels@[k];
    Some(
        (
            f.base_x + dx + px,
            f.base_y + dy + py,
            Rgba { r: brighten(p.r, a), g: brighten(p.g, a), b: brighten(p.b, a), a: p.a },
        ),
    )
}

impl GlowEffect {
    /// Number of offsets: the side of the square, squared.
    pub open spec fn layers(&self) -> int {
        (2 * self.range + 1) * (2 * self.range + 1)
    }

    fn weight(&self, dx: i64, dy: i64) -> (a: u64)
        requires
            self.range <= MAX_GLOW_RANGE,
            -self.range <= dx <= self.range,
            -self.range <= dy <= self.range,
        ensures
            a == glow_weight(self.range as int, self.intensity as int, dx as int, dy as int),
            a <= GLOW_ONE,
    {
        let r: u64 = self.range as u64;
        proof {
            assert(0 <= dx * dx <= 1000 * 1000) by (nonlinear_arith)
                requires
                    -1000 <= dx <= 1000,
            ;
            assert(0 <= dy * dy <= 1000 * 1000) by (nonlinear_arith)
                requires
                    -1000 <= dy <= 1000,
            ;
        }
        let d2: u64 = (dx * dx + dy * dy) as u64;
        proof {
            assert(d2 * (GLOW_ONE * GLOW_ONE) <= 2_000_000 * (GLOW_ONE * GLOW_ONE)) by (nonlinear_arith)
                requires
                    d2 <= 2_000_000,
            ;
        }
        let root: u64 = isqrt_exec(d2 * (GLOW_ONE * GLOW_ONE));
        if r == 0 || root >= r * GLOW_ONE {
            0
        } else {
            let gap: u64 = r * GLOW_ONE - root;
            proof {
                assert(gap * self.intensity <= (1000 * GLOW_ONE) * 0xffff_ffff) by (nonlinear_arith)
                    requires
                        gap <= r * GLOW_ONE,
                        r <= 1000,
                        self.intensity <= 0xffff_ffff,
                ;
            }
            let a: u64 = gap * (self.intensity as u64) / (r * 1000);
            if a > GLOW_ONE {
                GLOW_ONE
            } else {
                a
            }
        }
    }
}

fn brighten_exec(c: u8, a: u64) -> (r: u8)
    requires
        a <= GLOW_ONE,
    ensures
        r == brighten(c, a as int),
{
    proof {
        assert(c * (GLOW_ONE - a) + 255 * a <= 255 * GLOW_ONE) by (nonlinear_arith)
            requires
                c <= 255,
                a <= GLOW_ONE,
        ;
    }
    (((c as u64) * (GLOW_ONE - a) + 255 * a) / GLOW_ONE) as u8
}

impl Default for GlowEffect {
    /// Radius 3, intensity 0.3.
    fn default() -> (g: GlowEffect)
        ensures
            g.range == 3,
            g.intensity == 300,
    {
        GlowEffect { range: 3, intensity: 300 }
    }
}

impl Effect for GlowEffect {
    open spec fn valid(&self) -> bool {
        self.range <= MAX_GLOW_RANGE
    }

    open spec fn painted(&self, f: Frame, c: Seq<Rgba>) -> Seq<Rgba> {
        f.layered_with(c, |o: int, k: int| glow_dab(*self, f, o, k), self.layers())
    }

    fn apply(&self, ctx: &mut DrawContext) {
        let n: usize = ctx.stamp.pixels.len();
        let ghost f = ctx.frame();
        let ghost c0 = ctx.canvas.pixels@;
        let ghost dabs = |o: int, k: int| glow_dab(*self, f, o, k);
        let side: u64 = 2 * (self.range as u64) + 1;
        proof {
            assert(side * side <= 2001 * 2001) by (nonlinear_arith)
                requires
                    side <= 2001,
            ;
        }
        let layers: u64 = side * side;
        let range: i64 = self.range as i64;
        let mut o: u64 = 0;
        while o < layers
            invariant
                f == old(ctx).frame(),
                c0 == old(ctx).canvas.pixels@,
                dabs == (|o: int, k: int| glow_dab(*self, f, o, k)),
                self.valid(),
                ctx.wf(),
                ctx.frame() == f,
                n == f.area(),
                side == 2 * self.range + 1,
                layers == self.layers(),
                range == self.range,
                o <= layers,
                ctx.canvas.pixels@ == f.layered_with(c0, dabs, o as int),
            decreases layers - o,
        {
            proof {
                assert(o / side < side) by (nonlinear_arith)
                    requires
                        o < side * side,
                        side > 0,
                ;
            }
            let dx: i64 = (o / side) as i64 - range;
            let dy: i64 = (o % side) as i64 - range;
            let a: u64 = self.weight(dx, dy);
            let ghost start = ctx.canvas.pixels@;
            let mut k: usize = 0;
            while k < n
                invariant
                    f == old(ctx).frame(),
                c0 == old(ctx).canvas.pixels@,
                    dabs == (|o: int, k: int| glow_dab(*self, f, o, k)),
                    ctx.wf(),
                    ctx.frame() == f,
                    n == f.area(),
                    -range <= dx <= range,
                    -range <= dy <= range,
                    range <= MAX_GLOW_RANGE,
                    dx == glow_dx(self.range as int, o as int),
                    dy == glow_dy(self.range as int, o as int),
                    a == glow_weight(self.range as int, self.intensity as int, dx as int, dy as int),
                    a <= GLOW_ONE,
                    k <= n,
                    ctx.canvas.pixels@ == paint(
                        start,
                        f.canvas_w as int,
                        f.canvas_h as int,
                        |j: int| dabs(o as int, j),
                        k as int,
                    ),
                decreases n - k,
            {
                let (px, py, p) = ctx.source(k);
                let x: i64 = ctx.base_x as i64 + dx + px as i64;
                let y: i64 = ctx.base_y as i64 + dy + py as i64;
                let r: u8 = brighten_exec(p.r, a);
                let g: u8 = brighten_exec(p.g, a);
                let b: u8 = brighten_exec(p.b, a);
                ctx.canvas.put(x, y, Rgba { r, g, b, a: p.a });
                k += 1;
            }
            o += 1;
        }
    }
}

} // verus!
