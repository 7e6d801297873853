use vstd::prelude::*;

verus! {

/// One RGBA pixel, eight bits per channel.
#[derive(Clone, Copy, Debug, PartialEq, Eq, Structural)]
pub struct Rgba {
    pub r: u8,
    pub g: u8,
    pub b: u8,
    pub a: u8,
}

/// Opaque white, the background of every fresh canvas.
pub open spec fn white_spec() -> Rgba {
    Rgba { r: 255, g: 255, b: 255, a: 255 }
}

pub fn white() -> (p: Rgba)
    ensures
        p == white_spec(),
{
    Rgba { r: 255, g: 255, b: 255, a: 255 }
}

/// A `width` x `height` raster stored row by row: pixel (x, y) sits at `y * width + x`.
#[derive(Clone, Debug)]
pub struct Raster {
    pub width: u32,
    pub height: u32,
    pub pixels: Vec<Rgba>,
}

/// A single pixel write: destination column, destination row and colour.
pub type Dab = (int, int, Rgba);

/// `c`, a `w` x `h` raster, after writing `p` at (x, y); a write outside the raster changes nothing.
pub open spec fn put(c: Seq<Rgba>, w: int, h: int, x: int, y: int, p: Rgba) -> Seq<Rgba> {
    if 0 <= x < w && 0 <= y < h {
        c.update(y * w + x, p)
    } else {
        c
    }
}

/// `c` after the writes `dabs(0)`, ..., `dabs(n - 1)`, in that order.
pub open spec fn paint(c: Seq<Rgba>, w: int, h: int, dabs: spec_fn(int) -> Option<Dab>, n: int) -> Seq<Rgba>
    decreases n,
{
    if n <= 0 {
        c
    } else {
        let prev = paint(c, w, h, dabs, n - 1);
        match dabs(n - 1) {
            Some(d) => put(prev, w, h, d.0, d.1, d.2),
            None => prev,
        }
    }
}

/// `c` after `m` layers of writes, layer `l` being `dabs(l, 0)`, ..., `dabs(l, n - 1)`.
pub open spec fn paint_layers(
    c: Seq<Rgba>,
    w: int,
    h: int,
    dabs: spec_fn(int, int) -> Option<Dab>,
    m: int,
    n: int,
) -> Seq<Rgba>
    decreases m,
{
    if m <= 0 {
        c
    } else {
        paint(paint_layers(c, w, h, dabs, m - 1, n), w, h, |k: int| dabs(m - 1, k), n)
    }
}

/// Write `d` lands inside a `w` x `h` raster, on the pixel with index `j`.
pub open spec fn hits(d: Option<Dab>, w: int, h: int, j: int) -> bool {
    match d {
        Some(d) => 0 <= d.0 < w && 0 <= d.1 < h && offset(w, d.0, d.1) == j,
        None => false,
    }
}

/// Painting keeps the raster's size: a write aimed outside it is dropped, never wrapped
/// onto another row.
pub proof fn lemma_paint_keeps_size(c: Seq<Rgba>, w: int, h: int, dabs: spec_fn(int) -> Option<Dab>, n: int)
    requires
        0 <= w,
        0 <= h,
        c.len() == w * h,
    ensures
        paint(c, w, h, dabs, n).len() == c.len(),
    decreases n,
{
    if n > 0 {
        lemma_paint_keeps_size(c, w, h, dabs, n - 1);
        match dabs(n - 1) {
            Some(d) => {
                if 0 <= d.0 < w && 0 <= d.1 < h {
                    lemma_offset_in_bounds(w, h, d.0, d.1);
                }
            },
            None => {},
        }
    }
}

/// Painting leaves a pixel that no write lands on as it was: nothing outside the raster
/// is touched, and nothing inside but where the writes aim.
pub proof fn lemma_paint_untouched(
    c: Seq<Rgba>,
    w: int,
    h: int,
    dabs: spec_fn(int) -> Option<Dab>,
    n: int,
    j: int,
)
    requires
        0 <= w,
        0 <= h,
        c.len() == w * h,
        0 <= j < c.len(),
        forall|k: int| 0 <= k < n ==> !hits(#[trigger] dabs(k), w, h, j),
    ensures
        paint(c, w, h, dabs, n)[j] == c[j],
    decreases n,
{
    if n > 0 {
        lemma_paint_untouched(c, w, h, dabs, n - 1, j);
        lemma_paint_keeps_size(c, w, h, dabs, n - 1);
        assert(!hits(dabs(n - 1), w, h, j));
        match dabs(n - 1) {
            Some(d) => {
                if 0 <= d.0 < w && 0 <= d.1 < h {
                    lemma_offset_in_bounds(w, h, d.0, d.1);
                    assert(offset(w, d.0, d.1) != j);
                }
            },
            None => {},
        }
    }
}

/// Layered painting keeps the raster's size too.
pub proof fn lemma_paint_layers_keeps_size(
    c: Seq<Rgba>,
    w: int,
    h: int,
    dabs: spec_fn(int, int) -> Option<Dab>,
    m: int,
    n: int,
)
    requires
        0 <= w,
        0 <= h,
        c.len() == w * h,
    ensures
        paint_layers(c, w, h, dabs, m, n).len() == c.len(),
    decreases m,
{
    if m > 0 {
        lemma_paint_layers_keeps_size(c, w, h, dabs, m - 1, n);
        lemma_paint_keeps_size(paint_layers(c, w, h, dabs, m - 1, n), w, h, |k: int| dabs(m - 1, k), n);
    }
}

/// The same for layered painting: every write of every layer misses pixel `j`, so it
/// keeps its value, and the raster keeps its size.
pub proof fn lemma_paint_layers_untouched(
    c: Seq<Rgba>,
    w: int,
    h: int,
    dabs: spec_fn(int, int) -> Option<Dab>,
    m: int,
    n: int,
    j: int,
)
    requires
        0 <= w,
        0 <= h,
        c.len() == w * h,
        0 <= j < c.len(),
        forall|l: int, k: int| 0 <= l < m && 0 <= k < n ==> !hits(#[trigger] dabs(l, k), w, h, j),
    ensures
        paint_layers(c, w, h, dabs, m, n).len() == c.len(),
        paint_layers(c, w, h, dabs, m, n)[j] == c[j],
    decreases m,
{
    if m > 0 {
        lemma_paint_layers_untouched(c, w, h, dabs, m - 1, n, j);
        let prev = paint_layers(c, w, h, dabs, m - 1, n);
        let layer = |k: int| dabs(m - 1, k);
        assert forall|k: int| 0 <= k < n implies !hits(#[trigger] layer(k), w, h, j) by {
            assert(!hits(dabs(m - 1, k), w, h, j));
        }
        lemma_paint_untouched(prev, w, h, layer, n, j);
        lemma_paint_keeps_size(prev, w, h, layer, n);
    }
}

/// Index of (x, y) in a raster `w` wide.
pub open spec fn offset(w: int, x: int, y: int) -> int {
    y * w + x
}

pub proof fn lemma_offset_in_bounds(w: int, h: int, x: int, y: int)
    requires
        0 <= x < w,
        0 <= y < h,
    ensures
        0 <= offset(w, x, y) < w * h,
{
    assert(0 <= y * w + x < w * h) by (nonlinear_arith)
        requires
            0 <= x < w,
            0 <= y < h,
    ;
}

/// Splitting an index of a raster `w` wide into column and row stays inside the raster.
pub proof fn lemma_split_index(k: int, w: int, h: int)
    requires
        0 <= w,
        0 <= h,
        0 <= k < w * h,
    ensures
        w > 0,
        0 <= k % w < w,
        0 <= k / w < h,
        k == offset(w, k % w, k / w),
{
    if w <= 0 {
        assert(w * h <= 0) by (nonlinear_arith)
            requires
                w <= 0,
                0 <= h,
        ;
    }
    assert(0 <= k / w < h) by (nonlinear_arith)
        requires
            w > 0,
            0 <= k < w * h,
    ;
    assert(k == (k / w) * w + k % w) by (nonlinear_arith)
        requires
            w > 0,
    ;
}

impl Raster {
    /// The pixel buffer holds exactly `width * height` pixels, a count that fits in `usize`.
    pub open spec fn wf(&self) -> bool {
        &&& self.pixels@.len() == self.width * self.height
        &&& self.width * self.height <= usize::MAX
    }

    pub open spec fn at(&self, x: int, y: int) -> Rgba {
        self.pixels@[offset(self.width as int, x, y)]
    }

    /// A `width` x `height` raster with every pixel set to `fill`.
    pub fn filled(width: u32, height: u32, fill: Rgba) -> (r: Raster)
        requires
            width * height <= usize::MAX,
        ensures
            r.wf(),
            r.width == width,
            r.height == height,
            r.pixels@ == Seq::new((width * height) as nat, |i: int| fill),
    {
        let n: usize = (width as usize) * (height as usize);
        let mut pixels: Vec<Rgba> = Vec::with_capacity(n);
        let mut i: usize = 0;
        while i < n
            invariant
                i <= n,
                pixels@ == Seq::new(i as nat, |j: int| fill),
            decreases n - i,
        {
            pixels.push(fill);
            i += 1;
        }
        Raster { width, height, pixels }
    }

    /// Writes `p` at (x, y) when that position lies inside the raster; otherwise does nothing.
    pub fn put(&mut self, x: i64, y: i64, p: Rgba)
        requires
            old(self).wf(),
        ensures
            final(self).wf(),
            final(self).width == old(self).width,
            final(self).height == old(self).height,
            final(self).pixels@ == put(
                old(self).pixels@,
                old(self).width as int,
                old(self).height as int,
                x as int,
                y as int,
                p,
            ),
    {
        if 0 <= x && x < self.width as i64 && 0 <= y && y < self.height as i64 {
            proof {
                lemma_offset_in_bounds(self.width as int, self.height as int, x as int, y as int);
                assert(y * self.width <= y * self.width + x);
            }
            let i: usize = (y as usize) * (self.width as usize) + (x as usize);
            self.pixels.set(i, p);
        }
    }
}

} // verus!
