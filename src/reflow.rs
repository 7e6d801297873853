use vstd::prelude::*;

use crate::raster::{lemma_offset_in_bounds, lemma_split_index, white, white_spec, Raster, Rgba};

verus! {

/// Fully transparent black, what `image` fills a resample of an empty raster with.
pub open spec fn clear() -> Rgba {
    Rgba { r: 0, g: 0, b: 0, a: 0 }
}

/// Relies on `image::imageops::resize` with `FilterType::Lanczos3`: the result is
/// `width` x `height`; it is a copy when the size does not change and all zero when
/// the source is empty. Other pixels are computed in `f32` and are not stated.
#[verifier::external_body]
fn lanczos3_resize(src: &Raster, width: u32, height: u32) -> (r: Raster)
    requires
        src.wf(),
        width * height * 4 <= usize::MAX,
        src.width == 0 || src.height == 0 || src.width * height * 4 <= usize::MAX,
    ensures
        r.wf(),
        r.width == width,
        r.height == height,
        src.width == width && src.height == height ==> r.pixels@ == src.pixels@,
        src.width == 0 || src.height == 0 ==> r.pixels@ == Seq::new((width * height) as nat, |i: int| clear()),
{
    let raw: Vec<u8> = src.pixels.iter().flat_map(|p| [p.r, p.g, p.b, p.a]).collect();
    let img = image::RgbaImage::from_raw(src.width, src.height, raw).unwrap();
    let out = image::imageops::resize(&img, width, height, image::imageops::FilterType::Lanczos3);
    let pixels = out.into_raw().chunks_exact(4).map(|c| Rgba { r: c[0], g: c[1], b: c[2], a: c[3] }).collect();
    Raster { width, height, pixels }
}

/// Rows of a grid of `n` cells in `c` columns: `ceil(n / c)`.
pub open spec fn grid_rows(n: int, c: int) -> int {
    (n + c - 1) / c
}

/// Numerator of the aspect error of `c` columns, `|c*cw/(rows*ch) - tw/th|`, whose
/// denominator is `rows * ch * th`.
pub open spec fn aspect_gap(n: int, c: int, cw: int, ch: int, tw: int, th: int) -> int {
    let d = c * cw * th - tw * grid_rows(n, c) * ch;
    if d >= 0 {
        d
    } else {
        -d
    }
}

/// `a` columns come strictly closer to the aspect `tw : th` than `b` columns do.
pub open spec fn closer(n: int, a: int, b: int, cw: int, ch: int, tw: int, th: int) -> bool {
    &&& ch * th > 0
    &&& aspect_gap(n, a, cw, ch, tw, th) * grid_rows(n, b) < aspect_gap(n, b, cw, ch, tw, th) * grid_rows(n, a)
}

proof fn lemma_rows_positive(n: int, c: int)
    requires
        1 <= c <= n,
    ensures
        1 <= grid_rows(n, c) <= n,
{
    assert(1 <= (n + c - 1) / c <= n) by (nonlinear_arith)
        requires
            1 <= c <= n,
    ;
}

proof fn lemma_closer_trans(n: int, a: int, b: int, c: int, cw: int, ch: int, tw: int, th: int)
    requires
        1 <= a <= n,
        1 <= b <= n,
        1 <= c <= n,
        closer(n, a, b, cw, ch, tw, th),
        !closer(n, c, b, cw, ch, tw, th),
    ensures
        closer(n, a, c, cw, ch, tw, th),
{
    lemma_rows_positive(n, a);
    lemma_rows_positive(n, b);
    lemma_rows_positive(n, c);
    let (ga, gb, gc) = (aspect_gap(n, a, cw, ch, tw, th), aspect_gap(n, b, cw, ch, tw, th), aspect_gap(n, c, cw, ch, tw, th));
    let (ra, rb, rc) = (grid_rows(n, a), grid_rows(n, b), grid_rows(n, c));
    assert(ga * rc < gc * ra) by (nonlinear_arith)
        requires
            ra > 0,
            rb > 0,
            rc > 0,
            ga * rb < gb * ra,
            gc * rb >= gb * rc,
    ;
}

/// `c` columns come closest to the target aspect, and no fewer columns do as well.
pub open spec fn is_best_columns(n: int, c: int, cw: int, ch: int, tw: int, th: int) -> bool {
    &&& 1 <= c <= n
    &&& forall|j: int| 1 <= j <= n ==> !closer(n, j, c, cw, ch, tw, th)
    &&& forall|j: int| 1 <= j < c ==> closer(n, c, j, cw, ch, tw, th)
}

/// The column count of the reflow: the fewest columns among those whose aspect comes
/// closest to `tw : th`; one for no cells.
pub open spec fn best_columns(n: int, cw: int, ch: int, tw: int, th: int) -> int {
    if n <= 0 {
        1
    } else {
        choose|c: int| is_best_columns(n, c, cw, ch, tw, th)
    }
}

proof fn lemma_best_columns_unique(n: int, c: int, cw: int, ch: int, tw: int, th: int)
    requires
        is_best_columns(n, c, cw, ch, tw, th),
    ensures
        best_columns(n, cw, ch, tw, th) == c,
{
    let d = best_columns(n, cw, ch, tw, th);
    assert(is_best_columns(n, d, cw, ch, tw, th));
    if d < c {
        assert(closer(n, c, d, cw, ch, tw, th));
    } else if c < d {
        assert(closer(n, d, c, cw, ch, tw, th));
    }
}

/// Chooses how many columns to lay `n` cells of `cell_w` x `cell_h` out in, so that the
/// grid's aspect comes closest to `target_w : target_h`; the fewest columns among equals.
pub fn choose_columns(n: u32, cell_w: u32, cell_h: u32, target_w: u32, target_h: u32) -> (cols: u32)
    ensures
        cols == best_columns(n as int, cell_w as int, cell_h as int, target_w as int, target_h as int),
        n == 0 ==> cols == 1,
        n > 0 ==> 1 <= cols <= n,
        forall|c: int|
            1 <= c <= n ==> !closer(n as int, c, cols as int, cell_w as int, cell_h as int, target_w as int, target_h as int),
        forall|c: int|
            1 <= c < cols ==> closer(n as int, cols as int, c, cell_w as int, cell_h as int, target_w as int, target_h as int),
{
    if n == 0 {
        return 1;
    }
    let ghost (ni, cw, ch, tw, th) = (n as int, cell_w as int, cell_h as int, target_w as int, target_h as int);
    let mut best: u32 = 1;
    let (mut best_gap, mut best_rows) = column_error(n, 1, cell_w, cell_h, target_w, target_h);
    let mut c: u64 = 2;
    while c <= n as u64
        invariant
            1 <= n,
            ni == n,
            cw == cell_w,
            ch == cell_h,
            tw == target_w,
            th == target_h,
            2 <= c <= n as int + 1,
            1 <= best < c,
            best_gap == aspect_gap(ni, best as int, cw, ch, tw, th),
            best_rows == grid_rows(ni, best as int),
            best_gap < 0x1_0000_0000_0000_0000_0000_0000,
            forall|j: int| 1 <= j < c ==> !closer(ni, j, best as int, cw, ch, tw, th),
            forall|j: int| 1 <= j < best ==> closer(ni, best as int, j, cw, ch, tw, th),
        decreases n as int + 1 - c,
    {
        let (gap, rows) = column_error(n, c as u32, cell_w, cell_h, target_w, target_h);
        proof {
            lemma_rows_positive(ni, best as int);
            lemma_rows_positive(ni, c as int);
            assert(gap * best_rows <= 0xffff_ffff_ffff_ffff_ffff_ffff_ffff_ffff) by (nonlinear_arith)
                requires
                    gap < 0x1_0000_0000_0000_0000_0000_0000,
                    1 <= best_rows <= 0xffff_ffff,
            ;
            assert(best_gap * rows <= 0xffff_ffff_ffff_ffff_ffff_ffff_ffff_ffff) by (nonlinear_arith)
                requires
                    best_gap < 0x1_0000_0000_0000_0000_0000_0000,
                    1 <= rows <= 0xffff_ffff,
            ;
        }
        proof {
            assert(cell_h * target_h <= 0xffff_ffff * 0xffff_ffff) by (nonlinear_arith)
                requires
                    cell_h <= 0xffff_ffff,
                    target_h <= 0xffff_ffff,
            ;
        }
        let square: u128 = (cell_h as u128) * (target_h as u128);
        if square > 0 && gap * (best_rows as u128) < best_gap * (rows as u128) {
            proof {
                assert(closer(ni, c as int, best as int, cw, ch, tw, th));
                assert forall|j: int| 1 <= j < c implies closer(ni, c as int, j, cw, ch, tw, th) by {
                    lemma_closer_trans(ni, c as int, best as int, j, cw, ch, tw, th);
                }
                assert forall|j: int| 1 <= j < c + 1 implies !closer(ni, j, c as int, cw, ch, tw, th) by {
                    if j < c {
                        assert(closer(ni, c as int, j, cw, ch, tw, th));
                    }
                }
            }
            best = c as u32;
            best_gap = gap;
            best_rows = rows;
        } else {
            proof {
                assert(square == ch * th);
                assert forall|j: int| 1 <= j < c + 1 implies !closer(ni, j, best as int, cw, ch, tw, th) by {}
            }
        }
        c += 1;
    }
    proof {
        lemma_best_columns_unique(ni, best as int, cw, ch, tw, th);
    }
    best
}

/// Pixel (x, y) of the grid of `n` cells, `cw` x `ch`, in `cols` columns: cell `i` sits
/// in row `i / cols`, column `i mod cols`, and is the `cw`-wide slice of the strip at
/// `i * cw`; slots past the last cell are white.
pub open spec fn grid_at(strip: Raster, cw: int, ch: int, n: int, cols: int, x: int, y: int) -> Rgba {
    let i = (y / ch) * cols + x / cw;
    if i < n && y % ch < strip.height {
        strip.at(i * cw + x % cw, y % ch)
    } else {
        white_spec()
    }
}

/// The pixels of that grid, `cols * cw` wide and `ceil(n / cols) * ch` high.
pub open spec fn grid_pixels(strip: Raster, cw: int, ch: int, n: int, cols: int) -> Seq<Rgba> {
    let (w, h) = (cols * cw, grid_rows(n, cols) * ch);
    Seq::new((w * h) as nat, |t: int| grid_at(strip, cw, ch, n, cols, t % w, t / w))
}

/// Lays the first `n` cells of a strip of `cell_w` x `cell_h` cells out row by row in
/// `cols` columns, on a white canvas.
pub fn arrange_grid(strip: &Raster, cell_w: u32, cell_h: u32, n: u32, cols: u32) -> (r: Raster)
    requires
        strip.wf(),
        cols >= 1,
        n * cell_w <= strip.width,
        cols * cell_w <= u32::MAX,
        grid_rows(n as int, cols as int) * cell_h <= u32::MAX,
        cols * cell_w * (grid_rows(n as int, cols as int) * cell_h) <= usize::MAX,
    ensures
        r.wf(),
        r.width == cols * cell_w,
        r.height == grid_rows(n as int, cols as int) * cell_h,
        r.pixels@ == grid_pixels(*strip, cell_w as int, cell_h as int, n as int, cols as int),
{
    let rows: u64 = (n as u64 + cols as u64 - 1) / cols as u64;
    proof {
        assert(rows <= u32::MAX) by (nonlinear_arith)
            requires
                rows == (n + cols - 1) / (cols as int),
                cols >= 1,
                n <= u32::MAX,
        ;
    }
    let w: usize = (cols as usize) * (cell_w as usize);
    let h: usize = (rows as usize) * (cell_h as usize);
    proof {
        assert(w * h == cols * cell_w * (grid_rows(n as int, cols as int) * cell_h));
    }
    let total: usize = w * h;
    let ghost spec_pixels = grid_pixels(*strip, cell_w as int, cell_h as int, n as int, cols as int);
    let mut pixels: Vec<Rgba> = Vec::with_capacity(total);
    let mut t: usize = 0;
    while t < total
        invariant
            strip.wf(),
            n * cell_w <= strip.width,
            rows == grid_rows(n as int, cols as int),
            w == cols * cell_w,
            h == rows * cell_h,
            total == w * h,
            spec_pixels == grid_pixels(*strip, cell_w as int, cell_h as int, n as int, cols as int),
            t <= total,
            pixels@.len() == t,
            forall|j: int| 0 <= j < t ==> #[trigger] pixels@[j] == spec_pixels[j],
        decreases total - t,
    {
        proof {
            lemma_split_index(t as int, w as int, h as int);
        }
        let x: usize = t % w;
        let y: usize = t / w;
        proof {
            assert(cell_w > 0 && cell_h > 0) by (nonlinear_arith)
                requires
                    w == cols * cell_w,
                    h == rows * cell_h,
                    w > 0,
                    h > 0,
            ;
            assert(cell_w * cols == w && cell_h * rows == h) by (nonlinear_arith)
                requires
                    w == cols * cell_w,
                    h == rows * cell_h,
            ;
            lemma_split_index(x as int, cell_w as int, cols as int);
            lemma_split_index(y as int, cell_h as int, rows as int);
        }
        proof {
            let (row, cl) = ((y as int) / (cell_h as int), cols as int);
            assert(row * cl <= 0xffff_ffff_ffff_ffff * 0xffff_ffff) by (nonlinear_arith)
                requires
                    0 <= row <= 0xffff_ffff_ffff_ffff,
                    0 <= cl <= 0xffff_ffff,
            ;
        }
        let i: u128 = (y / cell_h as usize) as u128 * (cols as u128) + (x / cell_w as usize) as u128;
        if i < n as u128 && y % (cell_h as usize) < strip.height as usize {
            proof {
                let (ii, cw, xm) = (i as int, cell_w as int, (x as int) % (cell_w as int));
                assert(ii * cw + xm < n * cw) by (nonlinear_arith)
                    requires
                        ii < n,
                        0 <= xm < cw,
                ;
            }
            let sx: usize = (i as usize) * (cell_w as usize) + x % (cell_w as usize);
            let sy: usize = y % (cell_h as usize);
            proof {
                lemma_offset_in_bounds(strip.width as int, strip.height as int, sx as int, sy as int);
            }
            pixels.push(strip.pixels[sy * (strip.width as usize) + sx]);
        } else {
            pixels.push(white());
        }
        t += 1;
    }
    let r = Raster { width: w as u32, height: h as u32, pixels };
    assert(r.pixels@ =~= spec_pixels);
    r
}

/// Columns of the reflow grid of a strip `width` wide, cells `cw` x `ch`, toward `tw : th`.
pub open spec fn reflow_columns(width: int, cw: int, ch: int, tw: int, th: int) -> int {
    best_columns(strip_cells(width, cw), cw, ch, tw, th)
}

/// Width of the reflow grid.
pub open spec fn reflow_width(width: int, cw: int, ch: int, tw: int, th: int) -> int {
    reflow_columns(width, cw, ch, tw, th) * cw
}

/// Height of the reflow grid.
pub open spec fn reflow_height(width: int, cw: int, ch: int, tw: int, th: int) -> int {
    grid_rows(strip_cells(width, cw), reflow_columns(width, cw, ch, tw, th)) * ch
}

/// The pixels of the reflow grid: the strip's cells in the best number of columns.
pub open spec fn reflow_pixels(strip: Raster, cw: int, ch: int, tw: int, th: int) -> Seq<Rgba> {
    let n = strip_cells(strip.width as int, cw);
    grid_pixels(strip, cw, ch, n, best_columns(n, cw, ch, tw, th))
}

/// Number of whole cells `cw` wide in a strip `width` wide.
pub open spec fn strip_cells(width: int, cw: int) -> int {
    if cw == 0 {
        0
    } else {
        width / cw
    }
}

/// Repacks the cells of a one-row strip, each `stamp_w` x `stamp_h`, into the grid whose
/// aspect comes closest to `final_w : final_h`, on a white canvas.
pub fn reflow_grid(
    horizontal_canvas: &Raster,
    final_w: u32,
    final_h: u32,
    stamp_w: u32,
    stamp_h: u32,
) -> (r: Raster)
    requires
        horizontal_canvas.wf(),
        strip_cells(horizontal_canvas.width as int, stamp_w as int) * stamp_h <= u32::MAX,
        horizontal_canvas.width * (strip_cells(horizontal_canvas.width as int, stamp_w as int) * stamp_h) * 4
            <= usize::MAX,
    ensures
        r.wf(),
        r.width == reflow_width(horizontal_canvas.width as int, stamp_w as int, stamp_h as int, final_w as int, final_h as int),
        r.height == reflow_height(horizontal_canvas.width as int, stamp_w as int, stamp_h as int, final_w as int, final_h as int),
        r.width <= horizontal_canvas.width || r.height == 0,
        r.pixels@ == reflow_pixels(*horizontal_canvas, stamp_w as int, stamp_h as int, final_w as int, final_h as int),
{
    let n: u32 = if stamp_w == 0 {
        0
    } else {
        horizontal_canvas.width / stamp_w
    };
    let cols: u32 = choose_columns(n, stamp_w, stamp_h, final_w, final_h);
    let ghost rows = grid_rows(n as int, cols as int);
    proof {
        let (wd, cw, ch) = (horizontal_canvas.width as int, stamp_w as int, stamp_h as int);
        if n > 0 {
            lemma_rows_positive(n as int, cols as int);
            assert(cols * cw <= n * cw && n * cw <= wd) by (nonlinear_arith)
                requires
                    cols <= n,
                    cw > 0,
                    n == wd / cw,
            ;
            assert(rows * ch <= n * ch) by (nonlinear_arith)
                requires
                    rows <= n,
                    ch >= 0,
            ;
            assert(cols * cw * (rows * ch) <= wd * (n * ch)) by (nonlinear_arith)
                requires
                    0 <= cols * cw <= wd,
                    0 <= rows * ch <= n * ch,
            ;
            assert(n == strip_cells(wd, cw));
            assert(wd * (n * ch) <= wd * (n * ch) * 4) by (nonlinear_arith)
                requires
                    wd >= 0,
                    n * ch >= 0,
            ;
        } else {
            assert(rows == 0);
            assert(rows * ch == 0 && cols * cw * (rows * ch) == 0) by (nonlinear_arith)
                requires
                    rows == 0,
            ;
        }
        assert(n * cw <= wd) by (nonlinear_arith)
            requires
                cw == 0 ==> n == 0,
                cw > 0 ==> n == wd / cw,
                wd >= 0,
        ;
    }
    arrange_grid(horizontal_canvas, stamp_w, stamp_h, n, cols)
}

/// Repacks the cells of a one-row strip as `reflow_grid` does, then resamples the grid to
/// exactly `final_w` x `final_h` with a Lanczos3 filter. A grid that already has that size
/// comes out as it is; an empty grid comes out transparent black.
pub fn rearrange_by_flat_pixels(
    horizontal_canvas: &Raster,
    final_w: u32,
    final_h: u32,
    stamp_w: u32,
    stamp_h: u32,
) -> (r: Raster)
    requires
        horizontal_canvas.wf(),
        strip_cells(horizontal_canvas.width as int, stamp_w as int) * stamp_h <= u32::MAX,
        horizontal_canvas.width * (strip_cells(horizontal_canvas.width as int, stamp_w as int) * stamp_h) * 4
            <= usize::MAX,
        horizontal_canvas.width * final_h * 4 <= usize::MAX,
        final_w * final_h * 4 <= usize::MAX,
    ensures
        r.wf(),
        r.width == final_w,
        r.height == final_h,
        ({
            let (wd, cw, ch, tw, th) = (horizontal_canvas.width as int, stamp_w as int, stamp_h as int, final_w as int, final_h as int);
            &&& reflow_width(wd, cw, ch, tw, th) == final_w && reflow_height(wd, cw, ch, tw, th) == final_h
                ==> r.pixels@ == reflow_pixels(*horizontal_canvas, cw, ch, tw, th)
            &&& reflow_width(wd, cw, ch, tw, th) == 0 || reflow_height(wd, cw, ch, tw, th) == 0
                ==> r.pixels@ == Seq::new((final_w * final_h) as nat, |i: int| clear())
        }),
{
    let grid = reflow_grid(horizontal_canvas, final_w, final_h, stamp_w, stamp_h);
    proof {
        if grid.height > 0 {
            assert(grid.width * final_h * 4 <= horizontal_canvas.width * final_h * 4) by (nonlinear_arith)
                requires
                    grid.width <= horizontal_canvas.width,
            ;
        }
    }
    lanczos3_resize(&grid, final_w, final_h)
}

/// Aspect error numerator and row count of `c` columns; see `aspect_gap`.
fn column_error(n: u32, c: u32, cell_w: u32, cell_h: u32, target_w: u32, target_h: u32) -> (r: (u128, u32))
    requires
        1 <= c <= n,
    ensures
        r.0 == aspect_gap(n as int, c as int, cell_w as int, cell_h as int, target_w as int, target_h as int),
        r.1 == grid_rows(n as int, c as int),
        r.0 < 0x1_0000_0000_0000_0000_0000_0000,
{
    proof {
        lemma_rows_positive(n as int, c as int);
    }
    let rows: u32 = ((n as u64 + c as u64 - 1) / c as u64) as u32;
    proof {
        assert(c * cell_w <= 0xffff_ffff * 0xffff_ffff) by (nonlinear_arith)
            requires
                c <= 0xffff_ffff,
                cell_w <= 0xffff_ffff,
        ;
        assert(target_w * rows <= 0xffff_ffff * 0xffff_ffff) by (nonlinear_arith)
            requires
                rows <= 0xffff_ffff,
                target_w <= 0xffff_ffff,
        ;
        assert(c * cell_w * target_h < 0x1_0000_0000_0000_0000_0000_0000) by (nonlinear_arith)
            requires
                c <= 0xffff_ffff,
                cell_w <= 0xffff_ffff,
                target_h <= 0xffff_ffff,
        ;
        assert(target_w * rows * cell_h < 0x1_0000_0000_0000_0000_0000_0000) by (nonlinear_arith)
            requires
                rows <= 0xffff_ffff,
                cell_h <= 0xffff_ffff,
                target_w <= 0xffff_ffff,
        ;
    }
    let wide: u128 = (c as u128) * (cell_w as u128) * (target_h as u128);
    let tall: u128 = (target_w as u128) * (rows as u128) * (cell_h as u128);
    let gap: u128 = if wide >= tall {
        wide - tall
    } else {
        tall - wide
    };
    (gap, rows)
}

} // verus!

verus! {

/// Reflowing is repeatable: two strips with the same size and pixels, reflowed with the
/// same cell size and target, give the same grid, which is what is resampled.
pub proof fn lemma_reflow_repeatable(a: Raster, b: Raster, final_w: int, final_h: int, cw: int, ch: int)
    requires
        a.width == b.width,
        a.height == b.height,
        a.pixels@ == b.pixels@,
    ensures
        reflow_pixels(a, cw, ch, final_w, final_h) == reflow_pixels(b, cw, ch, final_w, final_h),
{
    let n = strip_cells(a.width as int, cw);
    let cols = best_columns(n, cw, ch, final_w, final_h);
    assert(grid_pixels(a, cw, ch, n, cols) =~= grid_pixels(b, cw, ch, n, cols));
}

} // verus!
