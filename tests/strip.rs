use bigsryai::effects::{CellWaves, TILT_ONE};
use bigsryai::raster::{Raster, Rgba};
use bigsryai::render::{compose_strip, default_effects, render_cell, stack_strips};

fn px(v: u8) -> Rgba {
    Rgba { r: v, g: v, b: v, a: 255 }
}

fn solid(w: u32, h: u32, v: u8) -> Raster {
    Raster::filled(w, h, px(v))
}

fn waves(w: u32, h: u32) -> CellWaves {
    CellWaves {
        extrude_dx: vec![1; w as usize],
        extrude_dy: vec![-2; h as usize],
        swirl_dx: vec![2; w as usize],
        swirl_dy: vec![-1; h as usize],
        tilt_cos: TILT_ONE as i32,
        tilt_sin: 0,
    }
}

#[test]
fn strip_size_is_count_times_stamp() {
    let effects = default_effects();
    let stamp = solid(10, 10, 40);
    for n in 0u32..5 {
        let cells: Vec<Raster> = (0..n).map(|i| render_cell(i, &stamp, &waves(10, 10), &effects)).collect();
        let strip = compose_strip(&cells, 10, 10);
        assert_eq!(strip.width, n * 10);
        assert_eq!(strip.height, 10);
        assert_eq!(strip.pixels.len(), (n * 100) as usize);
    }
}

#[test]
fn strip_places_cells_by_index() {
    let cells = vec![solid(2, 3, 1), solid(2, 3, 2), solid(2, 3, 3)];
    let strip = compose_strip(&cells, 2, 3);
    assert_eq!((strip.width, strip.height), (6, 3));
    for y in 0..3u32 {
        for x in 0..6u32 {
            assert_eq!(strip.pixels[(y * 6 + x) as usize], px((x / 2 + 1) as u8));
        }
    }
}

#[test]
fn empty_strip() {
    let strip = compose_strip(&vec![], 7, 4);
    assert_eq!((strip.width, strip.height, strip.pixels.len()), (0, 4, 0));
}

#[test]
fn stacking_pads_narrow_strips_white() {
    let strips = vec![solid(3, 1, 9), solid(1, 2, 5)];
    let r = stack_strips(&strips);
    assert_eq!((r.width, r.height), (3, 3));
    let white = Rgba { r: 255, g: 255, b: 255, a: 255 };
    assert_eq!(r.pixels, vec![px(9), px(9), px(9), px(5), white, white, px(5), white, white]);
}

#[test]
fn stacking_nothing_is_empty() {
    let r = stack_strips(&vec![]);
    assert_eq!((r.width, r.height, r.pixels.len()), (0, 0, 0));
}
