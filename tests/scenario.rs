use bigsryai::calibrate::{Calibration, Step};
use bigsryai::effects::{CellWaves, TILT_ONE};
use bigsryai::raster::{Raster, Rgba};
use bigsryai::reflow::{choose_columns, rearrange_by_flat_pixels};
use bigsryai::render::{compose_strip, default_effects, render_cell};

const MS: u64 = 1_000_000;

#[test]
fn ten_by_ten_stamp_fifty_ms_budget() {
    let stamp = Raster::filled(10, 10, Rgba { r: 30, g: 200, b: 90, a: 255 });
    let effects = default_effects();
    let waves = |_: u32| CellWaves {
        extrude_dx: vec![0; 10],
        extrude_dy: vec![0; 10],
        swirl_dx: vec![0; 10],
        swirl_dy: vec![0; 10],
        tilt_cos: TILT_ONE as i32,
        tilt_sin: 0,
    };
    let render = |n: u32| {
        let cells: Vec<Raster> = (0..n).map(|i| render_cell(i, &stamp, &waves(i), &effects)).collect();
        compose_strip(&cells, 10, 10)
    };

    // Each render is timed, by this model, at 5 ms per cell.
    let mut search = Calibration::new(50 * MS, u32::MAX);
    let mut step = search.next_step();
    let count = loop {
        match step {
            Step::Render(n) => {
                let strip = render(n);
                assert_eq!((strip.width, strip.height), (n * 10, 10));
                step = search.record(n as u64 * 5 * MS);
            }
            Step::Finished(n) => break n,
        }
    };
    assert_eq!(count, 10);

    let strip = render(count);
    assert_eq!((strip.width, strip.height), (100, 10));
    let cols = choose_columns(count, 10, 10, 1920, 1080);
    // Four columns of three rows (4:3) come closest to 16:9; five of two (5:2) overshoot.
    assert_eq!(cols, 4);
    let out = rearrange_by_flat_pixels(&strip, 192, 108, 10, 10);
    assert_eq!((out.width, out.height, out.pixels.len()), (192, 108, 192 * 108));
}
