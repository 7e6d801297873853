use bigsryai::calibrate::{grow, Calibration, Phase, Step, MAX_PROBES};

const MS: u64 = 1_000_000;

/// Runs a search to its end against renders that take `time(n)`; returns the result
/// and the counts rendered, in order.
fn run(threshold: u64, time: impl Fn(u32) -> u64) -> (u32, Vec<u32>) {
    let mut c = Calibration::new(threshold, u32::MAX);
    let mut seen = Vec::new();
    let mut step = c.next_step();
    loop {
        match step {
            Step::Render(n) => {
                seen.push(n);
                step = c.record(time(n));
            }
            Step::Finished(n) => return (n, seen),
        }
    }
}

#[test]
fn linear_model_ten_ms_per_cell() {
    let (n, _) = run(205 * MS, |n| n as u64 * 10 * MS);
    assert!(n as u64 * 10 * MS <= 205 * MS);
    assert!((n as u64 + 1) * 10 * MS > 205 * MS);
    assert_eq!(n, 20);
}

#[test]
fn end_to_end_five_ms_per_cell() {
    let (n, seen) = run(50 * MS, |n| n as u64 * 5 * MS);
    assert_eq!(n, 10);
    assert_eq!(seen[0], 1);
    assert!(seen.len() < 40);
}

#[test]
fn linear_model_many_thresholds() {
    for unit in [1u64, 3, 7, 1000, 12_345] {
        for k in [1u64, 2, 3, 10, 11, 99, 100, 101, 1234, 99_999] {
            for extra in [0u64, 1, unit / 2, unit - 1] {
                let threshold = k * unit + extra;
                let (n, seen) = run(threshold, |n| n as u64 * unit);
                assert_eq!(n as u64, threshold / unit, "unit {unit} threshold {threshold}");
                assert!(seen.len() <= 40);
            }
        }
    }
}

#[test]
fn first_probe_over_threshold_returns_one() {
    let (n, seen) = run(10, |_| 11);
    assert_eq!(n, 1);
    assert_eq!(seen, vec![1]);
}

#[test]
fn growth_factor_follows_ratio() {
    // ratio 2: ten cells become twenty.
    assert_eq!(grow(10, 100, 50, u32::MAX), 20);
    // ratio 100 / 95 is under 1.1: ten cells become eleven.
    assert_eq!(grow(10, 100, 95, u32::MAX), 11);
    assert_eq!(grow(1, 100, 95, u32::MAX), 2);
    // ratio 3.3: ceil(33.33) = 34.
    assert_eq!(grow(10, 100, 30, u32::MAX), 34);
    // no time measured at all: as far as the count can go.
    assert_eq!(grow(1, 100, 0, u32::MAX), u32::MAX);
    assert_eq!(grow(u32::MAX, 100, 1, u32::MAX), u32::MAX);
    // never past the limit.
    assert_eq!(grow(1, 100, 0, 50), 50);
    assert_eq!(grow(10, 100, 10, 50), 50);
}

#[test]
fn search_stops_at_the_count_limit() {
    let mut c = Calibration::new(1_000_000, 7);
    let mut step = c.next_step();
    let mut seen = Vec::new();
    while let Step::Render(n) = step {
        seen.push(n);
        step = c.record(0);
    }
    assert_eq!(seen, vec![1, 7]);
    assert_eq!(step, Step::Finished(7));
}

#[test]
fn probing_stops_at_the_probe_cap() {
    // Every render stays within the threshold and the count grows by 1.1 only.
    let mut c = Calibration::new(1000, u32::MAX);
    let mut seen = Vec::new();
    let mut step = c.next_step();
    while let Step::Render(n) = step {
        seen.push(n);
        step = c.record(950);
    }
    assert_eq!(seen.len(), MAX_PROBES as usize);
    assert_eq!(step, Step::Finished(*seen.last().unwrap()));
}

#[test]
fn probing_ends_when_count_saturates() {
    let mut c = Calibration::new(u64::MAX, u32::MAX);
    let mut renders = 0;
    let mut step = c.next_step();
    while let Step::Render(n) = step {
        renders += 1;
        step = c.record(u64::MAX / 2 + n as u64);
    }
    assert!(renders <= MAX_PROBES);
    assert_eq!(c.phase, Phase::Done);
    assert_eq!(step, Step::Finished(c.count));
}

#[test]
fn noisy_timings_still_bracket() {
    // Times that are not monotone in the count.
    let time = |n: u32| if n % 3 == 0 { n as u64 * 9 } else { n as u64 * 11 };
    let (n, _) = run(1000, time);
    assert!(time(n) <= 1000);
    assert!(n >= 1);
}

#[test]
fn bisect_phase_starts_between_bounds() {
    let mut c = Calibration::new(100, u32::MAX);
    assert_eq!(c.next_step(), Step::Render(1));
    assert_eq!(c.record(10), Step::Render(10));
    assert_eq!(c.record(1000), Step::Render(5));
    assert_eq!(c.phase, Phase::Bisect);
    assert_eq!((c.lower, c.upper), (1, 10));
}
