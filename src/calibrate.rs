use vstd::prelude::*;

verus! {

/// Most renders made in one phase of the search.
pub const MAX_PROBES: u32 = 100;

/// Where the search stands.
#[derive(Clone, Copy, Debug, PartialEq, Eq, Structural)]
pub enum Phase {
    /// Growing the count until a render exceeds the threshold.
    Probe,
    /// Halving the bracket between a count within the threshold and one beyond it.
    Bisect,
    /// Finished; `count` is the result.
    Done,
}

/// What the caller does next.
#[derive(Clone, Copy, Debug, PartialEq, Eq, Structural)]
pub enum Step {
    /// Render this many cells, time the render, and hand the time to `record`.
    Render(u32),
    /// The search is over with this count.
    Finished(u32),
}

/// The search for the largest cell count whose render stays within a time threshold.
/// Times are in nanoseconds.
#[derive(Clone, Copy, Debug)]
pub struct Calibration {
    pub threshold: u64,
    /// The largest count the caller can render.
    pub limit: u32,
    pub phase: Phase,
    /// The count to render next; once `Done`, the result.
    pub count: u32,
    /// The largest count seen within the threshold (once one has been seen).
    pub lower: u32,
    /// In `Bisect`, a count seen beyond the threshold.
    pub upper: u32,
    /// Renders recorded in the current phase.
    pub renders: u32,
}

/// `a / b` rounded up.
pub open spec fn ceil_div(a: int, b: int) -> int {
    (a + b - 1) / b
}

/// The count after `n`, whose render took `d` against threshold `t`: `n` times
/// `max(1.1, t / d)`, rounded up, at most `limit`. A render that took no time at all
/// jumps straight to `limit`.
pub open spec fn grown(n: int, t: int, d: int, limit: int) -> int {
    let g = if d == 0 {
        limit
    } else if 10 * t >= 11 * d {
        ceil_div(n * t, d)
    } else {
        ceil_div(11 * n, 10)
    };
    if g > limit {
        limit
    } else {
        g
    }
}

impl Calibration {
    pub open spec fn wf(&self) -> bool {
        match self.phase {
            Phase::Probe => {
                &&& 1 <= self.count <= self.limit
                &&& self.renders < MAX_PROBES
                &&& self.renders == 0 ==> self.count == 1
                &&& self.renders > 0 ==> 1 <= self.lower < self.count
            },
            Phase::Bisect => {
                &&& 1 <= self.lower
                &&& self.lower + 1 < self.upper <= self.limit
                &&& self.count == (self.lower + self.upper) / 2
                &&& self.renders < MAX_PROBES
            },
            Phase::Done => 1 <= self.count <= self.limit,
        }
    }

    /// The search after a render of `self.count` cells that took `d`.
    pub open spec fn recorded(self, d: int) -> Calibration {
        let t = self.threshold as int;
        match self.phase {
            Phase::Probe => if d > t {
                if self.renders == 0 {
                    Calibration { phase: Phase::Done, count: 1, ..self }
                } else if self.count - self.lower > 1 {
                    Calibration {
                        phase: Phase::Bisect,
                        upper: self.count,
                        count: ((self.lower + self.count) / 2) as u32,
                        renders: 0,
                        ..self
                    }
                } else {
                    Calibration { phase: Phase::Done, upper: self.count, count: self.lower, ..self }
                }
            } else {
                let next = grown(self.count as int, t, d, self.limit as int);
                if self.renders + 1 >= MAX_PROBES || next == self.count {
                    Calibration { phase: Phase::Done, lower: self.count, ..self }
                } else {
                    Calibration {
                        lower: self.count,
                        count: next as u32,
                        renders: (self.renders + 1) as u32,
                        ..self
                    }
                }
            },
            Phase::Bisect => {
                let (l, u) = if d <= t {
                    (self.count, self.upper)
                } else {
                    (self.lower, self.count)
                };
                if u - l <= 1 || self.renders + 1 >= MAX_PROBES {
                    Calibration { phase: Phase::Done, count: l, lower: l, upper: u, ..self }
                } else {
                    Calibration {
                        count: ((l + u) / 2) as u32,
                        lower: l,
                        upper: u,
                        renders: (self.renders + 1) as u32,
                        ..self
                    }
                }
            },
            Phase::Done => self,
        }
    }

    /// A fresh search against `threshold`: probing, one cell first.
    pub open spec fn start(threshold: u64, limit: u32) -> Calibration {
        Calibration { threshold, limit, phase: Phase::Probe, count: 1, lower: 0, upper: 0, renders: 0 }
    }

    pub open spec fn action(&self) -> Step {
        if self.phase == Phase::Done {
            Step::Finished(self.count)
        } else {
            Step::Render(self.count)
        }
    }

    /// A search against `threshold`, whose first render is of one cell.
    pub fn new(threshold: u64, limit: u32) -> (c: Calibration)
        requires
            limit >= 1,
        ensures
            c == Calibration::start(threshold, limit),
            c.wf(),
    {
        Calibration { threshold, limit, phase: Phase::Probe, count: 1, lower: 0, upper: 0, renders: 0 }
    }

    /// What to do next: render `count` cells, or stop with `count`.
    pub fn next_step(&self) -> (s: Step)
        ensures
            s == self.action(),
    {
        if self.phase == Phase::Done {
            Step::Finished(self.count)
        } else {
            Step::Render(self.count)
        }
    }

    /// Takes in the time, in nanoseconds, of the render that `next_step` asked for, and
    /// returns the step after it.
    pub fn record(&mut self, elapsed: u64) -> (s: Step)
        requires
            old(self).wf(),
            old(self).phase != Phase::Done,
        ensures
            *final(self) == old(self).recorded(elapsed as int),
            final(self).wf(),
            s == final(self).action(),
    {
        let t: u64 = self.threshold;
        match self.phase {
            Phase::Probe => {
                if elapsed > t {
                    if self.renders == 0 {
                        self.phase = Phase::Done;
                        self.count = 1;
                    } else if self.count - self.lower > 1 {
                        self.phase = Phase::Bisect;
                        self.upper = self.count;
                        self.count = ((self.lower as u64 + self.count as u64) / 2) as u32;
                        self.renders = 0;
                    } else {
                        self.phase = Phase::Done;
                        self.upper = self.count;
                        self.count = self.lower;
                    }
                } else {
                    let next: u32 = grow(self.count, t, elapsed, self.limit);
                    if self.renders + 1 >= MAX_PROBES || next == self.count {
                        self.phase = Phase::Done;
                        self.lower = self.count;
                    } else {
                        self.lower = self.count;
                        self.count = next;
                        self.renders = self.renders + 1;
                    }
                }
            },
            Phase::Bisect => {
                let (l, u) = if elapsed <= t {
                    (self.count, self.upper)
                } else {
                    (self.lower, self.count)
                };
                if u - l <= 1 || self.renders + 1 >= MAX_PROBES {
                    self.phase = Phase::Done;
                    self.count = l;
                    self.lower = l;
                    self.upper = u;
                } else {
                    self.count = ((l as u64 + u as u64) / 2) as u32;
                    self.lower = l;
                    self.upper = u;
                    self.renders = self.renders + 1;
                }
            },
            Phase::Done => {},
        }
        self.next_step()
    }
}

/// The search after at most `fuel` more renders, each taking `unit` per cell rendered.
pub open spec fn run_linear(s: Calibration, unit: int, fuel: nat) -> Calibration
    decreases fuel,
{
    if fuel == 0 || s.phase == Phase::Done {
        s
    } else {
        run_linear(s.recorded(s.count * unit), unit, (fuel - 1) as nat)
    }
}

pub open spec fn pow2(k: nat) -> int
    decreases k,
{
    if k == 0 {
        1
    } else {
        2 * pow2((k - 1) as nat)
    }
}

/// `s` has finished with the largest count whose render, at `unit` per cell, stays
/// within the threshold.
pub open spec fn finds_boundary(s: Calibration, unit: int) -> bool {
    &&& s.phase == Phase::Done
    &&& s.count * unit <= s.threshold
    &&& s.threshold < (s.count + 1) * unit
}

proof fn lemma_bisect_linear(s: Calibration, unit: int, k: nat, fuel: nat)
    requires
        s.wf(),
        s.phase == Phase::Bisect,
        unit > 0,
        s.lower * unit <= s.threshold < s.upper * unit,
        s.upper - s.lower <= pow2(k),
        s.renders + k <= MAX_PROBES,
        fuel >= k,
    ensures
        finds_boundary(run_linear(s, unit, fuel), unit),
    decreases k,
{
    let (l, u, m) = (s.lower as int, s.upper as int, s.count as int);
    let s2 = s.recorded(m * unit);
    assert(k > 0) by {
        if k == 0 {
            assert(pow2(0) == 1);
        }
    }
    assert(pow2(k) == 2 * pow2((k - 1) as nat));
    let (l2, u2) = if m * unit <= s.threshold {
        (m, u)
    } else {
        (l, m)
    };
    assert(l2 * unit <= s.threshold < u2 * unit);
    assert(u2 - l2 <= pow2((k - 1) as nat));
    assert(l2 < u2);
    assert(run_linear(s, unit, fuel) == run_linear(s2, unit, (fuel - 1) as nat));
    if u2 - l2 <= 1 {
        assert(s2.phase == Phase::Done);
        assert(s2.count == l2);
        assert((l2 + 1) * unit == u2 * unit) by (nonlinear_arith)
            requires
                l2 + 1 == u2,
        ;
    } else {
        if k == 1 {
            assert(pow2(0) == 1);
        }
        assert(s2.phase == Phase::Bisect);
        lemma_bisect_linear(s2, unit, (k - 1) as nat, (fuel - 1) as nat);
    }
}

/// Against renders that take `unit` nanoseconds per cell, a search whose threshold lies
/// between one cell's time and `limit` cells' time finishes within 40 renders with the
/// largest count `n` such that `n * unit <= threshold`.
pub proof fn lemma_linear_calibration(threshold: u64, unit: u64, limit: u32)
    requires
        0 < unit <= threshold,
        threshold < unit * limit,
    ensures
        finds_boundary(run_linear(Calibration::start(threshold, limit), unit as int, 40), unit as int),
{
    let (t, u) = (threshold as int, unit as int);
    let s0 = Calibration::start(threshold, limit);
    reveal_with_fuel(pow2, 33);
    assert(pow2(32) == 0x1_0000_0000);
    let s1 = s0.recorded(u);
    let n1 = grown(1, t, u, limit as int);
    assert(limit >= 2) by (nonlinear_arith)
        requires
            0 < u <= t,
            t < u * limit,
    ;
    if 10 * t >= 11 * u {
        let c = ceil_div(t, u);
        assert(c * u >= t && c >= 2 && c <= limit) by (nonlinear_arith)
            requires
                c == (t + u - 1) / u,
                u > 0,
                10 * t >= 11 * u,
                t < u * limit,
        ;
        assert(n1 == c);
    } else {
        assert(n1 == 2);
    }
    assert(n1 * u >= t) by (nonlinear_arith)
        requires
            n1 >= 2 ==> (10 * t >= 11 * u ==> n1 * u >= t),
            10 * t < 11 * u ==> n1 == 2,
            u > 0,
            n1 >= 2,
    ;
    assert(s1.phase == Phase::Probe && s1.count == n1 && s1.lower == 1 && s1.renders == 1);
    assert(run_linear(s0, u, 40) == run_linear(s1, u, 39));
    let s2 = s1.recorded(n1 * u);
    assert(run_linear(s1, u, 39) == run_linear(s2, u, 38));
    if n1 * u > t {
        if n1 - 1 > 1 {
            assert(s2.phase == Phase::Bisect);
            lemma_bisect_linear(s2, u, 32, 38);
        } else {
            assert(s2.phase == Phase::Done && s2.count == 1);
        }
    } else {
        assert(n1 * u == t);
        let n2 = grown(n1, t, t, limit as int);
        assert(n2 >= n1 + 1 || n2 == n1) by (nonlinear_arith)
            requires
                n2 == (if ceil_div(11 * n1, 10) > limit { limit as int } else { ceil_div(11 * n1, 10) }),
                n1 >= 2,
                n1 <= limit,
        ;
        if n2 == n1 {
            assert(s2.phase == Phase::Done && s2.count == n1);
            assert((n1 + 1) * u > t) by (nonlinear_arith)
                requires
                    n1 * u == t,
                    u > 0,
            ;
        } else {
            assert(s2.phase == Phase::Probe && s2.count == n2 && s2.lower == n1);
            assert(n2 * u > t) by (nonlinear_arith)
                requires
                    n2 >= n1 + 1,
                    n1 * u == t,
                    u > 0,
            ;
            let s3 = s2.recorded(n2 * u);
            assert(run_linear(s2, u, 38) == run_linear(s3, u, 37));
            if n2 - n1 > 1 {
                assert(s3.phase == Phase::Bisect);
                lemma_bisect_linear(s3, u, 32, 37);
            } else {
                assert(s3.phase == Phase::Done && s3.count == n1);
                assert((n1 + 1) * u > t) by (nonlinear_arith)
                    requires
                        n1 * u == t,
                        u > 0,
                ;
            }
        }
    }
}

/// The count after `n` cells took `elapsed` against `threshold`; see `grown`.
pub fn grow(n: u32, threshold: u64, elapsed: u64, limit: u32) -> (r: u32)
    requires
        1 <= n <= limit,
    ensures
        r <= limit,
        r == grown(n as int, threshold as int, elapsed as int, limit as int),
        r >= n,
{
    let g: u128 = if elapsed == 0 {
        limit as u128
    } else if 10 * (threshold as u128) >= 11 * (elapsed as u128) {
        proof {
            assert(n * threshold <= 0xffff_ffff * 0xffff_ffff_ffff_ffff) by (nonlinear_arith)
                requires
                    n <= 0xffff_ffff,
                    threshold <= 0xffff_ffff_ffff_ffff,
            ;
            assert(n * threshold >= n * elapsed) by (nonlinear_arith)
                requires
                    10 * threshold >= 11 * elapsed,
                    n >= 0,
            ;
            let x = n * threshold + elapsed - 1;
            assert(x / (elapsed as int) >= n) by (nonlinear_arith)
                requires
                    elapsed > 0,
                    x >= n * elapsed,
            ;
        }
        let num: u128 = (n as u128) * (threshold as u128);
        (num + elapsed as u128 - 1) / (elapsed as u128)
    } else {
        (11 * (n as u128) + 9) / 10
    };
    if g > limit as u128 {
        limit
    } else {
        g as u32
    }
}

} // verus!
