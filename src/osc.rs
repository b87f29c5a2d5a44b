use vstd::prelude::*;

verus! {

/// Fixed-point scale of a sample level: `LEVEL_ONE` stands for 1.0.
pub const LEVEL_ONE: i64 = 65536;

/// Largest period, and largest corrected phase increment, in phase units; it keeps
/// the fixed-point correction within 128-bit arithmetic.
pub const MAX_CYCLE: u64 = 1099511627776;

/// Waveform of an oscillator.
#[derive(Clone, Copy, PartialEq, Eq, Structural, Debug)]
pub enum Mode {
    Sine,
    Saw,
    Square,
}

/// One sample of an oscillator.
///
/// A sine sample is `sin(2π · phase / cycle)`, a real number that the audio side
/// evaluates; the other waveforms are given as a fixed-point level.
#[derive(Clone, Copy, PartialEq, Eq, Structural, Debug)]
pub enum Sample {
    Sine { phase: u64, cycle: u64 },
    Level(i64),
}

/// Phase accumulator: `phase / cycle` is the position within the period, in `[0, 1)`.
#[derive(Clone, Copy, PartialEq, Eq, Structural, Debug)]
pub struct Osc {
    pub mode: Mode,
    pub phase: u64,
    pub cycle: u64,
}

/// Band-limited step correction at distance `t` from a discontinuity of a waveform
/// whose period is `c`, with a window of `d` (the phase increment per sample).
///
/// With `x = t / d`: just after the edge (`t < d`) it is `x + x - x² - 1 = -(1 - x)²`;
/// just before the period's end (`t > c - d`, `x = (t - c) / d`) it is
/// `x² + x + x + 1 = (x + 1)²`; elsewhere zero. The first is rounded away from
/// zero, the second toward it.
pub open spec fn blep(t: int, d: int, c: int) -> int {
    if t < d {
        -((LEVEL_ONE * (d - t) * (d - t) + d * d - 1) / (d * d))
    } else if t > c - d {
        (LEVEL_ONE * (t + d - c) * (t + d - c)) / (d * d)
    } else {
        0
    }
}

/// Ramp from -2 at the start of the period up to 0 at its end: `(t/c - 0.5) * 2 - 1`.
pub open spec fn naive_saw(t: int, c: int) -> int {
    -((2 * LEVEL_ONE * (c - t)) / c)
}

/// `+1` in the first half of the period, `-1` in the second.
pub open spec fn naive_square(t: int, c: int) -> int {
    if 2 * t < c {
        LEVEL_ONE as int
    } else {
        -LEVEL_ONE
    }
}

/// Saw with the step at the period's wrap corrected.
pub open spec fn saw_level(t: int, d: int, c: int) -> int {
    naive_saw(t, c) - blep(t, d, c)
}

/// Square with both edges corrected; the falling edge at half a period is measured
/// on doubled phase units so that it needs no rounding.
pub open spec fn square_level(t: int, d: int, c: int) -> int {
    naive_square(t, c) + blep(2 * t, 2 * d, 2 * c) - blep((2 * t + c) % (2 * c), 2 * d, 2 * c)
}

pub open spec fn sample_of(mode: Mode, t: int, d: int, c: int) -> Sample {
    match mode {
        Mode::Sine => Sample::Sine { phase: t as u64, cycle: c as u64 },
        Mode::Saw => Sample::Level(saw_level(t, d, c) as i64),
        Mode::Square => Sample::Level(square_level(t, d, c) as i64),
    }
}

proof fn lemma_ratio_at_most_one(a: int, b: int)
    requires
        0 <= a <= b,
        0 < b,
    ensures
        0 <= (LEVEL_ONE * a * a) / (b * b) <= LEVEL_ONE,
{
    assert(a * a <= b * b) by (nonlinear_arith)
        requires
            0 <= a <= b,
    ;
    assert(0 <= LEVEL_ONE * a * a <= LEVEL_ONE * (b * b)) by (nonlinear_arith)
        requires
            0 <= a * a <= b * b,
    ;
    assert(b * b > 0) by (nonlinear_arith)
        requires
            0 < b,
    ;
    vstd::arithmetic::div_mod::lemma_div_is_ordered(LEVEL_ONE * a * a, LEVEL_ONE * (b * b), b * b);
    vstd::arithmetic::div_mod::lemma_div_by_multiple(LEVEL_ONE as int, b * b);
    vstd::arithmetic::div_mod::lemma_div_pos_is_pos(LEVEL_ONE * a * a, b * b);
}

proof fn lemma_half_shift(t: int, c: int)
    requires
        0 <= t < c,
    ensures
        (2 * t + c) % (2 * c) == if 2 * t < c { 2 * t + c } else { 2 * t - c },
{
    if 2 * t < c {
        vstd::arithmetic::div_mod::lemma_small_mod((2 * t + c) as nat, (2 * c) as nat);
    } else {
        vstd::arithmetic::div_mod::lemma_mod_add_multiples_vanish(2 * t - c, 2 * c);
        vstd::arithmetic::div_mod::lemma_small_mod((2 * t - c) as nat, (2 * c) as nat);
    }
}

proof fn lemma_ratio_up_at_most_one(a: int, b: int)
    requires
        0 <= a <= b,
        0 < b,
    ensures
        0 <= (LEVEL_ONE * a * a + b * b - 1) / (b * b) <= LEVEL_ONE,
        (LEVEL_ONE * a * a + b * b - 1) / (b * b) * (b * b) >= LEVEL_ONE * a * a,
{
    let n = LEVEL_ONE * a * a + b * b - 1;
    let m = b * b;
    assert(a * a <= b * b && b * b > 0) by (nonlinear_arith)
        requires
            0 <= a <= b,
            0 < b,
    ;
    assert(0 <= LEVEL_ONE * a * a <= LEVEL_ONE * m) by (nonlinear_arith)
        requires
            0 <= a * a <= m,
            m == b * b,
    ;
    vstd::arithmetic::div_mod::lemma_fundamental_div_mod(n, m);
    vstd::arithmetic::div_mod::lemma_mod_bound(n, m);
    let q = n / m;
    assert(0 <= q <= LEVEL_ONE) by (nonlinear_arith)
        requires
            n == m * q + n % m,
            0 <= n % m < m,
            0 <= n < LEVEL_ONE * m + m,
            m > 0,
    ;
    assert(q * m >= LEVEL_ONE * a * a) by (nonlinear_arith)
        requires
            n == m * q + n % m,
            0 <= n % m < m,
            n == LEVEL_ONE * a * a + m - 1,
    ;
}

/// The correction never exceeds one unit of level.
pub proof fn lemma_blep_magnitude(t: int, d: int, c: int)
    requires
        0 <= t < c,
        0 <= d,
    ensures
        -LEVEL_ONE <= blep(t, d, c) <= LEVEL_ONE,
        t < d ==> blep(t, d, c) <= 0,
        t >= d ==> blep(t, d, c) >= 0,
{
    if t < d {
        lemma_ratio_up_at_most_one(d - t, d);
    } else if t > c - d {
        lemma_ratio_at_most_one(t + d - c, d);
    }
}

/// The correction never exceeds one unit of level, is non-positive after the edge
/// and non-negative before the period's end.
pub proof fn lemma_blep_bounds(t: int, d: int, c: int)
    requires
        0 <= t < c,
        0 < d,
        2 * d < c,
    ensures
        -LEVEL_ONE <= blep(t, d, c) <= LEVEL_ONE,
        t < d ==> blep(t, d, c) <= 0,
        t > c - d ==> blep(t, d, c) >= 0,
        d <= t <= c - d ==> blep(t, d, c) == 0,
{
    lemma_blep_magnitude(t, d, c);
}

/// Correction boundedness: for a phase increment in `(0, 1/2)` of a period, the
/// corrected square stays within `[-1, 1]`.
pub proof fn lemma_square_bounded(t: int, d: int, c: int)
    requires
        0 <= t < c,
        0 < d,
        2 * d < c,
    ensures
        -LEVEL_ONE <= square_level(t, d, c) <= LEVEL_ONE,
{
    lemma_half_shift(t, c);
    let u = (2 * t + c) % (2 * c);
    lemma_blep_bounds(2 * t, 2 * d, 2 * c);
    lemma_blep_bounds(u, 2 * d, 2 * c);
}

proof fn lemma_square_completion(c: int, u: int, d: int, m: int)
    ensures
        c * (2 * c * (u * u) - 4 * u * m + 4 * d * m - c * m) == 2 * (c * u - m) * (c * u - m) + m * (4 * c
            * d - c * c - 2 * m),
{
    let a = c * u;
    let m_ccuu = c * (c * (u * u));
    let m_cum = c * (u * m);
    let m_cdm = c * (d * m);
    let m_ccm = c * (c * m);
    let m_mm = m * m;
    assert((a - m) * (a - m) == a * a - 2 * (a * m) + m * m) by (nonlinear_arith);
    assert(a * a == m_ccuu) by (nonlinear_arith)
        requires
            a == c * u,
            m_ccuu == c * (c * (u * u)),
    ;
    assert(a * m == m_cum) by (nonlinear_arith)
        requires
            a == c * u,
            m_cum == c * (u * m),
    ;
    assert(m * (4 * c * d - c * c - 2 * m) == 4 * m_cdm - m_ccm - 2 * m_mm) by (nonlinear_arith)
        requires
            m_cdm == c * (d * m),
            m_ccm == c * (c * m),
            m_mm == m * m,
    ;
    assert(c * (2 * c * (u * u) - 4 * u * m + 4 * d * m - c * m) == 2 * m_ccuu - 4 * m_cum + 4 * m_cdm - m_ccm) by (nonlinear_arith)
        requires
            m_ccuu == c * (c * (u * u)),
            m_cum == c * (u * m),
            m_cdm == c * (d * m),
            m_ccm == c * (c * m),
    ;
    assert(2 * (c * u - m) * (c * u - m) == 2 * ((a - m) * (a - m))) by (nonlinear_arith)
        requires
            a == c * u,
    ;
}

/// Correction boundedness for the saw. The ramp runs from -2 to 0, so the saw stays
/// within `[-3/2, 3/2]` exactly for the increments `d` with `2 (c - d)² <= c²`, that
/// is `d / c >= 1 - 1/√2`; for smaller ones the plain ramp itself goes under -3/2.
pub proof fn lemma_saw_bounded(t: int, d: int, c: int)
    requires
        0 <= t < c,
        0 < d,
        2 * d < c,
        2 * (c - d) * (c - d) <= c * c,
    ensures
        -(3 * LEVEL_ONE) / 2 <= saw_level(t, d, c) <= LEVEL_ONE,
{
    let l = LEVEL_ONE as int;
    let n1 = 2 * l * (c - t);
    vstd::arithmetic::div_mod::lemma_fundamental_div_mod(n1, c);
    vstd::arithmetic::div_mod::lemma_mod_bound(n1, c);
    let q1 = n1 / c;
    assert(c * q1 <= n1 && q1 >= 0) by (nonlinear_arith)
        requires
            n1 == c * q1 + n1 % c,
            0 <= n1 % c < c,
            n1 >= 0,
            c > 0,
    ;
    assert(naive_saw(t, c) == -q1);
    lemma_blep_magnitude(t, d, c);
    let dd = d * d;
    let w = c * dd;
    assert(dd > 0 && w > 0) by (nonlinear_arith)
        requires
            d > 0,
            c > 0,
            dd == d * d,
            w == c * dd,
    ;
    if t < d {
        lemma_ratio_up_at_most_one(d - t, d);
        let u = d - t;
        let e = u * u;
        let q2 = (l * (d - t) * (d - t) + d * d - 1) / (d * d);
        assert(saw_level(t, d, c) == -q1 + q2);
        assert(q2 * dd >= l * e) by (nonlinear_arith)
            requires
                q2 * (d * d) >= l * (d - t) * (d - t),
                dd == d * d,
                e == u * u,
                u == d - t,
        ;
        let k = 2 * c * e - 4 * u * dd + 4 * d * dd - c * dd;
        lemma_square_completion(c, u, d, dd);
        assert(c * k == 2 * (c * u - dd) * (c * u - dd) + dd * (4 * c * d - c * c - 2 * dd));
        assert(4 * c * d - c * c - 2 * dd >= 0) by (nonlinear_arith)
            requires
                dd == d * d,
                2 * (c - d) * (c - d) <= c * c,
        ;
        assert(k >= 0) by (nonlinear_arith)
            requires
                c * k == 2 * (c * u - dd) * (c * u - dd) + dd * (4 * c * d - c * c - 2 * dd),
                4 * c * d - c * c - 2 * dd >= 0,
                dd > 0,
                c > 0,
        ;
        assert(2 * c * (q2 * dd) >= 2 * c * (l * e)) by (nonlinear_arith)
            requires
                q2 * dd >= l * e,
                c > 0,
        ;
        assert(2 * dd * (c * q1) <= 2 * dd * (2 * l * (c - t))) by (nonlinear_arith)
            requires
                c * q1 <= 2 * l * (c - t),
                dd > 0,
        ;
        assert(2 * c * (l * e) == l * (2 * c * e)) by (nonlinear_arith);
        assert(2 * dd * (2 * l * (c - t)) == l * (4 * c * dd - 4 * d * dd + 4 * u * dd)) by (nonlinear_arith)
            requires
                t == d - u,
        ;
        assert(l * (2 * c * e) - l * (4 * c * dd - 4 * d * dd + 4 * u * dd) == l * k - 3 * l * w) by (nonlinear_arith)
            requires
                k == 2 * c * e - 4 * u * dd + 4 * d * dd - c * dd,
                w == c * dd,
        ;
        assert(2 * w * (q2 - q1) == 2 * c * (q2 * dd) - 2 * dd * (c * q1)) by (nonlinear_arith)
            requires
                w == c * dd,
        ;
        assert(l * k >= 0) by (nonlinear_arith)
            requires
                l > 0,
                k >= 0,
        ;
        let x2 = 2 * c * (q2 * dd);
        let x3 = 2 * dd * (c * q1);
        let lk = l * k;
        let lw = l * w;
        assert(x2 - x3 >= lk - 3 * lw);
        assert(2 * w * (q2 - q1) >= -3 * l * w) by (nonlinear_arith)
            requires
                2 * w * (q2 - q1) == x2 - x3,
                x2 - x3 >= lk - 3 * lw,
                lk >= 0,
                lw == l * w,
        ;
        assert(2 * (q2 - q1) >= -3 * l) by (nonlinear_arith)
            requires
                2 * w * (q2 - q1) >= -3 * l * w,
                w > 0,
        ;
    } else if t > c - d {
        let r = c - t;
        let e = (d - r) * (d - r);
        let n3 = l * (t + d - c) * (t + d - c);
        assert(n3 == l * e && e >= 0) by (nonlinear_arith)
            requires
                n3 == l * (t + d - c) * (t + d - c),
                e == (d - r) * (d - r),
                r == c - t,
                l > 0,
        ;
        vstd::arithmetic::div_mod::lemma_fundamental_div_mod(n3, dd);
        vstd::arithmetic::div_mod::lemma_mod_bound(n3, dd);
        let q3 = n3 / dd;
        assert(q3 * dd <= n3) by (nonlinear_arith)
            requires
                n3 == dd * q3 + n3 % dd,
                0 <= n3 % dd,
        ;
        assert(saw_level(t, d, c) == -q1 - q3);
        assert(2 * r * dd + c * e <= c * dd) by (nonlinear_arith)
            requires
                0 < r < d,
                2 * d < c,
                dd == d * d,
                e == (d - r) * (d - r),
        ;
        assert(dd * (c * q1) <= dd * (2 * l * r)) by (nonlinear_arith)
            requires
                c * q1 <= 2 * l * r,
                dd > 0,
        ;
        assert(c * (q3 * dd) <= c * (l * e)) by (nonlinear_arith)
            requires
                q3 * dd <= l * e,
                c > 0,
        ;
        assert(w * (q1 + q3) == dd * (c * q1) + c * (q3 * dd)) by (nonlinear_arith)
            requires
                w == c * dd,
        ;
        assert(dd * (2 * l * r) + c * (l * e) == l * (2 * r * dd + c * e)) by (nonlinear_arith);
        assert(l * (2 * r * dd + c * e) <= l * w) by (nonlinear_arith)
            requires
                2 * r * dd + c * e <= c * dd,
                w == c * dd,
                l > 0,
        ;
        assert(q1 + q3 <= l) by (nonlinear_arith)
            requires
                w * (q1 + q3) <= l * w,
                w > 0,
        ;
    } else {
        assert(4 * (c - d) <= 3 * c) by (nonlinear_arith)
            requires
                2 * (c - d) * (c - d) <= c * c,
                0 < d < c,
        ;
        assert(2 * q1 <= 3 * l) by (nonlinear_arith)
            requires
                c * q1 <= 2 * l * (c - t),
                t >= d,
                4 * (c - d) <= 3 * c,
                c > 0,
                l > 0,
        ;
    }
}

/// Convergence to the uncorrected waveforms: at least one phase increment away
/// from every discontinuity, the corrected saw and square equal the plain ones. So
/// for each phase strictly inside a period (and off the square's middle edge) the
/// correction vanishes once the increment is small enough.
pub proof fn lemma_correction_vanishes(t: int, d: int, c: int)
    requires
        0 < d,
        2 * d < c,
        d <= t <= c - d,
    ensures
        saw_level(t, d, c) == naive_saw(t, c),
        2 * t + 2 * d <= c || c + 2 * d <= 2 * t ==> square_level(t, d, c) == naive_square(t, c),
{
    lemma_blep_bounds(t, d, c);
    lemma_blep_bounds(2 * t, 2 * d, 2 * c);
    lemma_half_shift(t, c);
    let u = (2 * t + c) % (2 * c);
    lemma_blep_bounds(u, 2 * d, 2 * c);
}

fn square_of(a: u128) -> (r: u128)
    requires
        a <= 2 * MAX_CYCLE,
    ensures
        r == a * a,
        r <= 4835703278458516698824704,
        a > 0 ==> r > 0,
{
    proof {
        assert(0 <= a * a <= 4835703278458516698824704) by (nonlinear_arith)
            requires
                0 <= a <= 2199023255552,
        ;
        assert(a > 0 ==> a * a > 0) by (nonlinear_arith);
    }
    a * a
}

/// Correction at phase `t` of a period of `c` units, for a phase increment `d`.
fn poly_blep(t: u128, d: u128, c: u128) -> (r: i64)
    requires
        t < c <= 2 * MAX_CYCLE,
        d <= 2 * MAX_CYCLE,
    ensures
        r == blep(t as int, d as int, c as int),
        -LEVEL_ONE <= r <= LEVEL_ONE,
{
    proof {
        lemma_blep_magnitude(t as int, d as int, c as int);
    }
    if t < d {
        let a = d - t;
        let q = (65536 * square_of(a) + square_of(d) - 1) / square_of(d);
        proof {
            assert(65536 * (a * a) == LEVEL_ONE * a * a) by (nonlinear_arith);
        }
        -(q as i64)
    } else if t + d > c {
        let a = t + d - c;
        let q = (65536 * square_of(a)) / square_of(d);
        proof {
            assert(65536 * (a * a) == LEVEL_ONE * a * a) by (nonlinear_arith);
        }
        q as i64
    } else {
        0
    }
}

impl Osc {
    pub open spec fn wf(&self) -> bool {
        0 < self.cycle <= MAX_CYCLE && self.phase < self.cycle
    }

    /// A fresh oscillator at phase zero, whose period is `cycle` phase units.
    pub fn new(mode: Mode, cycle: u64) -> (r: Osc)
        requires
            0 < cycle <= MAX_CYCLE,
        ensures
            r.wf(),
            r == (Osc { mode, phase: 0, cycle }),
    {
        Osc { mode, phase: 0, cycle }
    }

    /// Produces the sample at the current phase, then advances the phase by
    /// `delta` (the phase increment, `delta / cycle` of a period) modulo the period.
    /// Increments of a period or more alias; the correction of the saw and square
    /// needs `delta <= MAX_CYCLE`.
    pub fn next(&mut self, delta: u64) -> (r: Sample)
        requires
            old(self).wf(),
            old(self).mode == Mode::Sine || delta <= MAX_CYCLE,
        ensures
            final(self).wf(),
            r == sample_of(old(self).mode, old(self).phase as int, delta as int, old(self).cycle as int),
            *final(self) == (Osc { phase: ((old(self).phase + delta) % (old(self).cycle as int)) as u64, ..*old(self) }),
    {
        let t = self.phase;
        let c = self.cycle;
        let out = match self.mode {
            Mode::Sine => Sample::Sine { phase: t, cycle: c },
            Mode::Saw => {
                let ramp = ((2 * 65536 * (c - t) as u128) / c as u128) as i64;
                let corr = poly_blep(t as u128, delta as u128, c as u128);
                proof {
                    assert(2 * LEVEL_ONE * (c - t) <= 2 * LEVEL_ONE * c) by (nonlinear_arith)
                        requires t < c;
                    vstd::arithmetic::div_mod::lemma_div_is_ordered(2 * LEVEL_ONE * (c - t), 2 * LEVEL_ONE * c, c as int);
                    vstd::arithmetic::div_mod::lemma_div_multiples_vanish(2 * LEVEL_ONE as int, c as int);
                }
                Sample::Level(-ramp - corr)
            },
            Mode::Square => {
                let level: i64 = if 2 * (t as u128) < c as u128 { 65536 } else { -65536 };
                let u = (2 * t as u128 + c as u128) % (2 * c as u128);
                let rise = poly_blep(2 * t as u128, 2 * delta as u128, 2 * c as u128);
                let fall = poly_blep(u, 2 * delta as u128, 2 * c as u128);
                Sample::Level(level + rise - fall)
            },
        };
        self.phase = ((t as u128 + delta as u128) % c as u128) as u64;
        out
    }
}

} // verus!
