//! The search for a multiplier, driven with real arithmetic over price paths.

use series_factory::calibrate::{
    count_bars_per_day_from_prices, days_touched, median_sorted, min_pct_clamped_fraction,
    quarantine_clean_days, sort_counts, tick_window, DailyBpdStats, MS_PER_DAY,
};
use series_factory::ieee::Double;
use series_factory::renko;
use series_factory::renko::{RenkoConfig, RenkoGenerator};
use series_factory::solver;
use series_factory::solver::{
    is_accepted, scale_to_target_k, Measurement, Point, Settings, Solver, Span, State,
    RENKO_BPD_ACCEPT_TOL,
};

const K_FLOOR: f64 = 0.05;
const K_MAX_SAFETY: f64 = 1_000_000.0;
const K_BRACKET_LN_EPS: f64 = 0.004988;
const MIN_PCT_CLAMP_MAX_FRAC: f64 = 0.5;

fn d(x: f64) -> Double {
    Double::from_bits(x.to_bits())
}

fn f(x: Double) -> f64 {
    f64::from_bits(x.bits)
}

fn accept_tol() -> f64 {
    f64::from_bits(RENKO_BPD_ACCEPT_TOL)
}

fn median(stats: &DailyBpdStats) -> f64 {
    stats.median_x2 as f64 / 2.0
}

fn snap_to_25_grid(value: f64) -> f64 {
    if value <= 0.0 || !value.is_finite() {
        return value;
    }
    let unit = 10f64.powf(value.log10().floor() - 3.0);
    let (two, five) = (unit * 2.0, unit * 5.0);
    let by_two = (value / two).round() * two;
    let by_five = (value / five).round() * five;
    if (value - by_two).abs() <= (value - by_five).abs() {
        by_two
    } else {
        by_five
    }
}

fn grid_step_for_brick(brick: f64) -> f64 {
    if brick <= 0.0 || !brick.is_finite() {
        return 1.0;
    }
    10f64.powf(brick.log10().floor() - 3.0) * 2.0
}

fn snap_to_grid(price: f64, step: f64) -> f64 {
    if step <= 0.0 {
        return price;
    }
    (price / step).round() * step
}

/// Volatility and the least brick share of a path.
struct Path {
    prices: Vec<(i64, f64)>,
    sigma: f64,
    min_pct: f32,
}

impl Path {
    fn first(&self) -> i64 {
        self.prices[0].0
    }

    fn last(&self) -> i64 {
        self.prices[self.prices.len() - 1].0
    }

    /// Bars that each tick draws at a multiplier.
    fn bars_per_tick(&self, prices: &[(i64, f64)], k: f32) -> Vec<u64> {
        let mut gen = RenkoGenerator::new(RenkoConfig::default()).unwrap();
        let share = (k as f64 * self.sigma).max(self.min_pct as f64);
        let mut out = Vec::new();
        for &(ts, price) in prices {
            gen.feed_tick(ts, d(price));
            let mut bars = 0u64;
            loop {
                let answer = match gen.ask() {
                    renko::Ask::Nothing => break,
                    renko::Ask::Brick { price, .. } => {
                        let size = snap_to_25_grid(f(price) * share);
                        let grid = grid_step_for_brick(size);
                        renko::Answer::Sized {
                            size: d(size),
                            grid: d(grid),
                            snapped: d(snap_to_grid(f(price), grid)),
                        }
                    }
                    renko::Ask::Rung { from, price, up } => {
                        let size = f(gen.brick_size);
                        let grid = f(gen.grid_step);
                        if up {
                            renko::Answer::Stepped {
                                reached: f(price) - f(from) >= size,
                                close: d(snap_to_grid(f(from) + size, grid)),
                            }
                        } else {
                            renko::Answer::Stepped {
                                reached: f(from) - f(price) >= size,
                                close: d(snap_to_grid(f(from) - size, grid)),
                            }
                        }
                    }
                };
                if gen.answer(answer).is_some() {
                    bars += 1;
                }
            }
            out.push(bars);
        }
        out
    }

    fn count(&self, prices: &[(i64, f64)], k: f32) -> DailyBpdStats {
        self.count_between(prices, k, self.first(), self.last())
    }

    fn count_between(&self, prices: &[(i64, f64)], k: f32, first: i64, last: i64) -> DailyBpdStats {
        let ts: Vec<i64> = prices.iter().map(|p| p.0).collect();
        let (lo, hi) = tick_window(&ts, first, last);
        let window = &prices[lo..hi];
        let bars = self.bars_per_tick(window, k);
        let ticks: Vec<(i64, u64)> =
            window.iter().zip(bars).map(|(p, n)| (p.0, n)).collect();
        count_bars_per_day_from_prices(&ticks, first, last)
    }

    fn stats(&self, k: f64) -> DailyBpdStats {
        self.count(&self.prices, k as f32)
    }

    fn clamped(&self, k: f64, from: i64, to: i64) -> (usize, usize) {
        let inside = self.prices.iter().filter(|p| from <= p.0 && p.0 <= to);
        let shares: Vec<Double> = inside.map(|_| d(k * self.sigma)).collect();
        min_pct_clamped_fraction(&shares, d(self.min_pct as f64))
    }
}

struct Calibration {
    target: f64,
    bounds: [f64; 2],
    rounds: usize,
    rolling_window_days: usize,
    min_window_days: usize,
}

fn cal(target: f64) -> Calibration {
    Calibration {
        target,
        bounds: [0.05, 4.0],
        rounds: 12,
        rolling_window_days: 365,
        min_window_days: 7,
    }
}

fn settings(c: &Calibration) -> Settings {
    Settings {
        target: d(c.target),
        accept_tol: d(0.05),
        k_floor: d(K_FLOOR),
        k_max: d(K_MAX_SAFETY),
        k_lo: d(c.bounds[0]),
        k_lo_twice: d(c.bounds[0] * 2.0),
        k_hi_seed: d(c.bounds[1]),
        rounds: c.rounds,
        rolling_window_days: c.rolling_window_days,
        min_window_days: c.min_window_days,
    }
}

fn measurement(k: f64, days: usize, median: f64, c: &Calibration) -> Measurement {
    let step = K_BRACKET_LN_EPS.exp();
    Measurement {
        days,
        median: d(median),
        err: d((median / c.target - 1.0).abs()),
        scaled: d(k * (median / c.target)),
        up: d(k * step),
        down: d(k / step),
        edge: d((k - c.bounds[0]).abs() / c.bounds[0]),
    }
}

fn point(ln: f64) -> Point {
    Point { ln: d(ln), k: d(ln.exp()), twice: d(ln.exp() * 2.0) }
}

/// Answers the questions of a search until it ends; gives the multiplier, or 0.
fn solve(path: &Path, c: &Calibration, prior: Option<f32>) -> f32 {
    let prices: Vec<(i64, Double)> = path.prices.iter().map(|p| (p.0, d(p.1))).collect();
    let mut s = scale_to_target_k(settings(c), &prices, prior.map(|k| d(k as f64)), d(0.5));
    loop {
        let answer = match s.ask() {
            solver::Ask::Nothing => break,
            solver::Ask::Measure { k, from, to } => {
                let stats = path.count_between(&path.prices, f(k) as f32, from, to);
                solver::Answer::Measured {
                    at: measurement(f(k), stats.days, median(&stats), c),
                }
            }
            solver::Ask::Place { k } => solver::Answer::Placed { point: point(f(k).ln()) },
            solver::Ask::Halve { lo, hi } => solver::Answer::Halved {
                mid: point((f(lo.ln) + f(hi.ln)) / 2.0),
                narrow: f(hi.ln) - f(lo.ln) < K_BRACKET_LN_EPS,
            },
            solver::Ask::CountClamped { k, from, to } => {
                let (clamped, samples) = path.clamped(f(k), from, to);
                solver::Answer::Clamped { samples, clamped }
            }
        };
        s.answer(answer);
    }
    match s.outcome() {
        Some(Some(k)) => f(k) as f32,
        _ => 0.0,
    }
}

/// Deterministic numbers in [0, 1).
struct Source(u64);

impl Source {
    fn draw(&mut self) -> f64 {
        self.0 ^= self.0 >> 12;
        self.0 ^= self.0 << 25;
        self.0 ^= self.0 >> 27;
        ((self.0.wrapping_mul(0x2545F4914F6CDD1D) >> 11) as f64) / ((1u64 << 53) as f64)
    }
}

fn synth_gbm_path(n_days: usize, per_day: usize, sigma_step: f64, seed: u64) -> Vec<(i64, f64)> {
    synth_bimodal_path(n_days, per_day, sigma_step, sigma_step, 0, seed)
}

fn synth_bimodal_path(
    n_days: usize,
    per_day: usize,
    calm: f64,
    storm: f64,
    storm_every: usize,
    seed: u64,
) -> Vec<(i64, f64)> {
    let dt_ms = (MS_PER_DAY / per_day as i64).max(1);
    let mut source = Source(seed);
    let mut price = 100.0f64;
    let mut out = Vec::new();
    for day in 0..n_days {
        let step = if storm_every > 0 && day % storm_every == 0 { storm } else { calm };
        for j in 0..per_day {
            price *= (step * (source.draw() - 0.5)).exp();
            let i = (day * per_day + j) as i64;
            out.push((1_700_000_000_000 + i * dt_ms, price));
        }
    }
    out
}

fn downsample_1min_last(prices: &[(i64, f64)]) -> Vec<(i64, f64)> {
    let mut out: Vec<(i64, f64)> = Vec::new();
    for &(ts, mid) in prices {
        match out.last() {
            Some(&(t, _)) if t / 60_000 == ts / 60_000 => {
                let n = out.len();
                out[n - 1] = (ts, mid);
            }
            _ => out.push((ts, mid)),
        }
    }
    out
}

fn path(prices: Vec<(i64, f64)>) -> Path {
    Path { prices, sigma: 0.01, min_pct: 0.0 }
}

#[test]
fn quarantine_drops_gaps_keeps_storms() {
    let per_day = vec![100, 98, 102, 0, 101, 99, 1000, 100, 103, 97];
    let clean = quarantine_clean_days(&per_day, per_day.len()).expect("enough clean days");
    assert_eq!(clean.len(), 9, "only the gap is left out");
    assert!(clean.contains(&1000), "the storm day stays");
    let s = sort_counts(&clean);
    assert_eq!(median_sorted(&s) as f64 / 2.0, 100.0, "the median absorbs the storm day");
}

#[test]
fn quarantine_dead_window_when_too_gappy() {
    let per_day = vec![0, 0, 0, 100, 0, 0, 102, 0, 0, 0];
    assert!(quarantine_clean_days(&per_day, per_day.len()).is_none());
}

#[test]
fn quarantine_all_zero_is_dead() {
    assert!(quarantine_clean_days(&vec![0u64; 7], 7).is_none());
}

#[test]
fn quarantine_objective_is_storms_included_median() {
    let per_day = vec![118u64, 122, 900, 119, 950, 121, 880, 120, 910, 123, 117, 124];
    let clean = quarantine_clean_days(&per_day, per_day.len()).expect("non-empty");
    assert_eq!(clean.len(), 12, "without gaps every day stays");
    let kept_median = median_sorted(&sort_counts(&clean));
    assert_eq!(kept_median, median_sorted(&sort_counts(&per_day)));
    let middle = kept_median as f64 / 2.0;
    let (lo, hi) = (middle / 3.0, middle * 3.0);
    let clipped: Vec<u64> = per_day
        .iter()
        .copied()
        .filter(|&b| (b as f64) >= lo && (b as f64) <= hi)
        .collect();
    assert!(clipped.len() < per_day.len(), "a clip around the median drops the storm days");
}

#[test]
fn full_tick_calibrate_matches_full_tick_apply() {
    let target = 300.0;
    let p = path(synth_gbm_path(40, 4000, 0.006, 0xC0FFEE));
    let k = solve(&p, &cal(target), None);
    assert!(k > 0.0, "a valid multiplier (got {k})");
    let stats = p.count(&p.prices, k);
    let rel_err = (median(&stats) / target - 1.0).abs();
    assert!(rel_err <= accept_tol(), "median {} error {rel_err}", median(&stats));
    let coarse = p.count(&downsample_1min_last(&p.prices), k);
    assert!(median(&coarse) < median(&stats), "one tick a minute draws fewer bars");
}

#[test]
fn storming_ticker_calibrates_on_full_history_median() {
    let target = 300.0;
    let p = path(synth_bimodal_path(40, 4000, 0.0006, 0.0035, 2, 0xB1B0DA1));
    let k = solve(&p, &cal(target), None);
    assert!(k > 0.0, "a storming path calibrates (got {k})");
    assert!(k as f64 >= K_FLOOR);
    let full = p.count(&p.prices, k);
    let rel_err = (median(&full) / target - 1.0).abs();
    assert!(rel_err <= accept_tol(), "median {} error {rel_err}", median(&full));
    let nonzero: Vec<u64> = full.bricks_per_day.iter().copied().filter(|&b| b > 0).collect();
    assert_eq!(full.median_x2, median_sorted(&sort_counts(&nonzero)));
}

#[test]
fn scale_to_target_converges_within_tol_on_gbm() {
    let target = 300.0;
    let p = path(synth_gbm_path(40, 4000, 0.006, 0xC0FFEE));
    let k = solve(&p, &cal(target), Some(0.5));
    assert!(k > 0.0 && k as f64 >= K_FLOOR, "valid multiplier (got {k})");
    let warm = median(&p.count(&p.prices, k));
    assert!((warm / target - 1.0).abs() <= accept_tol(), "median {warm}");
    let k_cold = solve(&p, &cal(target), None);
    let cold = median(&p.count(&p.prices, k_cold));
    assert!((cold / target - 1.0).abs() <= accept_tol(), "median {cold}");
}

#[test]
fn one_over_k_staircase_departs_then_solver_converges() {
    let target = 50.0;
    let mut prices = synth_gbm_path(60, 2000, 0.004, 0xBADC0DE);
    for p in prices.iter_mut() {
        p.1 *= 840.0;
    }
    let p = Path { prices, sigma: 0.01, min_pct: 0.0001 };
    let mb = |k: f64| median(&p.stats(k));
    let k0 = 0.5_f64;
    let (m_k0, m_2k0) = (mb(k0), mb(2.0 * k0));
    assert!(m_k0 > 0.0 && m_2k0 > 0.0, "there are bars");
    let analytic = m_k0 / 2.0;
    let departure = (m_2k0 - analytic).abs() / analytic.max(1.0);
    assert!(departure > 0.0, "the count departs from 1/k ({m_2k0} against {analytic})");
    let k = solve(&p, &cal(target), None);
    assert!(k > 0.0 && k as f64 >= K_FLOOR, "a valid rung (got {k})");
    let err = |kk: f64| (mb(kk) / target - 1.0).abs();
    let step = K_BRACKET_LN_EPS.exp();
    let e0 = err(k as f64);
    assert!(
        e0 <= err(k as f64 * step) + 1e-9 && e0 <= err(k as f64 / step) + 1e-9,
        "no neighbour is closer (error {e0})"
    );
}

#[test]
fn zero_cliff_guard_does_not_runaway_to_k_max() {
    let p = path(synth_gbm_path(40, 4000, 0.00002, 0xDEAD));
    let k = solve(&p, &cal(300.0), Some(2.0));
    assert!(
        k == 0.0 || (k as f64 >= K_FLOOR && (k as f64) < 1000.0),
        "no multiplier, or a sane one (got {k})"
    );
    assert!((k as f64) < K_MAX_SAFETY * 0.001);
}

#[test]
fn too_quiet_series_below_target_at_floor_returns_zero() {
    let p = path(synth_gbm_path(40, 4000, 0.00005, 0xDEAD));
    assert_eq!(solve(&p, &cal(300.0), None), 0.0);
}

#[test]
fn storming_series_above_initial_bracket_auto_expands_upward() {
    let target = 300.0;
    let p = path(synth_gbm_path(40, 4000, 0.012, 0x5704));
    let mut c = cal(target);
    c.bounds = [0.05, 0.5];
    let k = solve(&p, &c, Some(0.05));
    assert!(k > 0.0, "the bracket moves up (got {k})");
    let got = median(&p.count(&p.prices, k));
    assert!((got / target - 1.0).abs() <= accept_tol(), "median {got}");
}

#[test]
fn dead_hi_seed_is_valid_bracket_and_calibrates() {
    let target = 100.0;
    let p = path(synth_gbm_path(40, 4000, 0.0008, 0xC205));
    let k = solve(&p, &cal(target), Some(4.0));
    assert!(k > 0.0, "an end without bars still brackets (got {k})");
    let got = median(&p.count(&p.prices, k));
    assert!((got / target - 1.0).abs() <= accept_tol(), "median {got}");
}

#[test]
fn best_rung_off_target_accepts_closest_k_not_zero() {
    let target = 5.5;
    let p = path(synth_gbm_path(40, 400, 0.0025, 0xFEED));
    let mut c = cal(target);
    c.bounds = [0.05, 0.65];
    let k = solve(&p, &c, None);
    assert!(k > 0.0, "the closest multiplier, not none (got {k})");
    assert!(k as f64 >= K_FLOOR);
    let got = median(&p.count(&p.prices, k));
    assert!((got / target - 1.0).abs() > accept_tol(), "no rung meets the target ({got})");
}

#[test]
fn bpd_accept_gate_threshold_math() {
    let c = cal(300.0);
    let s = settings(&c);
    assert_eq!(accept_tol(), 0.05);
    assert!((33.0_f64 / c.target - 1.0).abs() > accept_tol());
    assert!((290.0_f64 / c.target - 1.0).abs() <= accept_tol());
    assert!((330.0_f64 / c.target - 1.0).abs() > accept_tol());
    assert!(!is_accepted(&s, measurement(0.5, 40, 33.0, &c)));
    assert!(is_accepted(&s, measurement(0.5, 40, 290.0, &c)));
    assert!(!is_accepted(&s, measurement(0.5, 40, 330.0, &c)));
    assert!(!is_accepted(&s, measurement(0.5, 0, 290.0, &c)), "no clean day");
}

#[test]
fn min_pct_clamped_fraction_detector_arithmetic() {
    let sigmas = [0.001, 0.001, 0.001, 0.001, 0.001, 0.001, 0.001, 0.001, 0.02, 0.02];
    let at = |k: f64| -> f64 {
        let shares: Vec<Double> = sigmas.iter().map(|s| d(k * s)).collect();
        let (clamped, samples) = min_pct_clamped_fraction(&shares, d(0.002f32 as f64));
        clamped as f64 / samples as f64
    };
    assert!((at(0.5) - 0.8).abs() < 1e-9);
    assert!(at(0.5) > MIN_PCT_CLAMP_MAX_FRAC);
    assert_eq!(at(10.0), 0.0);
}

#[test]
fn min_pct_clamped_series_is_rejected_end_to_end() {
    let p = Path {
        prices: synth_gbm_path(40, 4000, 0.0005, 0xC0FFEE),
        sigma: 0.0008,
        min_pct: 0.01,
    };
    assert_eq!(solve(&p, &cal(300.0), None), 0.0);
}

/// One price a day, `days` days on from an instant.
fn daily(start: i64, days: i64) -> Vec<(i64, Double)> {
    (0..=days).map(|i| (start + i * MS_PER_DAY, d(100.0 + i as f64))).collect()
}

#[test]
fn searches_without_a_window_or_target_end_at_once() {
    let c = cal(300.0);
    let flat = scale_to_target_k(settings(&c), &daily(5, 0), None, d(0.5));
    assert!(matches!(flat.outcome(), Some(None)));
    let empty = scale_to_target_k(settings(&c), &vec![], None, d(0.5));
    assert!(matches!(empty.outcome(), Some(None)));
    let none = scale_to_target_k(settings(&cal(0.0)), &daily(0, 9), None, d(0.5));
    assert!(matches!(none.outcome(), Some(None)));
    let open = scale_to_target_k(settings(&c), &daily(0, 9), Some(d(0.001)), d(0.5));
    assert!(open.outcome().is_none());
    assert!(matches!(open.ask(), solver::Ask::Measure { k, .. } if f(k) == 0.05));
}

#[test]
fn short_histories_are_not_searched() {
    let s = settings(&cal(300.0));
    let short = scale_to_target_k(s, &daily(0, 5), None, d(0.5));
    assert!(matches!(short.outcome(), Some(None)), "six dates");
    let enough = scale_to_target_k(s, &daily(0, 6), None, d(0.5));
    assert!(enough.outcome().is_none(), "seven dates");
}

#[test]
fn searches_measure_the_trailing_window() {
    let mut c = cal(300.0);
    c.rolling_window_days = 30;
    let all = scale_to_target_k(settings(&c), &daily(1_000, 100), None, d(0.5));
    let (from, to) = (1_000 + 70 * MS_PER_DAY, 1_000 + 100 * MS_PER_DAY);
    assert!(
        matches!(all.ask(), solver::Ask::Measure { k, from: a, to: b } if f(k) == 0.5 && (a, b) == (from, to))
    );
    let young = scale_to_target_k(settings(&c), &daily(1_000, 20), None, d(0.5));
    assert_eq!((young.span.from, young.span.to), (1_000, 1_000 + 20 * MS_PER_DAY));
}

#[test]
fn prices_before_the_window_do_not_change_the_outcome() {
    let mut c = cal(60.0);
    c.rolling_window_days = 20;
    let recent = synth_gbm_path(20, 1000, 0.006, 0xC0FFEE);
    let alone = path(recent.clone());
    let start = recent[0].0;
    let mut older: Vec<(i64, f64)> = (0..5_000)
        .map(|i| (start - (5_000 - i) * 600_000 - MS_PER_DAY, 100.0 + (i % 7) as f64 * 20.0))
        .collect();
    older.extend(recent);
    let longer = path(older);
    let k = solve(&alone, &c, None);
    assert!(k > 0.0, "a multiplier is found (got {k})");
    assert_eq!(solve(&longer, &c, None), k);
    c.rolling_window_days = 365;
    assert_ne!(solve(&longer, &c, None), k, "a longer window holds the older prices");
}

#[test]
fn answers_out_of_turn_change_nothing() {
    let c = cal(300.0);
    let mut s = scale_to_target_k(settings(&c), &daily(0, 9), None, d(0.5));
    s.answer(solver::Answer::Clamped { samples: 1, clamped: 0 });
    s.answer(solver::Answer::Placed { point: point(0.0) });
    assert!(matches!(s.ask(), solver::Ask::Measure { k, .. } if f(k) == 0.5));
}

const SPAN: Span = Span { from: 0, to: 40 * MS_PER_DAY };

/// A search at its last question, about the multiplier 1.
fn responsive() -> Solver {
    Solver { settings: settings(&cal(300.0)), span: SPAN, state: State::Responsive { k: d(1.0) } }
}

#[test]
fn half_of_the_samples_may_be_clamped() {
    let mut s = responsive();
    s.answer(solver::Answer::Clamped { samples: 10, clamped: 5 });
    assert!(matches!(s.outcome(), Some(Some(k)) if f(k) == 1.0));
    let mut s = responsive();
    s.answer(solver::Answer::Clamped { samples: 10, clamped: 6 });
    assert!(matches!(s.outcome(), Some(None)));
}

#[test]
fn multipliers_at_the_lower_bound_are_rejected() {
    let c = cal(300.0);
    let mut s = Solver { settings: settings(&c), span: SPAN, state: State::Examine { k: d(0.0504) } };
    s.answer(solver::Answer::Measured { at: measurement(0.0504, 40, 300.0, &c) });
    assert!(matches!(s.outcome(), Some(None)));
    let mut s = Solver { settings: settings(&c), span: SPAN, state: State::Examine { k: d(0.051) } };
    s.answer(solver::Answer::Measured { at: measurement(0.051, 40, 300.0, &c) });
    assert!(matches!(s.ask(), solver::Ask::CountClamped { k, .. } if f(k) == 0.051));
}

#[test]
fn the_closest_of_three_multipliers_is_kept() {
    let c = cal(300.0);
    let after = |up_median: f64, down_median: f64| -> f64 {
        let mut s = Solver { settings: settings(&c), span: SPAN, state: State::Center { k: d(1.0) } };
        s.answer(solver::Answer::Measured { at: measurement(1.0, 40, 310.0, &c) });
        s.answer(solver::Answer::Measured { at: measurement(1.005, 40, up_median, &c) });
        s.answer(solver::Answer::Measured { at: measurement(0.995, 40, down_median, &c) });
        match s.ask() {
            solver::Ask::Measure { k, .. } => f(k),
            _ => unreachable!(),
        }
    };
    let step = K_BRACKET_LN_EPS.exp();
    assert_eq!(after(305.0, 320.0), 1.0 * step);
    assert_eq!(after(320.0, 305.0), 1.0 / step);
    assert_eq!(after(310.0, 310.0), 1.0);
}

#[test]
fn medians_and_days_of_a_small_window() {
    let day = MS_PER_DAY;
    let ticks = vec![(0, 3), (10, 2), (day, 7), (2 * day, 4), (4 * day, 1)];
    let s = count_bars_per_day_from_prices(&ticks, 0, 4 * day);
    assert_eq!(s.bricks_per_day, vec![5, 7, 4, 0, 1]);
    assert_eq!(s.days, 4);
    assert_eq!(s.median_x2, 9);
    let dead = count_bars_per_day_from_prices(&vec![(0, 3)], 0, 4 * day);
    assert_eq!((dead.days, dead.median_x2), (0, 0));
    assert_eq!(dead.bricks_per_day, vec![3, 0, 0, 0, 0]);
    let none = count_bars_per_day_from_prices(&vec![], 5, 5);
    assert_eq!(none.bricks_per_day.len(), 0);
}

#[test]
fn bricks_are_counted_by_utc_date() {
    let day = MS_PER_DAY;
    let (from, to) = (day - 7_200_000, 3 * day + 1);
    let ticks = vec![(from, 1), (day - 1, 2), (day, 4), (from + day, 8), (2 * day, 16), (to, 32)];
    let s = count_bars_per_day_from_prices(&ticks, from, to);
    assert_eq!(s.bricks_per_day, vec![3, 12, 16, 32]);
    let before = count_bars_per_day_from_prices(&vec![(-1, 5), (0, 7)], -1, day - 1);
    assert_eq!(before.bricks_per_day, vec![5, 7]);
    assert_eq!(days_touched(-1, day - 1), 2);
}

#[test]
fn ticks_outside_the_window_do_not_count() {
    let day = MS_PER_DAY;
    let inside = vec![(day, 3), (2 * day, 5), (3 * day + 5, 4)];
    let mut around = vec![(0, 100), (day - 1, 100)];
    around.extend(inside.iter().copied());
    around.push((3 * day + 6, 100));
    let a = count_bars_per_day_from_prices(&inside, day, 3 * day + 5);
    let b = count_bars_per_day_from_prices(&around, day, 3 * day + 5);
    assert_eq!(a.bricks_per_day, vec![3, 5, 4]);
    assert_eq!(a.bricks_per_day, b.bricks_per_day);
    assert_eq!((a.median_x2, a.days), (8, 3));
    assert_eq!((a.median_x2, a.days), (b.median_x2, b.days));
}

#[test]
fn windows_of_ticks_hold_both_ends() {
    let ts = vec![1, 3, 3, 5, 9];
    assert_eq!(tick_window(&ts, 3, 5), (1, 4));
    assert_eq!(tick_window(&ts, 6, 8), (4, 4));
    assert_eq!(tick_window(&ts, 0, 10), (0, 5));
}

#[test]
fn counts_are_sorted_over_the_whole_range() {
    assert_eq!(sort_counts(&vec![u64::MAX, 0, 1 << 63, 7]), vec![0, 7, 1 << 63, u64::MAX]);
    assert_eq!(median_sorted(&vec![]), 0);
    assert_eq!(median_sorted(&vec![4, 6, 9]), 12);
    assert_eq!(median_sorted(&vec![u64::MAX, u64::MAX]), 2 * u64::MAX as u128);
}
