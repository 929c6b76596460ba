//! The audit of stored series.

use series_factory::audit::index::{
    check_invariants, class_band, count_outliers, daily_ranges, day_labels, eval_invariant, infer_stable,
    is_ranged, longest_flat_run, mid_series, missing_days, scan_gaps, sort_rows, stuck_feed,
    vol_diverges, zero_returns, AssetClass, ClassBand, Defect, GapKind, IdxRow,
    InvariantOutcome, Rules,
};
use series_factory::audit::kline::{
    check_bar, check_rollup_parity, classify_s10_open_delta, day_range, s10_coverage, scan_s10,
    seam_shards, seam_violated, BarDefect, Coverage, Ohlc, RollupDefect, S10Bar, S10Boundary, S10Event,
    S10_BUCKET_MS,
};
use series_factory::audit::messages::{
    reason_message, rollup_message, s10_message, verdict_message, ReasonTexts, RollupTexts,
};
use series_factory::audit::renko::{
    judge_renko, k_envelope, k_plausibility, renko_bpd_off_band, renko_k_stale, seam_pairs,
    tally_bricks, Brick, KPlausibility, RenkoFacts, RenkoFlags, Stamp,
};
use series_factory::audit::ticker::{
    audit_ticker, gather_findings, window_start, Evidence, Scope,
};
use series_factory::audit::verdict::{decide, Findings, Reason, Verdict};
use series_factory::calendar::{missing_dates, Date};
use series_factory::ieee::Double;

const T0: i64 = 1_700_000_000_000;
const DAY: i64 = 86_400_000;
const MIN_PX: f64 = 1e-9;

fn d(x: f64) -> Double {
    Double::from_bits(x.to_bits())
}

fn f(x: Double) -> f64 {
    f64::from_bits(x.bits)
}

fn date(year: i32, month: u32, day: u32) -> Date {
    Date::new(year, month, day).unwrap()
}

fn test_band() -> ClassBand {
    class_band(AssetClass::Default)
}

fn row(bid: f64, ask: f64, spread_bps: f64) -> IdxRow {
    IdxRow {
        ts_ms: T0,
        sentinel: false,
        freshness: false,
        confidence: 1,
        accepted: 1,
        rejected: 0,
        vbid: 100,
        vask: 100,
        bid: d(bid),
        ask: d(ask),
        mid: d((bid + ask) * 0.5),
        spread_bps: d(spread_bps),
    }
}

fn eval(row: &IdxRow) -> InvariantOutcome {
    eval_invariant(row, test_band(), d(MIN_PX))
}

fn reason(o: &InvariantOutcome) -> Option<&'static str> {
    o.reason.map(|r| r.text())
}

#[test]
fn k1_clean_boundary_is_contiguous() {
    let prev_open = 1_700_000_000_000i64;
    let open = prev_open + S10_BUCKET_MS;
    assert_eq!(classify_s10_open_delta(prev_open, open), S10Boundary::Contiguous);
    let prev_close = prev_open + (S10_BUCKET_MS - 1) - 1;
    let close_delta = open - prev_close;
    assert_ne!(close_delta % S10_BUCKET_MS, 0);
    assert_eq!((open - prev_open) % S10_BUCKET_MS, 0);
}

#[test]
fn k1_single_bucket_gap_is_gap() {
    let prev_open = 1_700_000_000_000i64;
    let open = prev_open + 2 * S10_BUCKET_MS;
    assert_eq!(classify_s10_open_delta(prev_open, open), S10Boundary::Gap);
}

#[test]
fn k1_off_grid_open_is_fail() {
    let prev_open = 1_700_000_000_000i64;
    let open = prev_open + S10_BUCKET_MS + 3;
    assert_eq!(classify_s10_open_delta(prev_open, open), S10Boundary::OffGrid);
}

#[test]
fn k1_non_advancing_ignored() {
    let prev_open = 1_700_000_000_000i64;
    assert_eq!(classify_s10_open_delta(prev_open, prev_open), S10Boundary::NonAdvancing);
    assert_eq!(
        classify_s10_open_delta(prev_open, prev_open - S10_BUCKET_MS),
        S10Boundary::NonAdvancing
    );
}

#[test]
fn k1_tolerates_two_milliseconds() {
    assert_eq!(classify_s10_open_delta(0, 10_002), S10Boundary::Contiguous);
    assert_eq!(classify_s10_open_delta(0, 9_998), S10Boundary::Contiguous);
    assert_eq!(classify_s10_open_delta(0, 9_997), S10Boundary::OffGrid);
    assert_eq!(classify_s10_open_delta(0, 19_998), S10Boundary::Gap);
    assert_eq!(classify_s10_open_delta(0, 1), S10Boundary::OffGrid);
    assert_eq!(classify_s10_open_delta(0, 2), S10Boundary::OffGrid);
    assert_eq!(classify_s10_open_delta(0, 10_003), S10Boundary::OffGrid);
}

fn off_band(inferred: f64, target: f64) -> bool {
    renko_bpd_off_band(d(inferred), d(target), d((inferred / target - 1.0).abs()))
}

#[test]
fn r4_uses_per_ticker_target_not_flat() {
    assert!(off_band(300.0, 50.0));
    assert!(!off_band(48.0, 50.0));
    assert!(!off_band(300.0, 300.0));
}

#[test]
fn r4_override_pair_passes_on_per_ticker_target() {
    assert!(!off_band(800.0, 800.0));
    assert!(off_band(800.0, 300.0));
}

#[test]
fn targets_and_counts_that_cannot_be_compared_are_in_band() {
    assert!(!off_band(300.0, 0.0));
    assert!(!off_band(f64::INFINITY, 50.0));
    assert!(!off_band(120.0, 100.0), "a fifth off is in band");
    assert!(off_band(121.0, 100.0));
}

fn stale(used: f64, current: f64) -> bool {
    renko_k_stale(d(used), d(current), d((used / current - 1.0).abs()))
}

/// A calibrated pair whose bricks meet its target.
fn facts() -> RenkoFacts {
    RenkoFacts {
        days: 30,
        looks_stable: false,
        known_stable: false,
        target_resolved: true,
        target_bpd: d(300.0),
        inferred_bpd: d(300.0),
        rel_err: d(0.0),
        median: d(300.0),
        mad: d(20.0),
        half_median: d(150.0),
        third_median: d(99.0),
        min_day: d(200.0),
        k: Some(d(0.075)),
        plausibility: KPlausibility::Sane,
        manifest: None,
        drift: d(f64::NAN),
        current_calibrated_at: None,
    }
}

fn clean() -> RenkoFlags {
    RenkoFlags {
        uncalibrated: false,
        target_unresolved: false,
        bpd_off_band: false,
        dist_drift: false,
        dist_fail: false,
        k_implausible: false,
        k_clamped_warn: false,
        k_stale: false,
        behind_calibration: false,
        provenance_missing: false,
        skipped_stable: false,
    }
}

fn stamped(used: Option<f64>, at: Option<i64>) -> RenkoFacts {
    RenkoFacts {
        manifest: Some(Stamp { k_used: used.map(d), calibrated_at: at }),
        drift: d(used.map_or(f64::NAN, |u| (u / 0.075 - 1.0).abs())),
        current_calibrated_at: Some(1_700_000_500),
        ..facts()
    }
}

#[test]
fn r4_provenance_stale_matching_and_missing() {
    let current_k = 0.075_f64;
    assert!(stale(current_k * 1.20, current_k));
    assert!(!stale(current_k * 1.02, current_k));

    let old = judge_renko(&stamped(Some(current_k * 1.20), Some(1_700_000_000)));
    assert!(old.k_stale);
    let fresh = judge_renko(&stamped(Some(current_k * 1.02), Some(1_700_000_000)));
    assert!(!fresh.k_stale);
    assert!(fresh.behind_calibration, "calibrated again after the build");
    let legacy = judge_renko(&stamped(None, None));
    assert_eq!(legacy, RenkoFlags { provenance_missing: true, ..clean() });
}

#[test]
fn renko_flags_follow_the_facts() {
    assert_eq!(judge_renko(&facts()), clean());
    let mut x = facts();
    x.k = None;
    assert_eq!(judge_renko(&x), RenkoFlags { uncalibrated: true, ..clean() });
    let mut x = facts();
    x.target_resolved = false;
    assert_eq!(judge_renko(&x), RenkoFlags { target_unresolved: true, ..clean() });
    let mut x = facts();
    x.inferred_bpd = d(400.0);
    x.rel_err = d(1.0 / 3.0);
    assert_eq!(judge_renko(&x), RenkoFlags { bpd_off_band: true, ..clean() });
    x.looks_stable = true;
    assert_eq!(judge_renko(&x), RenkoFlags { skipped_stable: true, ..clean() });
    let mut x = facts();
    x.mad = d(151.0);
    assert_eq!(judge_renko(&x), RenkoFlags { dist_drift: true, dist_fail: true, ..clean() });
    x.looks_stable = true;
    assert_eq!(judge_renko(&x), RenkoFlags { dist_drift: true, skipped_stable: true, ..clean() });
    let mut x = facts();
    x.min_day = d(98.0);
    assert!(judge_renko(&x).dist_fail);
    let mut x = facts();
    x.plausibility = KPlausibility::Implausible;
    assert_eq!(judge_renko(&x), RenkoFlags { k_implausible: true, ..clean() });
    x.plausibility = KPlausibility::Pinned;
    assert_eq!(judge_renko(&x), RenkoFlags { k_clamped_warn: true, ..clean() });
    x.known_stable = true;
    assert_eq!(judge_renko(&x), clean());
}

#[test]
fn fix1_fresh_record_no_false_fail() {
    let mut r = row(100.0, 100.1, 0.999_0);
    r.freshness = true;
    r.confidence = 78;
    r.accepted = 6;
    let o = eval(&r);
    assert!(o.reason.is_none());
    assert!(!o.conf_stale);

    let mut legacy = row(100.0, 100.1, 0.999_0);
    legacy.confidence = 200;
    legacy.accepted = 6;
    assert_eq!(reason(&eval(&legacy)), Some("confidence > accepted"));

    r.confidence = 4;
    let o = eval(&r);
    assert!(o.reason.is_none());
    assert!(o.conf_stale);
}

#[test]
fn freshness_is_stale_below_a_twentieth() {
    let mut r = row(100.0, 100.1, 0.999_0);
    r.freshness = true;
    r.confidence = 12;
    assert!(eval(&r).conf_stale);
    r.confidence = 13;
    assert!(!eval(&r).conf_stale);
}

#[test]
fn fix2_subfloor_price_fails() {
    assert_eq!(
        reason(&eval(&row(5e-10, 6e-10, 0.0))),
        Some("bid/ask below price floor (denormal)")
    );
    assert!(eval(&row(100.0, 100.1, 9.99)).reason.is_none());
    assert_eq!(reason(&eval(&row(100.5, 100.0, 0.0))), Some("crossed quote (ask < bid)"));
}

#[test]
fn broken_quotes_are_named() {
    assert_eq!(eval(&row(f64::NAN, 1.0, f64::NAN)).reason, Some(Defect::NonFinite));
    assert_eq!(eval(&row(1.0, f64::INFINITY, f64::NAN)).reason, Some(Defect::NonFinite));
    assert_eq!(eval(&row(0.0, 1.0, f64::NAN)).reason, Some(Defect::BidNotPositive));
    assert_eq!(eval(&row(1.0, -1.0, f64::NAN)).reason, Some(Defect::AskNotPositive));
}

#[test]
fn depth_is_metric_only_never_fails() {
    let mut r = row(100.0, 100.1, 9.99);
    r.vbid = 0;
    r.vask = 0;
    let both = eval(&r);
    assert!(both.reason.is_none());
    assert!(both.zero_depth);
    assert!(!both.depth_one_sided);

    r.vask = 50;
    let bid_side = eval(&r);
    assert!(bid_side.reason.is_none());
    assert!(bid_side.depth_one_sided);
    assert!(!bid_side.zero_depth);

    r.vbid = 10;
    r.vask = 10;
    let ok = eval(&r);
    assert!(!ok.zero_depth && !ok.depth_one_sided);
    assert!(ok.reason.is_none());
}

#[test]
fn reject_dominant_is_warn_not_fail() {
    let mut r = row(100.0, 100.1, 9.99);
    r.accepted = 2;
    r.rejected = 5;
    let dom = eval(&r);
    assert!(dom.reject_dominant);
    assert!(dom.reason.is_none());

    r.accepted = 3;
    r.rejected = 3;
    assert!(!eval(&r).reject_dominant);

    r.accepted = 8;
    r.rejected = 1;
    assert!(!eval(&r).reject_dominant);
}

#[test]
fn wide_spreads_are_counted_but_never_fail() {
    let ceiling = f(test_band().spread_ceiling_bps);
    let wide = eval(&row(100.0, 120.0, ceiling + 1.0));
    assert!(wide.spread_out_of_band);
    assert!(wide.reason.is_none());
    assert!(!eval(&row(100.0, 100.1, ceiling)).spread_out_of_band);
}

#[test]
fn invariants_are_counted_over_a_series() {
    let mut rows = vec![row(100.0, 100.1, 9.99); 3];
    rows[1].accepted = 1;
    rows[1].rejected = 9;
    rows[2] = row(100.5, 100.0, 0.0);
    rows[2].vbid = 0;
    let t = check_invariants(&rows, &Rules { band: test_band(), min_px: d(MIN_PX) });
    assert_eq!(t.violations, 1);
    assert_eq!(t.samples, vec![(2, Defect::Crossed)]);
    assert_eq!((t.accepted, t.rejected), (3, 9));
    assert_eq!((t.zero_depth, t.one_sided, t.reject_dominant), (0, 1, 1));
    assert!(t.reject_rate_warn);

    let many = vec![row(100.5, 100.0, 0.0); 12];
    let t = check_invariants(&many, &Rules { band: test_band(), min_px: d(MIN_PX) });
    assert_eq!((t.violations, t.samples.len()), (12, 10));
    assert!(!t.reject_rate_warn);
}

fn at(ts: i64, sentinel: bool) -> IdxRow {
    let mut r = row(100.0, 100.1, 9.99);
    r.ts_ms = ts;
    r.sentinel = sentinel;
    r
}

#[test]
fn gaps_are_quiet_beside_a_sentinel_and_outages_elsewhere() {
    let rows = vec![
        at(0, false),
        at(100_000, true),
        at(200_000, false),
        at(300_000, false),
        at(310_000, false),
    ];
    let g = scan_gaps(&rows, 90_000, 150_000);
    assert_eq!((g.suspect, g.quiet, g.outage), (3, 2, 1));
    assert_eq!(g.worst.len(), 3);
    assert_eq!((g.worst[0].start_ts, g.worst[0].kind), (0, GapKind::Quiet));
    assert_eq!((g.worst[2].start_ts, g.worst[2].kind), (200_000, GapKind::Outage));
    let silent = vec![at(0, false), at(100_000, false), at(400_000, false)];
    let g = scan_gaps(&silent, 90_000, 150_000);
    assert_eq!((g.quiet, g.outage), (1, 1), "without sentinels a short gap is quiet");
    assert_eq!(g.worst[0].dt_ms, 300_000, "the longest comes first");
}

#[test]
fn only_the_ten_longest_gaps_are_listed() {
    let mut rows = Vec::new();
    let mut ts = 0;
    for i in 0..13 {
        rows.push(at(ts, false));
        ts += 100_000 + i * 1_000;
    }
    let g = scan_gaps(&rows, 90_000, 0);
    assert_eq!((g.suspect, g.worst.len()), (12, 10));
    assert_eq!(g.worst[0].dt_ms, 111_000);
    assert_eq!(g.worst[9].dt_ms, 102_000);
}

#[test]
fn rows_are_sorted_by_time() {
    let sorted = sort_rows(&vec![at(5, false), at(1, true), at(3, false)]);
    let ts: Vec<i64> = sorted.iter().map(|r| r.ts_ms).collect();
    assert_eq!(ts, vec![1, 3, 5]);
    assert!(sorted[0].sentinel);
}

#[test]
fn days_without_a_shard_are_missing() {
    let jan = |day: u32| date(2024, 1, day);
    let midnight = |day: i64| 1_704_067_200_000 + (day - 1) * DAY;
    let rows = vec![at(midnight(2), false), at(midnight(6) + 5, false)];
    let missing = missing_days(&rows, &vec![jan(2), jan(4), jan(6)], jan(1), jan(31));
    assert_eq!(missing, vec![jan(3), jan(5)]);
    let narrow = missing_days(&rows, &vec![jan(2), jan(4), jan(6)], jan(4), jan(5));
    assert_eq!(narrow, vec![jan(5)]);
    assert!(missing_days(&vec![], &vec![], jan(1), jan(31)).is_empty());
    assert_eq!(day_labels(&missing), vec!["2024-01-03", "2024-01-05"]);
    assert_eq!(day_labels(&vec![jan(1); 40]).len(), 30);
}

fn mids(values: &[f64]) -> Vec<(i64, Double)> {
    values.iter().enumerate().map(|(i, &v)| (i as i64, d(v))).collect()
}

#[test]
fn flat_feeds_are_measured() {
    let m = mids(&[1.0, 1.0, 2.0, 2.0, 2.0, 3.0]);
    assert_eq!(zero_returns(&vec![d(0.0), d(0.1), d(-0.0), d(f64::NAN)]), 2);
    assert_eq!(longest_flat_run(&m), 3);
    assert_eq!(longest_flat_run(&vec![]), 0);
    assert!(stuck_feed(100, 100, false));
    assert!(!stuck_feed(99, 100, false));
    assert!(!stuck_feed(100, 100, true));
    assert!(!stuck_feed(0, 0, false));
    assert!(infer_stable(d(0.004), 0, 100));
    assert!(!infer_stable(d(0.006), 95, 100));
    assert!(infer_stable(d(0.006), 96, 100));
    assert!(!infer_stable(d(f64::NAN), 0, 100));
}

#[test]
fn middle_prices_leave_out_sentinels_and_broken_quotes() {
    let mut rows = vec![row(100.0, 100.2, 20.0), at(T0 + 1, true), row(f64::NAN, 1.0, 0.0)];
    rows[2].mid = d(f64::NAN);
    let m = mid_series(&rows);
    assert_eq!(m.len(), 1);
    assert_eq!(f(m[0].1), 100.1);
}

#[test]
fn infinite_targets_and_multipliers_judge_nothing() {
    let inf = f64::INFINITY;
    assert!(!renko_bpd_off_band(d(100.0), d(inf), d(1.0)));
    assert!(renko_bpd_off_band(d(100.0), d(300.0), d(0.7)));
    assert!(!renko_k_stale(d(1.0), d(inf), d(1.0)));
    assert!(renko_k_stale(d(1.0), d(2.0), d(0.5)));
}

#[test]
fn the_last_day_of_the_calendar_can_be_missing() {
    let last = Date::new(262_142, 12, 31).unwrap();
    let before = Date::new(262_142, 12, 30).unwrap();
    assert_eq!(missing_dates(&vec![before], before, last), vec![last]);
    assert!(missing_dates(&vec![last], last, last).is_empty());
}

#[test]
fn stored_volatility_diverges_beyond_a_factor_of_three() {
    assert!(!vol_diverges(d(0.3), d(0.1), d(3.0)));
    assert!(vol_diverges(d(0.31), d(0.1), d(3.1)));
    assert!(vol_diverges(d(0.032), d(0.1), d(0.32)));
    assert!(!vol_diverges(d(0.0), d(0.1), d(0.0)));
    assert!(!vol_diverges(d(0.3), d(0.0), d(f64::INFINITY)));
}

#[test]
fn daily_ranges_and_outliers() {
    let m = vec![(0, d(2.0)), (5, d(1.0)), (DAY, d(7.0)), (DAY + 1, d(9.0))];
    let r = daily_ranges(&m);
    assert_eq!(r.len(), 2);
    assert_eq!((r[0].0, f(r[0].1 .0), f(r[0].1 .1)), (0, 2.0, 1.0));
    assert_eq!((r[1].0, f(r[1].1 .0), f(r[1].1 .1)), (1, 9.0, 7.0));
    assert!(is_ranged(d(2.0), d(1.0)));
    assert!(!is_ranged(d(1.0), d(2.0)));
    assert!(!is_ranged(d(1.0), d(0.0)));
    let (n, worst) = count_outliers(&vec![d(8.0), d(8.1), d(f64::NAN), d(30.0), d(2.0)]);
    assert_eq!((n, f(worst)), (2, 30.0));
}

fn bar(open_ms: i64, o: f64, h: f64, l: f64, c: f64) -> S10Bar {
    S10Bar {
        open_ms,
        close_ms: open_ms + 9_999,
        open: d(o),
        high: d(h),
        low: d(l),
        close: d(c),
        opens_shard: false,
    }
}

fn flat(open_ms: i64) -> S10Bar {
    bar(open_ms, 100.0, 100.0, 100.0, 100.0)
}

#[test]
fn broken_bars_are_named() {
    assert_eq!(check_bar(&flat(0), None), None);
    assert_eq!(check_bar(&bar(0, 1.0, f64::NAN, 1.0, 1.0), None), Some(BarDefect::NonFinite));
    assert_eq!(check_bar(&bar(0, 1.0, 1.0, 2.0, 1.0), None), Some(BarDefect::LowAboveHigh));
    assert_eq!(check_bar(&bar(0, 3.0, 2.0, 1.0, 1.0), None), Some(BarDefect::OpenOutside));
    assert_eq!(check_bar(&bar(0, 1.0, 2.0, 1.0, 3.0), None), Some(BarDefect::CloseOutside));
    let mut late = flat(0);
    late.close_ms = -1;
    assert_eq!(check_bar(&late, None), Some(BarDefect::OpensAfterClose));
    assert_eq!(check_bar(&flat(0), Some(1)), Some(BarDefect::Overlaps));
    assert_eq!(check_bar(&flat(0), Some(0)), None);
}

#[test]
fn bars_are_scanned_in_order() {
    let mut bars = vec![flat(0), flat(10_000), flat(40_000), flat(50_005), flat(60_000)];
    bars[1].opens_shard = true;
    bars[1].close_ms += 2;
    let t = scan_s10(&bars, 10);
    assert_eq!((t.bars, t.violations, t.seams, t.gaps), (5, 1, 1, 1));
    assert_eq!((t.misaligned, t.off_grid), (1, 2));
    assert_eq!(t.samples.len(), 5);
    assert_eq!(t.samples[0], S10Event::Seam { at: 1 });
    assert_eq!(scan_s10(&bars, 2).samples.len(), 2);
    bars[1].opens_shard = false;
    assert_eq!(scan_s10(&bars, 10).seams, 0, "within a shard there is no seam");
}

#[test]
fn closes_on_both_sides_of_a_seam_are_one_bucket_apart() {
    assert!(!seam_violated(9_999, 19_999));
    assert!(!seam_violated(9_999, 20_000));
    assert!(!seam_violated(9_999, 19_998));
    assert!(seam_violated(9_999, 20_001));
    assert!(seam_violated(9_999, 19_997));
    assert!(seam_violated(i64::MIN, i64::MAX));
}

#[test]
fn coverage_is_judged_by_day() {
    assert_eq!(s10_coverage(&vec![]), (Coverage::Unknown, 0));
    let bars = |n: i64| -> Vec<S10Bar> { (0..n).map(|i| flat(i * 10_000)).collect() };
    assert_eq!(s10_coverage(&bars(4_319)), (Coverage::Fail, 1));
    assert_eq!(s10_coverage(&bars(4_320)), (Coverage::Warn, 1));
    assert_eq!(s10_coverage(&bars(6_912)), (Coverage::Full, 1));
    assert_eq!(s10_coverage(&bars(8_641)), (Coverage::Warn, 2));
}

#[test]
fn the_range_of_a_day_spans_its_bars() {
    let (hi, lo) = day_range(&vec![bar(0, 2.0, 4.0, 2.0, 3.0), bar(1, 2.0, 3.0, 1.0, 3.0)]).unwrap();
    assert_eq!((f(hi), f(lo)), (4.0, 1.0));
    assert!(day_range(&vec![]).is_none());
    assert!(day_range(&vec![bar(0, 1.0, f64::NAN, 1.0, 1.0)]).is_none());
}

fn ohlc_row(ts: i64, px: f64, vbid: u64, vask: u64, ticks: u32) -> Ohlc {
    Ohlc {
        ts,
        close_ts: ts + S10_BUCKET_MS - 1,
        open: d(px),
        high: d(px),
        low: d(px),
        close: d(px),
        vbid,
        vask,
        tick_count: ticks,
    }
}

/// One bar out of all the bars of a bucket.
fn rolled(src: &[Ohlc], tf_ms: i64) -> Ohlc {
    let ts = src[0].ts.div_euclid(tf_ms) * tf_ms;
    Ohlc {
        ts,
        close_ts: ts + tf_ms - 1,
        open: src[0].open,
        high: src[0].high,
        low: src[0].low,
        close: src[src.len() - 1].close,
        vbid: src.iter().map(|r| r.vbid).sum(),
        vask: src.iter().map(|r| r.vask).sum(),
        tick_count: src.iter().map(|r| r.tick_count).sum(),
    }
}

#[test]
fn fix3_rollup_parity_clean_src_no_violation() {
    let src: Vec<Ohlc> = (0..6i64)
        .map(|k| {
            let ts = 1_700_000_000_000 + k * S10_BUCKET_MS;
            ohlc_row(ts, 100.0, 10 + k as u64, 20 + k as u64, 1 + k as u32)
        })
        .collect();
    let out = vec![rolled(&src[..4], 60_000), rolled(&src[4..], 60_000)];
    let (viol, samples) = check_rollup_parity(&src, &out, &vec![false, false], 60_000, 10);
    assert_eq!(viol, 0, "a sound source rolls up without findings: {samples:?}");
}

#[test]
fn fix3_rollup_conserves_volume() {
    let src = vec![
        ohlc_row(1_700_000_000_000, 100.0, 5, 7, 2),
        ohlc_row(1_700_000_000_000 + S10_BUCKET_MS, 100.0, 3, 4, 4),
    ];
    let bar = rolled(&src, 60_000);
    assert_eq!((bar.vbid, bar.vask, bar.tick_count), (8, 11, 6));
    let (viol, samples) = check_rollup_parity(&src, &vec![bar], &vec![false], 60_000, 10);
    assert_eq!(viol, 0, "{samples:?}");
}

#[test]
fn rollup_defects_are_named() {
    let src = vec![
        ohlc_row(1_700_000_000_000, 100.0, 5, 7, 2),
        ohlc_row(1_700_000_010_000, 100.0, 3, 4, 4),
    ];
    let good = rolled(&src, 60_000);
    let found = |bar: Ohlc, ci_off: bool| -> Option<RollupDefect> {
        let (n, s) = check_rollup_parity(&src, &vec![bar], &vec![ci_off], 60_000, 10);
        assert_eq!(n as usize, s.len());
        s.first().map(|x| x.1)
    };
    assert_eq!(found(good, false), None);
    let mut b = good;
    b.open = d(f64::NAN);
    assert_eq!(found(b, false), Some(RollupDefect::NonFinite));
    let mut b = good;
    b.high = d(99.0);
    assert_eq!(found(b, false), Some(RollupDefect::HighBelowLow));
    b.low = d(98.0);
    assert_eq!(found(b, false), Some(RollupDefect::HighBelowBody));
    let mut b = good;
    b.high = d(103.0);
    b.low = d(101.0);
    assert_eq!(found(b, false), Some(RollupDefect::LowAboveBody));
    let mut b = good;
    b.ts += 1;
    assert_eq!(found(b, false), Some(RollupDefect::Unaligned));
    let mut b = good;
    b.ts += 60_000;
    assert_eq!(found(b, false), Some(RollupDefect::Phantom));
    let mut b = good;
    b.tick_count += 1;
    assert_eq!(found(b, false), Some(RollupDefect::Ticks));
    let mut b = good;
    b.vbid += 1;
    assert_eq!(found(b, false), Some(RollupDefect::BidVolume));
    let mut b = good;
    b.vask += 1;
    assert_eq!(found(b, false), Some(RollupDefect::AskVolume));
    assert_eq!(found(good, true), Some(RollupDefect::Confidence));
}

#[test]
fn the_last_shard_and_the_one_a_day_older() {
    let d1 = date(2024, 1, 1);
    let d3 = date(2024, 1, 3);
    assert_eq!(seam_shards(&vec![]), (None, None));
    assert_eq!(seam_shards(&vec![d1]), (None, Some(0)));
    assert_eq!(seam_shards(&vec![d1, d3, d3]), (Some(0), Some(2)));
}

fn plausibility(k: f64) -> KPlausibility {
    k_plausibility(d(k), d(0.05), d(4.0), d((k / 4.0 - 1.0).abs()))
}

#[test]
fn fix6_k_plausibility_band() {
    let (lo, hi) = (0.05f64, 4.0f64);
    assert!(!(10.0f64 >= lo && 10.0 <= hi));
    assert_eq!(plausibility(10.0), KPlausibility::Implausible);
    assert!(!(0.001f64 >= lo && 0.001 <= hi));
    assert_eq!(plausibility(0.001), KPlausibility::Implausible);
    let k_mid = 0.334f64;
    assert!(k_mid >= lo && k_mid <= hi);
    assert!((k_mid / hi - 1.0).abs() >= 0.01);
    assert_eq!(plausibility(k_mid), KPlausibility::Sane);
    let k_sol = 3.995f64;
    assert!(k_sol >= lo && k_sol <= hi);
    assert!((k_sol / hi - 1.0).abs() < 0.01);
    assert_eq!(plausibility(k_sol), KPlausibility::Pinned);
}

#[test]
fn envelopes_fall_back_to_fixed_bounds() {
    let (lo, hi) = k_envelope(None);
    assert_eq!((f(lo), f(hi)), (0.01, 4.0));
    let (lo, hi) = k_envelope(Some((d(0.2), d(2.0))));
    assert_eq!((f(lo), f(hi)), (0.2, 2.0));
}

#[test]
fn bricks_are_counted_by_day() {
    let brick = |epoch_day: i64, below_floor: bool| Brick { epoch_day, below_floor };
    let t = tally_bricks(&vec![brick(2, false), brick(1, true), brick(2, false)]);
    assert_eq!((t.bricks, t.min_day, t.floor_violations), (3, 1, 1));
    assert_eq!(t.per_day, vec![(1, 1), (2, 2)]);
    assert_eq!(tally_bricks(&vec![]).min_day, 0);
    assert_eq!(seam_pairs(&vec![0, 3, 0, 0, 2, 1, 0]), vec![(1, 4), (4, 5)]);
}

fn findings() -> Findings {
    Findings {
        records: 10,
        outage_gaps: 0,
        missing_days: 0,
        invariant_violations: 0,
        stuck_feed: false,
        looks_stable: false,
        s10_violations: 0,
        s10_off_grid: 0,
        s10_seams: 0,
        s10_misaligned: 0,
        s10_coverage: Coverage::Full,
        rollup_violations: 0,
        renko_days: 30,
        renko_ratio: d(1.0),
        renko_seam_breaks: 0,
        renko_floor_violations: 0,
        renko: clean(),
    }
}

fn reasons(x: &Findings) -> Vec<Reason> {
    match decide(x) {
        Verdict::Fail(r) => r,
        Verdict::Pass => vec![],
        Verdict::NoData => panic!("there are records"),
    }
}

#[test]
fn verdicts_name_every_reason_in_order() {
    assert!(matches!(decide(&findings()), Verdict::Pass));
    let mut none = findings();
    none.records = 0;
    none.stuck_feed = true;
    assert!(matches!(decide(&none), Verdict::NoData));
    let mut x = findings();
    x.stuck_feed = true;
    x.outage_gaps = 1;
    x.s10_seams = 1;
    assert_eq!(reasons(&x), vec![Reason::Outages, Reason::S10Grid, Reason::StuckFeed]);
}

#[test]
fn every_finding_alone_fails_a_ticker() {
    let one = |change: fn(&mut Findings)| -> Vec<Reason> {
        let mut x = findings();
        change(&mut x);
        reasons(&x)
    };
    assert_eq!(one(|x| x.missing_days = 1), vec![Reason::MissingDays]);
    assert_eq!(one(|x| x.invariant_violations = 1), vec![Reason::Invariants]);
    assert_eq!(one(|x| x.s10_violations = 1), vec![Reason::S10Bars]);
    assert_eq!(one(|x| x.renko_ratio = d(2.1)), vec![Reason::RenkoCadence]);
    assert_eq!(one(|x| x.renko_ratio = d(0.4)), vec![Reason::RenkoCadence]);
    assert_eq!(one(|x| x.renko_seam_breaks = 1), vec![Reason::RenkoSeams]);
    assert_eq!(one(|x| x.renko_floor_violations = 1), vec![Reason::RenkoFloor]);
    assert_eq!(one(|x| x.renko.uncalibrated = true), vec![Reason::RenkoUncalibrated]);
    assert_eq!(one(|x| x.renko.k_stale = true), vec![Reason::RenkoStaleK]);
    assert_eq!(one(|x| x.renko.k_implausible = true), vec![Reason::RenkoImplausibleK]);
    assert_eq!(one(|x| x.renko.bpd_off_band = true), vec![Reason::RenkoOffBand]);
    assert_eq!(one(|x| x.s10_off_grid = 1), vec![Reason::S10Grid]);
    assert_eq!(one(|x| x.s10_misaligned = 1), vec![Reason::S10Misaligned]);
    assert_eq!(one(|x| x.s10_coverage = Coverage::Fail), vec![Reason::S10Coverage]);
    assert_eq!(one(|x| x.renko.dist_fail = true), vec![Reason::RenkoDrift]);
    assert_eq!(one(|x| x.rollup_violations = 1), vec![Reason::Rollup]);
}

#[test]
fn advisory_findings_fail_nothing() {
    let mut x = findings();
    x.s10_coverage = Coverage::Warn;
    x.renko.dist_drift = true;
    x.renko.k_clamped_warn = true;
    x.renko.behind_calibration = true;
    x.renko.provenance_missing = true;
    assert!(matches!(decide(&x), Verdict::Pass));
    x.renko_ratio = d(9.0);
    x.looks_stable = true;
    assert!(matches!(decide(&x), Verdict::Pass));
}

/// Full bars of a calm day, with bricks that meet their target.
fn evidence() -> Evidence {
    let bricks: Vec<Brick> = (0..600i64)
        .map(|i| Brick { epoch_day: i / 300, below_floor: false })
        .collect();
    Evidence {
        moves: vec![d(0.001), d(0.0), d(-0.002)],
        sigma: d(0.6),
        s10: scan_s10(&vec![flat(0), flat(10_000)], 10),
        coverage: Coverage::Full,
        rollup_violations: 0,
        bricks: tally_bricks(&bricks),
        seam_breaks: 0,
        ratio: d(1.0),
        facts: Some(facts()),
    }
}

fn scope() -> Scope {
    Scope {
        max_gap_ms: 120_000,
        quiet_tol_ms: 60_000,
        idx_days: vec![date(2023, 11, 14)],
        from: date(2023, 11, 14),
        to: date(2023, 11, 14),
        rules: Rules { band: test_band(), min_px: d(MIN_PX) },
        known_stable: false,
    }
}

#[test]
fn tickers_are_audited_as_a_whole() {
    let rows = vec![at(T0, false), at(T0 + 1_000, false), at(T0 + 2_000, false)];
    let t = audit_ticker(&rows, &scope(), &evidence());
    assert!(matches!(t.verdict, Verdict::Pass), "{:?}", t.verdict);
    assert_eq!((t.zeros, t.findings.records, t.findings.renko_days), (1, 3, 2));
    assert_eq!(t.findings.renko, judge_renko(&RenkoFacts { days: 2, ..facts() }));
    let late = vec![at(T0, false), at(T0 + 121_000, false)];
    let mut bad = evidence();
    bad.seam_breaks = 4;
    let mut gone = scope();
    gone.idx_days = vec![];
    let t = audit_ticker(&late, &gone, &bad);
    assert_eq!((t.gaps.outage, t.missing.len(), t.findings.renko_seam_breaks), (1, 1, 4));
    match t.verdict {
        Verdict::Fail(r) => {
            assert_eq!(r, vec![Reason::Outages, Reason::MissingDays, Reason::RenkoSeams])
        }
        _ => panic!("three things are wrong"),
    }
    assert!(matches!(audit_ticker(&vec![], &scope(), &evidence()).verdict, Verdict::NoData));
}

#[test]
fn tickers_without_bricks_have_no_flags() {
    let mut e = evidence();
    e.facts = None;
    let f = gather_findings(7, 1, 2, 3, 0, false, &e);
    assert_eq!(f.renko, clean());
    assert_eq!((f.records, f.outage_gaps, f.missing_days, f.invariant_violations), (7, 1, 2, 3));
    e.moves = vec![d(0.0); 2_000];
    let f = gather_findings(7, 0, 0, 0, 2_000, false, &e);
    assert!(f.stuck_feed);
    assert!(!gather_findings(7, 0, 0, 0, 2_000, true, &e).stuck_feed);
}

#[test]
fn sizes_leave_the_verdict_as_it_is() {
    let mut rows: Vec<IdxRow> = (0..50i64).map(|i| at(T0 + i * 9_000, false)).collect();
    rows[20].bid = d(-1.0);
    rows[30].ts_ms += 2_000;
    let mut thin = rows.clone();
    for r in thin.iter_mut() {
        r.vbid = 0;
        r.vask = 0;
    }
    let whole = audit_ticker(&rows, &scope(), &evidence());
    let same = audit_ticker(&thin, &scope(), &evidence());
    assert_eq!((whole.invariants.zero_depth, same.invariants.zero_depth), (0, 50));
    match (whole.verdict, same.verdict) {
        (Verdict::Fail(a), Verdict::Fail(b)) => {
            assert_eq!(a, vec![Reason::Invariants]);
            assert_eq!(a, b);
        }
        _ => panic!("a negative bid fails both"),
    }
}

#[test]
fn findings_on_bars_are_told_with_their_values() {
    let mut bars = vec![flat(0), flat(10_000), flat(20_007)];
    bars[1].close_ms += 2;
    let dates = vec![date(2024, 1, 1), date(2024, 1, 2), date(2024, 1, 3)];
    let said = |e: S10Event| s10_message(e, &bars, &dates);
    assert_eq!(
        said(S10Event::Seam { at: 1 }),
        "[2024-01-02] K1 seam residual 2ms > jitter (close-grid) at shard boundary"
    );
    assert_eq!(
        said(S10Event::Misaligned { at: 2 }),
        "[2024-01-03] K2 off-grid open_ts=20007 (% 10000 = 7)"
    );
    assert_eq!(
        said(S10Event::OffGrid { at: 2 }),
        "[2024-01-03] K1 off-grid boundary: open_ts 20007 - prev_open 10000 = 10007 ms (not mult of 10000)"
    );
    let broken = |defect: BarDefect| said(S10Event::Broken { at: 0, defect });
    assert_eq!(broken(BarDefect::NonFinite), "[2024-01-01] ts=0 non-finite OHLC");
    assert_eq!(broken(BarDefect::LowAboveHigh), "[2024-01-01] ts=0 low > high");
    assert_eq!(broken(BarDefect::OpenOutside), "[2024-01-01] ts=0 open outside [low,high]");
    assert_eq!(broken(BarDefect::CloseOutside), "[2024-01-01] ts=0 close outside [low,high]");
    assert_eq!(broken(BarDefect::OpensAfterClose), "[2024-01-01] ts=0 open_ts > close_ts");
    assert_eq!(
        broken(BarDefect::Overlaps),
        "[2024-01-01] ts=0 overlapping bucket (open_ts < prev close_ts)"
    );
}

#[test]
fn rolled_bars_are_told_with_the_sums_they_miss() {
    let src = vec![ohlc_row(60_000, 100.0, 5, 7, 2), ohlc_row(70_000, 100.0, 3, 4, 4)];
    let mut bar = rolled(&src, 60_000);
    bar.vbid = 9;
    bar.vask = 12;
    bar.tick_count = 7;
    let texts = RollupTexts {
        high: "1".to_string(),
        low: "2".to_string(),
        ci: "3.0000".to_string(),
        want_ci: "4.0000".to_string(),
    };
    let said = |defect: RollupDefect| rollup_message("1m", &src, &bar, 60_000, defect, &texts);
    assert_eq!(said(RollupDefect::NonFinite), "[rollup 1m] ts=60000 non-finite OHLC");
    assert_eq!(said(RollupDefect::HighBelowLow), "[rollup 1m] ts=60000 high 1 < low 2");
    assert_eq!(said(RollupDefect::HighBelowBody), "[rollup 1m] ts=60000 high < max(open,close)");
    assert_eq!(said(RollupDefect::LowAboveBody), "[rollup 1m] ts=60000 low > min(open,close)");
    assert_eq!(
        said(RollupDefect::Unaligned),
        "[rollup 1m] ts=60000 ts 60000 not aligned to 60000"
    );
    assert_eq!(
        said(RollupDefect::Ticks),
        "[rollup 1m] ts=60000 tick_count 7 != Σ src 6 over bucket"
    );
    assert_eq!(
        said(RollupDefect::BidVolume),
        "[rollup 1m] ts=60000 vbid 9 != Σ src 8 over bucket"
    );
    assert_eq!(
        said(RollupDefect::AskVolume),
        "[rollup 1m] ts=60000 vask 12 != Σ src 11 over bucket"
    );
    assert_eq!(
        said(RollupDefect::Confidence),
        "[rollup 1m] ts=60000 ci_ubp(decoded) 3.0000 != tick-weighted Σ mean 4.0000 over bucket"
    );
    assert_eq!(
        said(RollupDefect::Phantom),
        "[rollup 1m] ts=60000 rolled bucket has no source bars"
    );
}

fn reason_texts() -> ReasonTexts {
    ReasonTexts {
        ratio: "2.10".to_string(),
        k_used: None,
        inferred_bpd: "630.0".to_string(),
        target_bpd: "300.0".to_string(),
        coverage: "40.0".to_string(),
        min_day: 12,
        median: "300.0".to_string(),
        zero_return_frac: "0.999".to_string(),
        flat_run: 77,
    }
}

#[test]
fn reasons_are_told_with_their_counts() {
    let mut x = findings();
    x.outage_gaps = 1;
    x.missing_days = 2;
    x.invariant_violations = 3;
    x.s10_violations = 4;
    x.renko_seam_breaks = 5;
    x.renko_floor_violations = 6;
    x.s10_off_grid = 7;
    x.s10_seams = 8;
    x.s10_misaligned = 9;
    x.rollup_violations = 10;
    let said = |r: Reason| reason_message(r, &x, &reason_texts());
    assert_eq!(said(Reason::Outages), "1 OUTAGE gap(s)");
    assert_eq!(said(Reason::MissingDays), "2 missing UTC day(s)");
    assert_eq!(said(Reason::Invariants), "3 invariant violation(s)");
    assert_eq!(said(Reason::S10Bars), "4 s10 OHLC violation(s)");
    assert_eq!(said(Reason::RenkoCadence), "renko bpd off calibration (ratio 2.10)");
    assert_eq!(said(Reason::RenkoSeams), "5 renko cross-shard discontinuity (R1)");
    assert_eq!(said(Reason::RenkoFloor), "6 renko brick(s) below min_pct floor (R3)");
    assert_eq!(
        said(Reason::RenkoUncalibrated),
        "renko uncalibrated: shards exist but no k in ticker-params (R4)"
    );
    assert_eq!(
        said(Reason::RenkoStaleK),
        "renko_k_stale: shards built with k=? but current ticker-params k differs by >5% (R4)"
    );
    assert_eq!(
        said(Reason::RenkoImplausibleK),
        "renko_k_implausible: calibrated k outside sane envelope (FIX #6)"
    );
    assert_eq!(
        said(Reason::RenkoOffBand),
        "renko inferred_bpd 630.0 off target 300.0 by >20% (R4)"
    );
    assert_eq!(said(Reason::S10Grid), "15 s10 off-grid boundary (K1)");
    assert_eq!(said(Reason::S10Misaligned), "9 s10 misaligned bucket(s) (K2)");
    assert_eq!(said(Reason::S10Coverage), "s10 coverage 40.0% < 50% of expected (K3)");
    assert_eq!(
        said(Reason::RenkoDrift),
        "renko per-day drift: min_day 12 / median 300.0 (R2)"
    );
    assert_eq!(said(Reason::Rollup), "10 kline rollup-parity violation(s) (K-rollup)");
    assert_eq!(
        said(Reason::StuckFeed),
        "stuck/flatline feed (zero_return_frac=0.999, longest_flat_run=77)"
    );
}

#[test]
fn verdicts_are_told_with_their_reasons() {
    let mut x = findings();
    let told = |x: &Findings| verdict_message(&decide(x), x, &reason_texts());
    assert_eq!(told(&x), ("PASS".to_string(), vec![]));
    x.outage_gaps = 2;
    x.renko.k_stale = true;
    let mut texts = reason_texts();
    texts.k_used = Some("0.075000".to_string());
    let (word, reasons) = verdict_message(&decide(&x), &x, &texts);
    assert_eq!(word, "FAIL");
    assert_eq!(reasons.len(), 2);
    assert_eq!(reasons[0], "2 OUTAGE gap(s)");
    assert!(reasons[1].starts_with("renko_k_stale: shards built with k=0.075000 but"));
    x.records = 0;
    assert_eq!(told(&x), ("NO_DATA".to_string(), vec![]));
}

#[test]
fn windows_reach_back_from_their_last_day() {
    assert_eq!(window_start(date(2024, 3, 1), 1), Some(date(2024, 2, 29)));
    assert_eq!(window_start(date(2024, 3, 1), 0), Some(date(2024, 3, 1)));
    assert_eq!(window_start(date(2024, 3, 1), -5), Some(date(2024, 3, 1)));
    assert_eq!(window_start(date(2024, 3, 1), i64::MAX), None);
}
