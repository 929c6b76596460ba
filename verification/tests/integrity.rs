//! Checks on single files.

use series_factory::ieee::Double;
use series_factory::integrity::bars::{
    check_bar_ohlc, check_bars, check_s10, BarFinding, BarIssue, BarRecord, S10Report, KLINE,
    RENKO,
};
use series_factory::integrity::idx::{
    check_idx, distinct_values, idx_stats, jump_baselines, longest_identical_run, Finding,
    IdxIssue, IdxRecord, IdxRules, IdxStats, MAX_ACCEPTED_PROVIDERS, STUCK_MIN_SAMPLE, STUCK_RUN,
};
use series_factory::integrity::messages::{
    bar_message, idx_message, vol_message, BarTexts, IdxTexts,
};
use series_factory::integrity::vol::{check_vol, VolFinding, VolIssue, VolRow, VOL_MAX};
use series_factory::integrity::{
    aligned_len, exit_code, file_kind, frame, summarize, FileCounts, FileKind, Framing,
    IDX_MAX_GAP_MS,
};

/// 2022-01-01, safely in the past.
const T0: i64 = 1_640_995_200_000;
const NOW: i64 = T0 + 86_400_000;
const MIN_PX: f64 = 1e-9;

fn d(x: f64) -> Double {
    Double::from_bits(x.to_bits())
}

fn f(x: Double) -> f64 {
    f64::from_bits(x.bits)
}

fn record(ts_ms: i64, bid: f64, ask: f64, ci_price: f64) -> IdxRecord {
    let mid = (bid + ask) * 0.5;
    IdxRecord {
        is_index: true,
        ts_ms,
        sentinel: false,
        freshness: false,
        confidence: 1,
        accepted: 1,
        bid: d(bid),
        ask: d(ask),
        valid: true,
        mid: d(mid),
        spread_bps: d((ask - bid) / mid * 10_000.0),
        spread_inconsistent: false,
        ci_price: d(ci_price),
        ci_limit: d(mid * 0.01),
        ci_ratio: d(ci_price / mid),
    }
}

fn good_record(ts_ms: i64, bid: f64, ask: f64) -> IdxRecord {
    record(ts_ms, bid, ask, 0.01)
}

fn fresh_record(ts_ms: i64, bid: f64, ask: f64, conf_byte: u8) -> IdxRecord {
    IdxRecord { freshness: true, confidence: conf_byte, ..good_record(ts_ms, bid, ask) }
}

fn sentinel_record(ts_ms: i64, bid: f64, ask: f64) -> IdxRecord {
    IdxRecord { sentinel: true, ..good_record(ts_ms, bid, ask) }
}

struct Report {
    errors: Vec<Finding>,
    warnings: Vec<Finding>,
}

fn check(records: &[IdxRecord], strict: bool) -> Report {
    let records: Vec<IdxRecord> = records.to_vec();
    let from = jump_baselines(&records, d(MIN_PX));
    let jumps: Vec<Double> = records
        .iter()
        .zip(from)
        .map(|(r, j)| {
            d(j.map_or(0.0, |j| (f(r.mid) - f(records[j].mid)).abs() / f(records[j].mid)))
        })
        .collect();
    let ratios: Vec<f64> = records.iter().map(|r| f(r.ci_ratio)).collect();
    let mean = ratios.iter().sum::<f64>() / ratios.len() as f64;
    let rules = IdxRules { min_px: d(MIN_PX), now_ms: NOW, strict };
    let (errors, warnings) = check_idx(&records, &jumps, &rules, d(mean));
    Report { errors, warnings }
}

fn has_err(r: &Report, issue: IdxIssue) -> bool {
    r.errors.iter().any(|x| x.issue == issue)
}

fn has_warn(r: &Report, issue: IdxIssue) -> bool {
    r.warnings.iter().any(|x| x.issue == issue)
}

fn stuck(findings: &[Finding]) -> bool {
    findings
        .iter()
        .any(|x| x.issue == IdxIssue::StuckRun || x.issue == IdxIssue::FewDistinctMids)
}

#[test]
fn g1_subfloor_price_is_error() {
    let r = check(&[good_record(T0, 5e-10, 6e-10)], false);
    assert!(has_err(&r, IdxIssue::BidBelowFloor));
    assert!(has_err(&r, IdxIssue::AskBelowFloor));
}

#[test]
fn g1_normal_price_no_floor_error() {
    let r = check(&[good_record(T0, 100.0, 100.1)], false);
    assert!(!has_err(&r, IdxIssue::BidBelowFloor));
    assert!(!has_err(&r, IdxIssue::AskBelowFloor));
}

#[test]
fn g6_min_mts_does_not_false_fail() {
    let epoch_2010 = 1_262_304_000_000;
    let r = check(&[good_record(epoch_2010, 100.0, 100.1)], false);
    assert!(!has_err(&r, IdxIssue::OutsideEpoch));
}

#[test]
fn g6_future_ts_is_error() {
    let r = check(&[good_record(NOW + 86_400_000, 100.0, 100.1)], false);
    assert!(has_err(&r, IdxIssue::OutsideEpoch));
}

#[test]
fn clocks_may_run_ahead_by_five_minutes() {
    let r = check(&[good_record(NOW + 300_000, 100.0, 100.1)], false);
    assert!(!has_err(&r, IdxIssue::OutsideEpoch));
    let r = check(&[good_record(NOW + 300_001, 100.0, 100.1)], false);
    assert!(has_err(&r, IdxIssue::OutsideEpoch));
    let r = check(&[good_record(946_684_799_999, 100.0, 100.1)], false);
    assert!(has_err(&r, IdxIssue::OutsideEpoch));
}

#[test]
fn g8_absurd_accepted_is_error() {
    let mut rec = good_record(T0, 100.0, 100.1);
    rec.accepted = MAX_ACCEPTED_PROVIDERS + 1;
    assert!(has_err(&check(&[rec], false), IdxIssue::TooManyProviders));
    rec.accepted = MAX_ACCEPTED_PROVIDERS;
    assert!(!has_err(&check(&[rec], false), IdxIssue::TooManyProviders));
}

#[test]
fn g5_jump_warns_default_errors_strict() {
    let recs = [good_record(T0, 99.95, 100.05), good_record(T0 + 1_000, 119.95, 120.05)];
    let r = check(&recs, false);
    assert!(has_warn(&r, IdxIssue::Jump));
    assert!(!has_err(&r, IdxIssue::Jump));
    let r2 = check(&recs, true);
    assert!(has_err(&r2, IdxIssue::Jump));
}

#[test]
fn g5_small_move_no_jump() {
    let recs = [good_record(T0, 100.0, 100.1), good_record(T0 + 1_000, 100.5, 100.6)];
    assert!(!has_warn(&check(&recs, false), IdxIssue::Jump));
}

#[test]
fn g3_wide_ci_warns_default_errors_strict() {
    let rec = record(T0, 100.0, 100.1, 40.0);
    assert!(has_warn(&check(&[rec], false), IdxIssue::WideInterval));
    let strict = check(&[rec], true);
    assert!(has_err(&strict, IdxIssue::WideInterval));
    assert!(has_err(&strict, IdxIssue::MeanInterval));
}

fn vol_record(ts_ms: i64, sigma_pct: f64) -> VolRow {
    VolRow { mts: (ts_ms as u64) << 4, ts_ms, sigma_pct: d(sigma_pct) }
}

fn vol_issues(found: &[VolFinding]) -> Vec<VolIssue> {
    found.iter().map(|x| x.issue).collect()
}

#[test]
fn vol_absurd_sigma_is_error() {
    let r = check_vol(&vec![vol_record(T0, f64::from_bits(VOL_MAX) + 1.0)], NOW);
    assert!(vol_issues(&r.errors).contains(&VolIssue::Absurd));
}

#[test]
fn vol_normal_sigma_ok() {
    let r = check_vol(&vec![vol_record(T0, 0.02), vol_record(T0 + 1_000, 0.03)], NOW);
    assert!(r.errors.is_empty());
    assert_eq!((f(r.min_sigma), f(r.max_sigma)), (0.02, 0.03));
}

#[test]
fn every_volatility_issue_has_its_input() {
    let issues = |rows: &[VolRow]| vol_issues(&check_vol(&rows.to_vec(), NOW).errors);
    assert_eq!(issues(&[vol_record(T0, f64::NAN)]), vec![VolIssue::NonFinite]);
    assert_eq!(issues(&[vol_record(T0, -0.1)]), vec![VolIssue::Absurd]);
    assert_eq!(issues(&[vol_record(T0, 0.6)]), vec![VolIssue::OutsideRange]);
    assert_eq!(issues(&[vol_record(NOW * 2, 0.1)]), vec![VolIssue::OutsideEpoch]);
    assert_eq!(
        issues(&[vol_record(T0, 0.1), vol_record(T0, 0.1)]),
        vec![VolIssue::NotIncreasing]
    );
}

#[test]
fn g9_frozen_feed_warns_default_errors_strict() {
    let recs: Vec<IdxRecord> =
        (0..STUCK_RUN + 1).map(|i| good_record(T0 + i as i64 * 100, 100.0, 100.1)).collect();
    let r = check(&recs, false);
    assert!(stuck(&r.warnings));
    assert!(!stuck(&r.errors));
    assert!(stuck(&check(&recs, true).errors));
}

#[test]
fn g9_clean_moving_feed_no_stuck() {
    let recs: Vec<IdxRecord> = (0..STUCK_RUN + 50)
        .map(|i| {
            let drift = 100.0 + i as f64 * 0.01;
            good_record(T0 + i as i64 * 100, drift, drift + 0.1)
        })
        .collect();
    assert!(!stuck(&check(&recs, false).warnings));
    assert!(!stuck(&check(&recs, true).errors));
}

#[test]
fn g9_small_constant_sample_no_false_fail() {
    let recs: Vec<IdxRecord> =
        (0..32).map(|i| good_record(T0 + i as i64 * 100, 100.0, 100.1)).collect();
    let r = check(&recs, true);
    assert!(!stuck(&r.errors));
    assert!(!stuck(&r.warnings));
}

#[test]
fn feeds_that_alternate_between_few_quotes_are_stuck() {
    let recs: Vec<IdxRecord> = (0..STUCK_MIN_SAMPLE)
        .map(|i| good_record(T0 + i as i64 * 100, 100.0 + (i % 2) as f64, 101.5))
        .collect();
    let r = check(&recs, false);
    assert!(has_warn(&r, IdxIssue::FewDistinctMids));
    assert!(!has_warn(&r, IdxIssue::StuckRun));
}

#[test]
fn fix7_sentinel_dense_no_false_stuck() {
    let mut recs: Vec<IdxRecord> = Vec::new();
    let mut t = T0;
    for k in 0..STUCK_MIN_SAMPLE + 50 {
        let px = 100.0 + k as f64 * 0.001;
        recs.push(good_record(t, px, px + 0.1));
        t += 100;
        for _ in 0..5 {
            recs.push(sentinel_record(t, px, px + 0.1));
            t += 100;
        }
    }
    let r = check(&recs, true);
    assert!(!stuck(&r.errors));
    assert!(!stuck(&r.warnings));
}

#[test]
fn fix7_all_sentinels_no_stuck_verdict() {
    let recs: Vec<IdxRecord> = (0..STUCK_RUN + 10)
        .map(|i| sentinel_record(T0 + i as i64 * 100, 100.0, 100.1))
        .collect();
    let r = check(&recs, true);
    assert!(!stuck(&r.errors));
    assert!(!stuck(&r.warnings));
}

#[test]
fn fix7_jump_across_gap_suppressed() {
    let recs = [
        good_record(T0, 99.95, 100.05),
        good_record(T0 + IDX_MAX_GAP_MS * 2, 119.95, 120.05),
    ];
    let r = check(&recs, false);
    assert!(!has_warn(&r, IdxIssue::Jump));
    assert!(has_warn(&r, IdxIssue::Gap));
}

#[test]
fn fix7_sentinel_not_jump_baseline() {
    let mut recs = vec![good_record(T0, 100.0, 100.1)];
    for k in 1..=5 {
        recs.push(sentinel_record(T0 + k * 100, 100.0, 100.1));
    }
    recs.push(good_record(T0 + 600, 105.0, 105.1));
    assert_eq!(jump_baselines(&recs, d(MIN_PX))[6], Some(0));
    assert!(!has_warn(&check(&recs, false), IdxIssue::Jump));
}

#[test]
fn fix8_crossed_quote_explicit_error() {
    assert!(has_err(&check(&[good_record(T0, 100.5, 100.0)], false), IdxIssue::Crossed));
}

#[test]
fn g4_stale_freshness_warns_default_errors_strict() {
    let rec = fresh_record(T0, 100.0, 100.1, 0);
    assert!(has_warn(&check(&[rec], false), IdxIssue::StaleConfidence));
    assert!(has_err(&check(&[rec], true), IdxIssue::StaleConfidence));
}

#[test]
fn g4_fresh_or_legacy_no_false_fail() {
    for rec in [fresh_record(T0, 100.0, 100.1, 255), good_record(T0, 100.0, 100.1)] {
        let r = check(&[rec], true);
        assert!(!has_err(&r, IdxIssue::StaleConfidence));
        assert!(!has_warn(&r, IdxIssue::StaleConfidence));
    }
}

#[test]
fn structural_issues_are_errors_in_either_mode() {
    let mut a = good_record(T0, 100.0, 100.1);
    a.is_index = false;
    let mut b = good_record(T0 - 1, 100.0, 100.1);
    b.valid = false;
    let mut c = good_record(T0, 100.0, 100.1);
    c.spread_inconsistent = true;
    for strict in [false, true] {
        let r = check(&[a, b, c], strict);
        let found: Vec<(Option<usize>, IdxIssue)> =
            r.errors.iter().map(|x| (x.record, x.issue)).collect();
        assert_eq!(
            found,
            vec![
                (Some(0), IdxIssue::NotIndex),
                (Some(1), IdxIssue::BackInTime),
                (Some(1), IdxIssue::Invalid),
                (Some(2), IdxIssue::SpreadInconsistent),
            ]
        );
    }
}

#[test]
fn strict_checks_look_at_the_spreads_of_the_file() {
    let recs: Vec<IdxRecord> = (0..200)
        .map(|i| {
            let half = if i == 0 { 3.0 } else { 0.05 };
            good_record(T0 + i * 100, 100.0 - half, 100.0 + half)
        })
        .collect();
    assert!(has_err(&check(&recs, true), IdxIssue::WideSpreads));
    assert!(!has_err(&check(&recs, false), IdxIssue::WideSpreads));
    assert!(!has_err(&check(&recs[1..], true), IdxIssue::WideSpreads));
}

#[test]
fn runs_and_distinct_values() {
    assert_eq!(longest_identical_run(&vec![]), 0);
    assert_eq!(longest_identical_run(&vec![1, 2, 2, 2, 1, 1]), 3);
    assert_eq!(distinct_values(&vec![1, 2, 2, 2, 1, 3]), 3);
}

fn s10_bar(open_ms: i64, close_ms: i64, px: f64) -> BarRecord {
    BarRecord {
        kind: KLINE,
        open_ts_ms: open_ms,
        close_ts_ms: close_ms,
        open: d(px),
        high: d(px),
        low: d(px),
        close: d(px),
        realized_var: d(0.0),
        bipower_var: d(0.0),
        discontinuous: false,
        brick_below_floor: false,
        abs_drift: d(0.0),
        imbalance_out: false,
        avg_spread_bps: d(0.0),
        max_abs_return: d(0.0),
    }
}

fn s10(bars: &[BarRecord]) -> S10Report {
    check_s10(&bars.to_vec(), false, 10_000, d(0.0), d(0.0))
}

fn bar_issues(found: &[BarFinding]) -> Vec<BarIssue> {
    found.iter().map(|x| x.issue).collect()
}

#[test]
fn k2_s10_misaligned_open_is_error() {
    let off = T0 + 3_000;
    let r = s10(&[s10_bar(off, off + 10_000, 100.0)]);
    assert!(bar_issues(&r.errors).contains(&BarIssue::OffGrid));
}

#[test]
fn k2_s10_aligned_open_no_error() {
    let r = s10(&[
        s10_bar(T0, T0 + 10_000, 100.0),
        s10_bar(T0 + 10_000, T0 + 20_000, 100.0),
    ]);
    assert!(!bar_issues(&r.errors).contains(&BarIssue::OffGrid));
    assert!(r.errors.is_empty());
    assert_eq!(r.n_kline, 2);
}

#[test]
fn ten_second_bars_miss_buckets_or_break_their_spacing() {
    let bar = |open: i64| s10_bar(open, open + 10_000, 100.0);
    let gap = s10(&[bar(T0), bar(T0 + 40_000)]);
    assert!(gap.errors.is_empty());
    assert_eq!(
        bar_issues(&gap.warnings),
        vec![BarIssue::MissingBuckets { missing: 3 }, BarIssue::TotalMissing { missing: 3 }]
    );
    let odd = s10(&[bar(T0), s10_bar(T0 + 10_000, T0 + 23_000, 100.0)]);
    assert_eq!(bar_issues(&odd.errors), vec![BarIssue::Spacing]);
    let back = s10(&[bar(T0 + 10_000), bar(T0)]);
    assert_eq!(bar_issues(&back.errors), vec![BarIssue::BackInTime]);
}

#[test]
fn ten_second_bars_are_looked_into() {
    let one = |change: fn(&mut BarRecord)| -> (Vec<BarIssue>, Vec<BarIssue>) {
        let mut b = s10_bar(T0, T0 + 10_000, 100.0);
        change(&mut b);
        let r = s10(&[b]);
        (bar_issues(&r.errors), bar_issues(&r.warnings))
    };
    assert_eq!(one(|b| b.kind = RENKO).0, vec![BarIssue::NotKline]);
    assert_eq!(one(|b| b.imbalance_out = true).0, vec![BarIssue::Imbalance]);
    assert_eq!(one(|b| b.avg_spread_bps = d(-1.0)).0, vec![BarIssue::NegativeSpread]);
    assert_eq!(one(|b| b.max_abs_return = d(-1.0)).0, vec![BarIssue::NegativeReturn]);
    assert_eq!(one(|b| b.abs_drift = d(1.5)).1, vec![BarIssue::WildDrift]);
    assert_eq!(one(|b| b.open = d(f64::NAN)).0, vec![BarIssue::NonFinite]);
}

#[test]
fn strict_coverage_lies_between_half_and_all() {
    let bars = vec![s10_bar(T0, T0 + 10_000, 100.0)];
    let at = |coverage: f64| {
        bar_issues(&check_s10(&bars, true, 10_000, d(8640.0), d(coverage)).errors)
    };
    assert!(at(1.0).is_empty());
    assert!(at(0.5).is_empty());
    assert_eq!(at(0.49), vec![BarIssue::Coverage]);
    assert_eq!(at(1.1), vec![BarIssue::Coverage]);
}

#[test]
fn bars_are_checked_by_kind() {
    let mut errors = Vec::new();
    assert!(check_bar_ohlc(0, &s10_bar(0, 1, 1.0), &mut errors));
    assert!(errors.is_empty());
    let mut bad = s10_bar(5, 1, 2.0);
    bad.high = d(1.0);
    bad.realized_var = d(-1.0);
    bad.bipower_var = d(-1.0);
    assert!(check_bar_ohlc(3, &bad, &mut errors));
    assert_eq!(
        bar_issues(&errors),
        vec![
            BarIssue::OpensAfterClose,
            BarIssue::HighTooLow,
            BarIssue::LowTooHigh,
            BarIssue::NegativeRealizedVar,
            BarIssue::NegativeBipowerVar,
        ]
    );
    assert_eq!(errors[0].record, Some(3));

    let mut brick = s10_bar(0, 1, 1.0);
    brick.kind = RENKO;
    let mut torn = brick;
    torn.discontinuous = true;
    torn.brick_below_floor = true;
    let mut odd = s10_bar(1, 2, 1.0);
    odd.kind = 4;
    let mut volume = s10_bar(2, 3, 1.0);
    volume.kind = 2;
    let bars = vec![s10_bar(0, 1, 1.0), s10_bar(2, 3, 1.0), brick, torn, odd, volume];
    let (errors, counts) = check_bars(&bars, false, d(5.0));
    assert_eq!(
        bar_issues(&errors),
        vec![
            BarIssue::KlineGap,
            BarIssue::RenkoDiscontinuity,
            BarIssue::BrickBelowFloor,
            BarIssue::InvalidKind,
        ]
    );
    assert_eq!((counts.n_kline, counts.n_renko, counts.n_other), (2, 2, 1));
    let (errors, _) = check_bars(&vec![s10_bar(0, 1, 1.0)], true, d(5.0));
    assert_eq!(bar_issues(&errors), vec![BarIssue::BarsPerDay]);
}

#[test]
fn vol_gap_warns() {
    let r = check_vol(&vec![vol_record(T0, 0.02), vol_record(T0 + 120_000, 0.03)], NOW);
    assert!(vol_issues(&r.warnings).contains(&VolIssue::Gap));
    assert!(r.errors.is_empty());
}

#[test]
fn vol_no_gap_no_warn() {
    let r = check_vol(&vec![vol_record(T0, 0.02), vol_record(T0 + 1_000, 0.03)], NOW);
    assert!(!vol_issues(&r.warnings).contains(&VolIssue::Gap));
}

#[test]
fn files_divide_into_records() {
    assert_eq!(frame(0, 56), Framing::Empty);
    assert_eq!(frame(112, 56), Framing::Whole { records: 2 });
    assert_eq!(frame(113, 56), Framing::Truncated { records: 2 });
    assert_eq!(aligned_len(113, 56), 112);
    assert_eq!(file_kind("s10"), Some(FileKind::S10));
    assert_eq!(file_kind("idx"), Some(FileKind::Idx));
    assert_eq!(file_kind("txt"), None);
}

#[test]
fn errors_outrank_warnings() {
    let file = |errors: usize, warnings: usize| FileCounts { errors, warnings, records: 2, bytes: 7 };
    let s = summarize(&vec![file(0, 0), file(1, 3), file(0, 2)]);
    assert_eq!((s.n_files, s.n_clean, s.n_with_errors, s.n_with_warnings), (3, 1, 1, 1));
    assert_eq!((s.total_records, s.total_bytes), (6, 21));
    assert_eq!(exit_code(&vec![file(0, 0)], true), 0);
    assert_eq!(exit_code(&vec![file(0, 1)], false), 1);
    assert_eq!(exit_code(&vec![file(0, 1)], true), 2);
    assert_eq!(exit_code(&vec![file(0, 1), file(1, 0)], false), 2);
}

fn idx_texts() -> IdxTexts {
    IdxTexts {
        message_type: "6f".to_string(),
        index_type: "69".to_string(),
        bid: "0.5".to_string(),
        ask: "0.4".to_string(),
        floor: "1e-9".to_string(),
        invalid: "bad".to_string(),
        recomputed: "9.9900".to_string(),
        reported: "1.0000".to_string(),
        ci: "2.000000".to_string(),
        ci_limit: "1.000000".to_string(),
        jump: "12.50".to_string(),
        freshness: "0.012".to_string(),
        distinct_share: "0.0010".to_string(),
        mean_ci: "0.020000".to_string(),
        wide_share: "0.0060".to_string(),
    }
}

#[test]
fn issues_on_indexes_are_told_with_their_values() {
    let mut records = vec![good_record(T0, 100.0, 100.1), good_record(T0 + 70_000, 100.0, 100.1)];
    records[1].accepted = 65;
    let stats = IdxStats {
        finite: 2,
        wide: 0,
        max_spread_bps: d(10.0),
        real: 3_000,
        longest_run: 700,
        distinct: 3,
    };
    let said = |record: Option<usize>, issue: IdxIssue| {
        idx_message(&Finding { record, issue }, &records, &stats, &idx_texts())
    };
    let at = Some(1);
    assert_eq!(said(at, IdxIssue::NotIndex), "header.message_type=0x6f != INDEX (0x69)");
    assert_eq!(
        said(at, IdxIssue::OutsideEpoch),
        "ts 1640995270000 ms outside sane epoch [946684800000, now+300000]"
    );
    assert_eq!(
        said(at, IdxIssue::BackInTime),
        "ts non-monotone: 1640995270000 < prev 1640995200000"
    );
    assert_eq!(said(at, IdxIssue::Gap), "gap 70000 ms between rows 0..1 (>60000 ms)");
    assert_eq!(
        said(at, IdxIssue::BidBelowFloor),
        "bid 0.5 below price floor 1e-9 (or non-finite)"
    );
    assert_eq!(
        said(at, IdxIssue::AskBelowFloor),
        "ask 0.4 below price floor 1e-9 (or non-finite)"
    );
    assert_eq!(said(at, IdxIssue::Crossed), "crossed quote: ask 0.4 < bid 0.5 (structural)");
    assert_eq!(
        said(at, IdxIssue::TooManyProviders),
        "accepted=65 exceeds sane max 64 (metadata corruption)"
    );
    assert_eq!(said(at, IdxIssue::Invalid), "Index::validate failed: bad");
    assert_eq!(
        said(at, IdxIssue::SpreadInconsistent),
        "spread inconsistent: (ask-bid)/mid=9.9900 bps vs reported 1.0000 bps (bid/ask corruption)"
    );
    assert_eq!(
        said(at, IdxIssue::WideInterval),
        "ci_price 2.000000 > mid*0.01 = 1.000000 (degenerate interval)"
    );
    assert_eq!(said(at, IdxIssue::Jump), "mid jump 12.50% between rows 0..1 (>10%)");
    assert_eq!(said(Some(0), IdxIssue::Jump), "mid jump 12.50% between rows 0..0 (>10%)");
    assert_eq!(
        said(at, IdxIssue::StaleConfidence),
        "confidence freshness 0.012 < floor 0.05 (stale composite)"
    );
    assert_eq!(
        said(None, IdxIssue::StuckRun),
        "stuck feed: 700 consecutive bit-identical mids (>= 600)"
    );
    assert_eq!(
        said(None, IdxIssue::FewDistinctMids),
        "stuck feed: only 3 distinct mids over 3000 non-sentinel finite (0.0010 < 0.002)"
    );
    assert_eq!(
        said(None, IdxIssue::MeanInterval),
        "strict: mean(ci/mid)=0.020000 >= 0.01 (avg CI > 100 bps)"
    );
    assert_eq!(said(None, IdxIssue::WideSpreads), "strict: frac(spread>500bps)=0.0060 >= 0.005");
}

fn bar_texts() -> BarTexts {
    BarTexts {
        high: "1".to_string(),
        most: "2".to_string(),
        low: "3".to_string(),
        least: "2".to_string(),
        realized_var: "-0.5".to_string(),
        bipower_var: "-0.25".to_string(),
        prev_close: "7".to_string(),
        open: "8".to_string(),
        brick: "0.000050".to_string(),
        floor: "0.0001".to_string(),
        per_day: "5.00".to_string(),
        drift: "1.5000".to_string(),
        imbalance: "-1.2000".to_string(),
        spread: "-3".to_string(),
        max_return: "-4".to_string(),
        covered: "40.0".to_string(),
        expected: "8640.0".to_string(),
    }
}

#[test]
fn issues_on_bars_are_told_with_their_values() {
    let mut bars = vec![s10_bar(T0, T0 + 9_998, 5.0), s10_bar(T0 + 30_003, T0 + 39_998, 5.0)];
    bars[1].kind = 9;
    let said = |record: Option<usize>, issue: BarIssue| {
        bar_message(&BarFinding { record, issue }, &bars, 10_000, &bar_texts())
    };
    let at = Some(1);
    assert_eq!(said(at, BarIssue::InvalidKind), "invalid kind=9 (expected 0..=3)");
    assert_eq!(said(at, BarIssue::NotKline), "s10: kind=9 != Kline (0)");
    assert_eq!(
        said(at, BarIssue::OpensAfterClose),
        "open_ts 1640995230003 > close_ts 1640995239998"
    );
    assert_eq!(said(at, BarIssue::NonFinite), "non-finite OHLC");
    assert_eq!(said(at, BarIssue::HighTooLow), "high 1 < max(o,c,l) 2");
    assert_eq!(said(at, BarIssue::LowTooHigh), "low 3 > min(o,c,h) 2");
    assert_eq!(said(at, BarIssue::NegativeRealizedVar), "realized_var -0.5 < 0");
    assert_eq!(said(at, BarIssue::NegativeBipowerVar), "bipower_var -0.25 < 0");
    assert_eq!(
        said(at, BarIssue::KlineGap),
        "kline gap: prev close_ts 1640995209998 != this open_ts 1640995230003"
    );
    assert_eq!(
        said(at, BarIssue::RenkoDiscontinuity),
        "renko discontinuity: prev close 7 != this open 8"
    );
    assert_eq!(said(at, BarIssue::BrickBelowFloor), "renko brick 0.000050 below floor 0.0001");
    assert_eq!(said(None, BarIssue::BarsPerDay), "strict: bars/day 5.00 outside [10, 2000]");
    assert_eq!(
        said(at, BarIssue::OffGrid),
        "s10 off-grid: open_ts 1640995230003 % bucket 10000 = 3 (!= 0)"
    );
    assert_eq!(said(at, BarIssue::WildDrift), "drift 1.5000 |x|>1 (suspicious)");
    assert_eq!(said(at, BarIssue::Imbalance), "vol_imbalance -1.2000 outside [-1,1]");
    assert_eq!(said(at, BarIssue::NegativeSpread), "avg_spread_bps -3 < 0");
    assert_eq!(said(at, BarIssue::NegativeReturn), "max_abs_return -4 < 0");
    assert_eq!(
        said(at, BarIssue::BackInTime),
        "s10 ts non-monotone: 1640995239998 < prev 1640995209998"
    );
    assert_eq!(
        said(at, BarIssue::MissingBuckets { missing: 2 }),
        "s10 gap: 30000 ms between rows 0..1 (2 missing buckets)"
    );
    assert_eq!(
        said(at, BarIssue::Spacing),
        "s10 spacing 30000 ms not a multiple of bucket 10000 ms"
    );
    assert_eq!(
        said(None, BarIssue::Coverage),
        "strict: bars/day 5.00 = 40.0% of expected 8640.0 (gap fraction high)"
    );
    assert_eq!(
        said(None, BarIssue::TotalMissing { missing: 3 }),
        "total missing buckets: 3"
    );
    bars[1].open_ts_ms = -7;
    let f = BarFinding { record: at, issue: BarIssue::OffGrid };
    assert_eq!(
        bar_message(&f, &bars, 10, &bar_texts()),
        "s10 off-grid: open_ts -7 % bucket 10 = -7 (!= 0)"
    );
}

#[test]
fn issues_on_volatility_are_told_with_their_values() {
    let rows = vec![
        VolRow { mts: 9, ts_ms: T0, sigma_pct: d(0.1) },
        VolRow { mts: 8, ts_ms: T0 + 90_000, sigma_pct: d(7.5) },
    ];
    let said =
        |issue: VolIssue| vol_message(&VolFinding { record: 1, issue }, &rows, "7.5");
    assert_eq!(
        said(VolIssue::OutsideEpoch),
        "mts 1640995290000 ms outside sane epoch [946684800000, now+300000]"
    );
    assert_eq!(said(VolIssue::NotIncreasing), "mts not strictly increasing: 8 <= prev 9");
    assert_eq!(said(VolIssue::Gap), "vol gap 90000 ms between rows 0..1 (>60000 ms)");
    assert_eq!(said(VolIssue::NonFinite), "sigma_pct non-finite (7.5)");
    assert_eq!(said(VolIssue::Absurd), "sigma_pct 7.5 outside sane band [0, 5)");
    assert_eq!(said(VolIssue::OutsideRange), "sigma_pct 7.5 outside [0, 0.5]");
}

#[test]
fn index_files_are_measured() {
    let mut records = vec![
        good_record(T0, 100.0, 100.1),
        good_record(T0 + 1_000, 100.0, 100.1),
        good_record(T0 + 2_000, 90.0, 110.0),
        sentinel_record(T0 + 3_000, 100.0, 101.0),
        good_record(T0 + 4_000, 1e-12, 1e-12),
    ];
    records[1].ci_ratio = d(f64::NAN);
    let s = idx_stats(&records, d(MIN_PX));
    assert_eq!((s.finite, s.wide), (3, 1));
    assert_eq!(f(s.max_spread_bps), f(records[2].spread_bps));
    assert_eq!((s.real, s.longest_run, s.distinct), (3, 2, 2));
    let none = idx_stats(&vec![], d(MIN_PX));
    assert_eq!((none.finite, none.wide, none.real, f(none.max_spread_bps)), (0, 0, 0, 0.0));
    for r in records.iter_mut() {
        r.ci_ratio = d(f64::INFINITY);
    }
    let s = idx_stats(&records, d(MIN_PX));
    assert_eq!((s.finite, f(s.max_spread_bps)), (0, 0.0), "nothing to divide by");
}
