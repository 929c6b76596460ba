//! The printed report of an audit.

use series_factory::audit::report::{
    count_verdicts, exit_code, failed_report, print_human, AuditReport, Figure, GapRow, SampleRow,
    TickerReport,
};
use series_factory::ieee::Double;

fn figure(value: f64, text: &str) -> Figure {
    Figure { value: Double::from_bits(value.to_bits()), text: text.to_string() }
}

fn text(s: &str) -> String {
    s.to_string()
}

fn ticker(ticker_id: u64, verdict: &str) -> TickerReport {
    TickerReport {
        ticker_id,
        has_data: true,
        records: 12,
        suspect_gaps: 3,
        quiet_gaps: 2,
        outage_gaps: 1,
        missing_days: 0,
        missing_day_list: vec![],
        worst_gaps: vec![],
        invariant_violations: 0,
        invariant_samples: vec![],
        conf_stale: 0,
        zero_depth: 0,
        one_sided_depth: 0,
        reject_dominant: 0,
        reject_rate: figure(f64::NAN, ""),
        reject_rate_warn: false,
        mad_outliers: 4,
        worst_mad_z: text("9.25"),
        cusum_alarms: 5,
        sigma_park_ann: figure(0.5, "0.5000"),
        crypto_stable: false,
        zero_return_frac: figure(0.25, "0.2500"),
        longest_flat_run: 6,
        stuck_feed: false,
        vol_present: false,
        vol_sigma_stored: figure(f64::NAN, ""),
        vol_sigma_divergence: false,
        rollup_violations: 0,
        rollup_samples: vec![],
        renko_bpd: figure(f64::NAN, ""),
        renko_days: 0,
        renko_ratio: text("NaN"),
        renko_skipped_stable: false,
        renko_inferred_bpd: text("NaN"),
        renko_target_bpd: text("300.0"),
        renko_k_present: false,
        renko_uncalibrated: false,
        renko_off_band: false,
        renko_target_unresolved: false,
        renko_k_used: None,
        renko_k_stale: false,
        renko_k_implausible: false,
        renko_k_clamped: false,
        renko_behind_calibration: false,
        renko_provenance_missing: false,
        renko_seam_breaks: 0,
        renko_floor_violations: 0,
        renko_bpd_median: figure(f64::NAN, ""),
        renko_bpd_mad: figure(f64::NAN, ""),
        renko_bpd_min_day: 0,
        renko_dist_fail: false,
        renko_dist_drift: false,
        renko_samples: vec![],
        s10_bars: 7,
        s10_violations: 0,
        s10_off_grid: 0,
        s10_gaps: 0,
        s10_misaligned: 0,
        s10_coverage: figure(f64::NAN, ""),
        s10_coverage_fail: false,
        s10_coverage_warn: false,
        s10_samples: vec![],
        verdict: text(verdict),
        fail_reasons: vec![],
    }
}

fn report(tickers: Vec<TickerReport>) -> AuditReport {
    AuditReport {
        data_root: text("/data"),
        window_days: 30,
        window_start: text("2024-01-01"),
        window_end: text("2024-01-31"),
        max_gap_ms: 60_000,
        quiet_tolerance_ms: 300_000,
        target_bpd: text("300"),
        tickers,
    }
}

/// The report as printed, split at line ends.
fn lines(r: &AuditReport) -> Vec<String> {
    print_human(r).join("\n").split('\n').map(|l| l.to_string()).collect()
}

fn has(out: &[String], line: &str) -> bool {
    out.iter().any(|l| l == line)
}

#[test]
fn empty_reports_say_so() {
    let out = lines(&report(vec![]));
    assert_eq!(out[1], " NXR DATA-QUALITY AUDIT");
    assert!(has(&out, " data_root        : /data"));
    assert!(has(&out, " window           : 2024-01-01 → 2024-01-31 (30 days)"));
    assert!(has(&out, " max_gap_ms=60000  quiet_tolerance_ms=300000  target_bpd=300"));
    assert!(has(&out, "  (no ticker directories found under indexes/ — nothing to audit)"));
    assert!(has(&out, " PASS=0  FAIL=0  NO_DATA=0"));
}

#[test]
fn plain_tickers_are_printed() {
    let out = lines(&report(vec![ticker(42, "PASS")]));
    for line in [
        "   records              : 12",
        "   gaps                 : suspect=3 quiet(ok)=2 OUTAGE=1",
        "   missing UTC days     : 0",
        "   invariant violations : 0",
        "   anomalies            : mad_outliers=4 (worst |z|=9.25) cusum_alarms=5",
        "   sigma_park (ann)     : 0.5000",
        "   feed health          : zero_ret_frac=0.2500 longest_flat_run=6",
        "   renko                : no .renko shards in window",
        "   s10 kline            : 7 bars, 0 OHLC violations",
        "   s10 parity           : K1_offgrid=0 K1_gaps=0 K2_misaligned=0 coverage=n/a",
        "   VERDICT              : PASS",
        " PASS=1  FAIL=0  NO_DATA=0",
    ] {
        assert!(has(&out, line), "missing {line:?} in {out:#?}");
    }
    let row = format!(
        " {:>12} {:>10} {:>7} {:>7} {:>7} {:>7} {:>7} {:>12} {:>9} {:>7}",
        42, 12, 1, 0, 0, 4, 5, "0.5000", "n/a", "PASS"
    );
    assert!(has(&out, &row));
    assert!(!out.iter().any(|l| l.contains("conf-freshness") || l.contains("rollup")));
}

#[test]
fn tickers_without_data_are_short() {
    let mut t = ticker(7, "NO_DATA");
    t.has_data = false;
    let out = lines(&report(vec![t]));
    assert!(has(&out, "── ticker 7 ──────────────────────────────────────────────"));
    assert!(has(&out, "   NO DATA in window."));
    assert!(!out.iter().any(|l| l.contains("VERDICT")));
    assert!(has(&out, " PASS=0  FAIL=0  NO_DATA=1"));
}

#[test]
fn troubled_tickers_are_printed_in_full() {
    let mut t = ticker(9, "FAIL");
    t.missing_days = 2;
    t.missing_day_list = vec![text("2024-01-05"), text("2024-01-06")];
    t.worst_gaps = vec![GapRow { start_ts: -1, end_ts: 5, dt_ms: 6, outage: true }];
    t.invariant_samples = vec![SampleRow {
        ts: 3,
        reason: text("bid <= 0"),
        bid: text("0"),
        ask: text("1"),
        spread_bps: text("NaN"),
    }];
    t.conf_stale = 8;
    t.zero_depth = 1;
    t.one_sided_depth = 2;
    t.reject_dominant = 3;
    t.reject_rate = figure(0.5, "50.0%");
    t.stuck_feed = true;
    t.vol_present = true;
    t.vol_sigma_stored = figure(0.75, "0.7500");
    t.vol_sigma_divergence = true;
    t.crypto_stable = true;
    t.renko_days = 4;
    t.renko_bpd = figure(310.0, "310.0");
    t.renko_ratio = text("1.03");
    t.renko_skipped_stable = true;
    t.renko_k_present = true;
    t.renko_inferred_bpd = text("310.0");
    t.renko_off_band = true;
    t.renko_k_used = Some(text("0.075000"));
    t.renko_k_stale = true;
    t.renko_dist_drift = true;
    t.renko_samples = vec![text("seam")];
    t.s10_coverage = figure(0.4, "40.0%");
    t.s10_coverage_fail = true;
    t.s10_samples = vec![text("bar 3")];
    t.rollup_violations = 1;
    t.rollup_samples = vec![text("1m")];
    t.fail_reasons = vec![text("a"), text("b")];
    let out = lines(&report(vec![t]));
    for line in [
        "   missing UTC days     : 2 [2024-01-05, 2024-01-06]",
        "   worst gaps:",
        "     @ts=3 bid <= 0 (bid=0, ask=1, spread_bps=NaN)",
        "   conf-freshness (G4)  : 8 record(s) below floor 0.05 [WARN advisory]",
        "   reject dominance     : rejected>accepted in 3 rec(s), window reject-rate=50.0% \
         [WARN advisory]",
        "   feed health          : zero_ret_frac=0.2500 longest_flat_run=6 [STUCK]",
        "   vol↔idx recon        : stored_sigma_ann=0.7500 parkinson_ann=0.5000 [DIVERGENCE]",
        "   crypto_stable        : YES (renko bpd check skipped)",
        "   renko                : bpd=310.0 over 4 days (ratio 1.03) [skipped: stable]",
        "   renko calib (R4)     : inferred_bpd=310.0 target=300.0 (per-ticker) \
         k_present=true [OFF-BAND]",
        "   renko provenance (R4): k_used=0.075000 [STALE]",
        "   renko cont/floor     : R1_disc=0 R3_floor_viol=0",
        "   renko dist (R2)      : median=n/a MAD=n/a min_day=0 [WARN: drift]",
        "     seam",
        "   s10 parity           : K1_offgrid=0 K1_gaps=0 K2_misaligned=0 coverage=40.0% [FAIL]",
        "     bar 3",
        "   kline rollup-parity  : 1 violation(s)",
        "     1m",
        "     reasons: a; b",
    ] {
        assert!(has(&out, line), "missing {line:?} in {out:#?}");
    }
    assert!(out.iter().any(|l| l.starts_with("     [-1 → 5] dt=6ms ")));
    assert!(out.iter().any(|l| l.contains("quote depth")));
    assert!(out.iter().any(|l| l.contains("     skip ")));
}

#[test]
fn exits_reflect_failures() {
    let tickers = vec![ticker(1, "PASS"), ticker(2, "FAIL"), ticker(3, "PASS")];
    assert_eq!(count_verdicts(&tickers, "PASS"), 2);
    assert_eq!(count_verdicts(&tickers, "NO_DATA"), 0);
    assert_ne!(exit_code(&tickers), 0);
    assert_eq!(exit_code(&vec![ticker(1, "PASS")]), 0);
}

#[test]
fn tickers_that_cannot_be_audited_fail() {
    let r = failed_report(42, "audit error: gone".to_string());
    assert_eq!((r.ticker_id, r.has_data, r.records), (42, false, 0));
    assert_eq!((r.verdict.as_str(), r.fail_reasons), ("FAIL", vec!["audit error: gone".to_string()]));
    assert_eq!((r.s10_coverage.text.as_str(), r.renko_bpd.text.as_str()), ("NaN%", "NaN"));
    assert!(r.renko_bpd.value.is_nan() && r.worst_gaps.is_empty() && !r.stuck_feed);
}
