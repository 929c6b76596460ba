//! The audit report as text.
//!
//! Figures come with their text; the report decides which lines there are and
//! what they say.

use vstd::prelude::*;
use crate::ieee::Double;
use crate::tally;
use crate::text;

verus! {

/// A number and how it is written.
#[derive(Debug)]
pub struct Figure {
    pub value: Double,
    pub text: String,
}

/// The usual bits of a value that is not a number.
pub const NAN_64: u64 = 0x7ff8_0000_0000_0000;

/// A gap that the report lists.
#[derive(Clone, Copy, Debug)]
pub struct GapRow {
    pub start_ts: i64,
    pub end_ts: i64,
    pub dt_ms: i64,
    pub outage: bool,
}

/// A record that the report lists, its numbers as they are written.
#[derive(Debug)]
pub struct SampleRow {
    pub ts: i64,
    pub reason: String,
    pub bid: String,
    pub ask: String,
    pub spread_bps: String,
}

/// What was found on a ticker.
#[derive(Debug)]
pub struct TickerReport {
    pub ticker_id: u64,
    pub has_data: bool,
    pub records: u64,
    pub suspect_gaps: u64,
    pub quiet_gaps: u64,
    pub outage_gaps: u64,
    pub missing_days: u64,
    pub missing_day_list: Vec<String>,
    pub worst_gaps: Vec<GapRow>,
    pub invariant_violations: u64,
    pub invariant_samples: Vec<SampleRow>,
    pub conf_stale: u64,
    pub zero_depth: u64,
    pub one_sided_depth: u64,
    pub reject_dominant: u64,
    pub reject_rate: Figure,
    pub reject_rate_warn: bool,
    pub mad_outliers: u64,
    pub worst_mad_z: String,
    pub cusum_alarms: u64,
    pub sigma_park_ann: Figure,
    pub crypto_stable: bool,
    pub zero_return_frac: Figure,
    pub longest_flat_run: u64,
    pub stuck_feed: bool,
    pub vol_present: bool,
    pub vol_sigma_stored: Figure,
    pub vol_sigma_divergence: bool,
    pub rollup_violations: u64,
    pub rollup_samples: Vec<String>,
    pub renko_bpd: Figure,
    pub renko_days: u64,
    pub renko_ratio: String,
    pub renko_skipped_stable: bool,
    pub renko_inferred_bpd: String,
    pub renko_target_bpd: String,
    pub renko_k_present: bool,
    pub renko_uncalibrated: bool,
    pub renko_off_band: bool,
    pub renko_target_unresolved: bool,
    pub renko_k_used: Option<String>,
    pub renko_k_stale: bool,
    pub renko_k_implausible: bool,
    pub renko_k_clamped: bool,
    pub renko_behind_calibration: bool,
    pub renko_provenance_missing: bool,
    pub renko_seam_breaks: u64,
    pub renko_floor_violations: u64,
    pub renko_bpd_median: Figure,
    pub renko_bpd_mad: Figure,
    pub renko_bpd_min_day: u64,
    pub renko_dist_fail: bool,
    pub renko_dist_drift: bool,
    pub renko_samples: Vec<String>,
    pub s10_bars: u64,
    pub s10_violations: u64,
    pub s10_off_grid: u64,
    pub s10_gaps: u64,
    pub s10_misaligned: u64,
    pub s10_coverage: Figure,
    pub s10_coverage_fail: bool,
    pub s10_coverage_warn: bool,
    pub s10_samples: Vec<String>,
    pub verdict: String,
    pub fail_reasons: Vec<String>,
}

/// A figure that is not a number.
pub open spec fn unknown(f: Figure, text: Seq<char>) -> bool {
    f.value.bits == NAN_64 && f.text@ == text
}

/// Nothing was counted, listed or measured, and no flag is up.
pub open spec fn nothing_found(r: TickerReport) -> bool {
    &&& r.records == 0
    &&& r.suspect_gaps == 0
    &&& r.quiet_gaps == 0
    &&& r.outage_gaps == 0
    &&& r.missing_days == 0
    &&& r.invariant_violations == 0
    &&& r.conf_stale == 0
    &&& r.zero_depth == 0
    &&& r.one_sided_depth == 0
    &&& r.reject_dominant == 0
    &&& r.mad_outliers == 0
    &&& r.cusum_alarms == 0
    &&& r.longest_flat_run == 0
    &&& r.rollup_violations == 0
    &&& r.renko_days == 0
    &&& r.renko_seam_breaks == 0
    &&& r.renko_floor_violations == 0
    &&& r.renko_bpd_min_day == 0
    &&& r.s10_bars == 0
    &&& r.s10_violations == 0
    &&& r.s10_off_grid == 0
    &&& r.s10_gaps == 0
    &&& r.s10_misaligned == 0
    &&& !r.has_data
    &&& !r.reject_rate_warn
    &&& !r.crypto_stable
    &&& !r.stuck_feed
    &&& !r.vol_present
    &&& !r.vol_sigma_divergence
    &&& !r.renko_skipped_stable
    &&& !r.renko_k_present
    &&& !r.renko_uncalibrated
    &&& !r.renko_off_band
    &&& !r.renko_target_unresolved
    &&& !r.renko_k_stale
    &&& !r.renko_k_implausible
    &&& !r.renko_k_clamped
    &&& !r.renko_behind_calibration
    &&& !r.renko_provenance_missing
    &&& !r.renko_dist_fail
    &&& !r.renko_dist_drift
    &&& !r.s10_coverage_fail
    &&& !r.s10_coverage_warn
    &&& r.missing_day_list.len() == 0
    &&& r.worst_gaps.len() == 0
    &&& r.invariant_samples.len() == 0
    &&& r.rollup_samples.len() == 0
    &&& r.renko_samples.len() == 0
    &&& r.s10_samples.len() == 0
    &&& unknown(r.sigma_park_ann, "NaN"@)
    &&& unknown(r.zero_return_frac, "NaN"@)
    &&& unknown(r.vol_sigma_stored, "NaN"@)
    &&& unknown(r.renko_bpd, "NaN"@)
    &&& unknown(r.renko_bpd_median, "NaN"@)
    &&& unknown(r.renko_bpd_mad, "NaN"@)
    &&& unknown(r.reject_rate, "NaN%"@)
    &&& unknown(r.s10_coverage, "NaN%"@)
    &&& r.renko_ratio@ == "NaN"@
    &&& r.renko_inferred_bpd@ == "NaN"@
    &&& r.renko_target_bpd@ == "NaN"@
    &&& r.worst_mad_z@ == "0.00"@
    &&& r.renko_k_used is None
}

fn unknown_figure(text: &str) -> (f: Figure)
    ensures
        unknown(f, text@),
{
    Figure { value: Double { bits: NAN_64 }, text: text.to_owned() }
}

/// The report of a ticker that could not be audited.
pub fn failed_report(ticker_id: u64, why: String) -> (r: TickerReport)
    ensures
        r.ticker_id == ticker_id,
        nothing_found(r),
        r.verdict@ == "FAIL"@,
        r.fail_reasons.len() == 1 && r.fail_reasons@[0]@ == why@,
{
    let mut fail_reasons: Vec<String> = Vec::new();
    fail_reasons.push(why);
    TickerReport {
        ticker_id,
        has_data: false,
        records: 0,
        suspect_gaps: 0,
        quiet_gaps: 0,
        outage_gaps: 0,
        missing_days: 0,
        missing_day_list: Vec::new(),
        worst_gaps: Vec::new(),
        invariant_violations: 0,
        invariant_samples: Vec::new(),
        conf_stale: 0,
        zero_depth: 0,
        one_sided_depth: 0,
        reject_dominant: 0,
        reject_rate: unknown_figure("NaN%"),
        reject_rate_warn: false,
        mad_outliers: 0,
        worst_mad_z: "0.00".to_owned(),
        cusum_alarms: 0,
        sigma_park_ann: unknown_figure("NaN"),
        crypto_stable: false,
        zero_return_frac: unknown_figure("NaN"),
        longest_flat_run: 0,
        stuck_feed: false,
        vol_present: false,
        vol_sigma_stored: unknown_figure("NaN"),
        vol_sigma_divergence: false,
        rollup_violations: 0,
        rollup_samples: Vec::new(),
        renko_bpd: unknown_figure("NaN"),
        renko_days: 0,
        renko_ratio: "NaN".to_owned(),
        renko_skipped_stable: false,
        renko_inferred_bpd: "NaN".to_owned(),
        renko_target_bpd: "NaN".to_owned(),
        renko_k_present: false,
        renko_uncalibrated: false,
        renko_off_band: false,
        renko_target_unresolved: false,
        renko_k_used: None,
        renko_k_stale: false,
        renko_k_implausible: false,
        renko_k_clamped: false,
        renko_behind_calibration: false,
        renko_provenance_missing: false,
        renko_seam_breaks: 0,
        renko_floor_violations: 0,
        renko_bpd_median: unknown_figure("NaN"),
        renko_bpd_mad: unknown_figure("NaN"),
        renko_bpd_min_day: 0,
        renko_dist_fail: false,
        renko_dist_drift: false,
        renko_samples: Vec::new(),
        s10_bars: 0,
        s10_violations: 0,
        s10_off_grid: 0,
        s10_gaps: 0,
        s10_misaligned: 0,
        s10_coverage: unknown_figure("NaN%"),
        s10_coverage_fail: false,
        s10_coverage_warn: false,
        s10_samples: Vec::new(),
        verdict: "FAIL".to_owned(),
        fail_reasons,
    }
}

/// What was found on all tickers.
#[derive(Debug)]
pub struct AuditReport {
    pub data_root: String,
    pub window_days: i64,
    pub window_start: String,
    pub window_end: String,
    pub max_gap_ms: i64,
    pub quiet_tolerance_ms: i64,
    pub target_bpd: String,
    pub tickers: Vec<TickerReport>,
}

/// The figure's text, or `n/a` where it is not a finite number.
pub open spec fn shown(f: Figure) -> Seq<char> {
    if f.value.finite() {
        f.text@
    } else {
        "n/a"@
    }
}

fn show(f: &Figure) -> (s: &str)
    ensures
        s@ == shown(*f),
{
    if f.value.is_finite() {
        f.text.as_str()
    } else {
        "n/a"
    }
}

/// A remark that is made or not.
pub open spec fn mark(b: bool, remark: Seq<char>) -> Seq<char> {
    if b {
        remark
    } else {
        Seq::empty()
    }
}

fn mark_text(b: bool, remark: &'static str) -> (s: &'static str)
    ensures
        s@ == mark(b, remark@),
{
    if b {
        remark
    } else {
        proof {
            reveal_strlit("");
            assert(""@ =~= Seq::<char>::empty());
        }
        ""
    }
}

/// One of two remarks, the first taking precedence, or none.
pub open spec fn mark_worst(bad: bool, worse: Seq<char>, poor: bool, less: Seq<char>) -> Seq<char> {
    if bad {
        worse
    } else {
        mark(poor, less)
    }
}

fn mark_worst_text(bad: bool, worse: &'static str, poor: bool, less: &'static str) -> (s:
    &'static str)
    ensures
        s@ == mark_worst(bad, worse@, poor, less@),
{
    if bad {
        worse
    } else {
        mark_text(poor, less)
    }
}

pub open spec fn truth(b: bool) -> Seq<char> {
    if b {
        "true"@
    } else {
        "false"@
    }
}

fn truth_text(b: bool) -> (s: &'static str)
    ensures
        s@ == truth(b),
{
    if b {
        "true"
    } else {
        "false"
    }
}

fn number(n: u64) -> (s: String)
    ensures
        s@ == text::decimal(n as int),
{
    text::decimal_string(n)
}

fn signed(n: i64) -> (s: String)
    ensures
        s@ == text::signed_decimal(n as int),
{
    text::signed_i64(n)
}

/// The multiplier that bars were made with, as far as it is known.
pub open spec fn used(k: Option<String>) -> Seq<char> {
    match k {
        Some(s) => s@,
        None => "none"@,
    }
}

fn used_text(k: &Option<String>) -> (s: &str)
    ensures
        s@ == used(*k),
{
    match k {
        Some(s) => s.as_str(),
        None => "none",
    }
}

/// The line that opens a ticker.
pub open spec fn title_line(t: TickerReport) -> Seq<char> {
    "\n── ticker "@
        + text::decimal(t.ticker_id as int)
        + " ──────────────────────────────────────────────"@
}

fn write_title_line(t: &TickerReport) -> (s: String)
    ensures
        s@ == title_line(*t),
{
    let mut s: String = "\n── ticker ".to_owned();
    s.append(number(t.ticker_id).as_str());
    s.append(" ──────────────────────────────────────────────");
    s
}

pub open spec fn records_line(t: TickerReport) -> Seq<char> {
    "   records              : "@
        + text::decimal(t.records as int)
}

fn write_records_line(t: &TickerReport) -> (s: String)
    ensures
        s@ == records_line(*t),
{
    let mut s: String = "   records              : ".to_owned();
    s.append(number(t.records).as_str());
    s
}

pub open spec fn gaps_line(t: TickerReport) -> Seq<char> {
    "   gaps                 : suspect="@
        + text::decimal(t.suspect_gaps as int)
        + " quiet(ok)="@
        + text::decimal(t.quiet_gaps as int)
        + " OUTAGE="@
        + text::decimal(t.outage_gaps as int)
}

fn write_gaps_line(t: &TickerReport) -> (s: String)
    ensures
        s@ == gaps_line(*t),
{
    let mut s: String = "   gaps                 : suspect=".to_owned();
    s.append(number(t.suspect_gaps).as_str());
    s.append(" quiet(ok)=");
    s.append(number(t.quiet_gaps).as_str());
    s.append(" OUTAGE=");
    s.append(number(t.outage_gaps).as_str());
    s
}

pub open spec fn missing_line(t: TickerReport) -> Seq<char> {
    "   missing UTC days     : "@
        + text::decimal(t.missing_days as int)
        + " ["@
        + text::joined_with(text::texts(t.missing_day_list@), ", "@)
        + "]"@
}

fn write_missing_line(t: &TickerReport) -> (s: String)
    ensures
        s@ == missing_line(*t),
{
    let mut s: String = "   missing UTC days     : ".to_owned();
    s.append(number(t.missing_days).as_str());
    s.append(" [");
    s.append(text::join(&t.missing_day_list, ", ").as_str());
    s.append("]");
    s
}

pub open spec fn invariants_line(t: TickerReport) -> Seq<char> {
    "   invariant violations : "@
        + text::decimal(t.invariant_violations as int)
}

fn write_invariants_line(t: &TickerReport) -> (s: String)
    ensures
        s@ == invariants_line(*t),
{
    let mut s: String = "   invariant violations : ".to_owned();
    s.append(number(t.invariant_violations).as_str());
    s
}

pub open spec fn freshness_line(t: TickerReport) -> Seq<char> {
    "   conf-freshness (G4)  : "@
        + text::decimal(t.conf_stale as int)
        + " record(s) below floor 0.05 [WARN advisory]"@
}

fn write_freshness_line(t: &TickerReport) -> (s: String)
    ensures
        s@ == freshness_line(*t),
{
    let mut s: String = "   conf-freshness (G4)  : ".to_owned();
    s.append(number(t.conf_stale).as_str());
    s.append(" record(s) below floor 0.05 [WARN advisory]");
    s
}

pub open spec fn depth_line(t: TickerReport) -> Seq<char> {
    "   quote depth          : zero-depth(FAIL)="@
        + text::decimal(t.zero_depth as int)
        + " one-sided(WARN)="@
        + text::decimal(t.one_sided_depth as int)
}

fn write_depth_line(t: &TickerReport) -> (s: String)
    ensures
        s@ == depth_line(*t),
{
    let mut s: String = "   quote depth          : zero-depth(FAIL)=".to_owned();
    s.append(number(t.zero_depth).as_str());
    s.append(" one-sided(WARN)=");
    s.append(number(t.one_sided_depth).as_str());
    s
}

pub open spec fn reject_line(t: TickerReport) -> Seq<char> {
    "   reject dominance     : rejected>accepted in "@
        + text::decimal(t.reject_dominant as int)
        + " rec(s), window reject-rate="@
        + shown(t.reject_rate)
        + " [WARN advisory]"@
}

fn write_reject_line(t: &TickerReport) -> (s: String)
    ensures
        s@ == reject_line(*t),
{
    let mut s: String = "   reject dominance     : rejected>accepted in ".to_owned();
    s.append(number(t.reject_dominant).as_str());
    s.append(" rec(s), window reject-rate=");
    s.append(show(&t.reject_rate));
    s.append(" [WARN advisory]");
    s
}

pub open spec fn anomalies_line(t: TickerReport) -> Seq<char> {
    "   anomalies            : mad_outliers="@
        + text::decimal(t.mad_outliers as int)
        + " (worst |z|="@
        + t.worst_mad_z@
        + ") cusum_alarms="@
        + text::decimal(t.cusum_alarms as int)
}

fn write_anomalies_line(t: &TickerReport) -> (s: String)
    ensures
        s@ == anomalies_line(*t),
{
    let mut s: String = "   anomalies            : mad_outliers=".to_owned();
    s.append(number(t.mad_outliers).as_str());
    s.append(" (worst |z|=");
    s.append(t.worst_mad_z.as_str());
    s.append(") cusum_alarms=");
    s.append(number(t.cusum_alarms).as_str());
    s
}

pub open spec fn sigma_line(t: TickerReport) -> Seq<char> {
    "   sigma_park (ann)     : "@
        + shown(t.sigma_park_ann)
}

fn write_sigma_line(t: &TickerReport) -> (s: String)
    ensures
        s@ == sigma_line(*t),
{
    let mut s: String = "   sigma_park (ann)     : ".to_owned();
    s.append(show(&t.sigma_park_ann));
    s
}

pub open spec fn feed_line(t: TickerReport) -> Seq<char> {
    "   feed health          : zero_ret_frac="@
        + shown(t.zero_return_frac)
        + " longest_flat_run="@
        + text::decimal(t.longest_flat_run as int)
        + mark(t.stuck_feed, " [STUCK]"@)
}

fn write_feed_line(t: &TickerReport) -> (s: String)
    ensures
        s@ == feed_line(*t),
{
    let mut s: String = "   feed health          : zero_ret_frac=".to_owned();
    s.append(show(&t.zero_return_frac));
    s.append(" longest_flat_run=");
    s.append(number(t.longest_flat_run).as_str());
    s.append(mark_text(t.stuck_feed, " [STUCK]"));
    s
}

pub open spec fn vol_line(t: TickerReport) -> Seq<char> {
    "   vol↔idx recon        : stored_sigma_ann="@
        + shown(t.vol_sigma_stored)
        + " parkinson_ann="@
        + shown(t.sigma_park_ann)
        + mark(t.vol_sigma_divergence, " [DIVERGENCE]"@)
}

fn write_vol_line(t: &TickerReport) -> (s: String)
    ensures
        s@ == vol_line(*t),
{
    let mut s: String = "   vol↔idx recon        : stored_sigma_ann=".to_owned();
    s.append(show(&t.vol_sigma_stored));
    s.append(" parkinson_ann=");
    s.append(show(&t.sigma_park_ann));
    s.append(mark_text(t.vol_sigma_divergence, " [DIVERGENCE]"));
    s
}

pub open spec fn cadence_line(t: TickerReport) -> Seq<char> {
    "   renko                : bpd="@
        + t.renko_bpd.text@
        + " over "@
        + text::decimal(t.renko_days as int)
        + " days (ratio "@
        + t.renko_ratio@
        + ")"@
        + mark(t.renko_skipped_stable, " [skipped: stable]"@)
}

fn write_cadence_line(t: &TickerReport) -> (s: String)
    ensures
        s@ == cadence_line(*t),
{
    let mut s: String = "   renko                : bpd=".to_owned();
    s.append(t.renko_bpd.text.as_str());
    s.append(" over ");
    s.append(number(t.renko_days).as_str());
    s.append(" days (ratio ");
    s.append(t.renko_ratio.as_str());
    s.append(")");
    s.append(mark_text(t.renko_skipped_stable, " [skipped: stable]"));
    s
}

pub open spec fn calibration_line(t: TickerReport) -> Seq<char> {
    "   renko calib (R4)     : inferred_bpd="@
        + t.renko_inferred_bpd@
        + " target="@
        + t.renko_target_bpd@
        + " (per-ticker) k_present="@
        + truth(t.renko_k_present)
        + mark(t.renko_uncalibrated, " [UNCALIBRATED]"@)
        + mark(t.renko_off_band, " [OFF-BAND]"@)
        + mark(t.renko_target_unresolved, " [WARN: target-unresolved → bpd SKIP]"@)
}

fn write_calibration_line(t: &TickerReport) -> (s: String)
    ensures
        s@ == calibration_line(*t),
{
    let mut s: String = "   renko calib (R4)     : inferred_bpd=".to_owned();
    s.append(t.renko_inferred_bpd.as_str());
    s.append(" target=");
    s.append(t.renko_target_bpd.as_str());
    s.append(" (per-ticker) k_present=");
    s.append(truth_text(t.renko_k_present));
    s.append(mark_text(t.renko_uncalibrated, " [UNCALIBRATED]"));
    s.append(mark_text(t.renko_off_band, " [OFF-BAND]"));
    s.append(mark_text(t.renko_target_unresolved, " [WARN: target-unresolved → bpd SKIP]"));
    s
}

pub open spec fn provenance_line(t: TickerReport) -> Seq<char> {
    "   renko provenance (R4): k_used="@
        + used(t.renko_k_used)
        + mark(t.renko_k_stale, " [STALE]"@)
        + mark(t.renko_k_implausible, " [IMPLAUSIBLE-K]"@)
        + mark(t.renko_k_clamped, " [WARN: k clamped at ceiling]"@)
        + mark(t.renko_behind_calibration, " [WARN: behind-calibration]"@)
        + mark(t.renko_provenance_missing, " [WARN: provenance-missing]"@)
}

fn write_provenance_line(t: &TickerReport) -> (s: String)
    ensures
        s@ == provenance_line(*t),
{
    let mut s: String = "   renko provenance (R4): k_used=".to_owned();
    s.append(used_text(&t.renko_k_used));
    s.append(mark_text(t.renko_k_stale, " [STALE]"));
    s.append(mark_text(t.renko_k_implausible, " [IMPLAUSIBLE-K]"));
    s.append(mark_text(t.renko_k_clamped, " [WARN: k clamped at ceiling]"));
    s.append(mark_text(t.renko_behind_calibration, " [WARN: behind-calibration]"));
    s.append(mark_text(t.renko_provenance_missing, " [WARN: provenance-missing]"));
    s
}

pub open spec fn floor_line(t: TickerReport) -> Seq<char> {
    "   renko cont/floor     : R1_disc="@
        + text::decimal(t.renko_seam_breaks as int)
        + " R3_floor_viol="@
        + text::decimal(t.renko_floor_violations as int)
}

fn write_floor_line(t: &TickerReport) -> (s: String)
    ensures
        s@ == floor_line(*t),
{
    let mut s: String = "   renko cont/floor     : R1_disc=".to_owned();
    s.append(number(t.renko_seam_breaks).as_str());
    s.append(" R3_floor_viol=");
    s.append(number(t.renko_floor_violations).as_str());
    s
}

pub open spec fn distribution_line(t: TickerReport) -> Seq<char> {
    "   renko dist (R2)      : median="@
        + shown(t.renko_bpd_median)
        + " MAD="@
        + shown(t.renko_bpd_mad)
        + " min_day="@
        + text::decimal(t.renko_bpd_min_day as int)
        + mark_worst(t.renko_dist_fail, " [FAIL: drift]"@, t.renko_dist_drift, " [WARN: drift]"@)
}

fn write_distribution_line(t: &TickerReport) -> (s: String)
    ensures
        s@ == distribution_line(*t),
{
    let mut s: String = "   renko dist (R2)      : median=".to_owned();
    s.append(show(&t.renko_bpd_median));
    s.append(" MAD=");
    s.append(show(&t.renko_bpd_mad));
    s.append(" min_day=");
    s.append(number(t.renko_bpd_min_day).as_str());
    s.append(mark_worst_text(t.renko_dist_fail, " [FAIL: drift]", t.renko_dist_drift, " [WARN: drift]"));
    s
}

pub open spec fn s10_line(t: TickerReport) -> Seq<char> {
    "   s10 kline            : "@
        + text::decimal(t.s10_bars as int)
        + " bars, "@
        + text::decimal(t.s10_violations as int)
        + " OHLC violations"@
}

fn write_s10_line(t: &TickerReport) -> (s: String)
    ensures
        s@ == s10_line(*t),
{
    let mut s: String = "   s10 kline            : ".to_owned();
    s.append(number(t.s10_bars).as_str());
    s.append(" bars, ");
    s.append(number(t.s10_violations).as_str());
    s.append(" OHLC violations");
    s
}

pub open spec fn parity_line(t: TickerReport) -> Seq<char> {
    "   s10 parity           : K1_offgrid="@
        + text::decimal(t.s10_off_grid as int)
        + " K1_gaps="@
        + text::decimal(t.s10_gaps as int)
        + " K2_misaligned="@
        + text::decimal(t.s10_misaligned as int)
        + " coverage="@
        + shown(t.s10_coverage)
        + mark_worst(t.s10_coverage_fail, " [FAIL]"@, t.s10_coverage_warn, " [WARN]"@)
}

fn write_parity_line(t: &TickerReport) -> (s: String)
    ensures
        s@ == parity_line(*t),
{
    let mut s: String = "   s10 parity           : K1_offgrid=".to_owned();
    s.append(number(t.s10_off_grid).as_str());
    s.append(" K1_gaps=");
    s.append(number(t.s10_gaps).as_str());
    s.append(" K2_misaligned=");
    s.append(number(t.s10_misaligned).as_str());
    s.append(" coverage=");
    s.append(show(&t.s10_coverage));
    s.append(mark_worst_text(t.s10_coverage_fail, " [FAIL]", t.s10_coverage_warn, " [WARN]"));
    s
}

pub open spec fn rollup_line(t: TickerReport) -> Seq<char> {
    "   kline rollup-parity  : "@
        + text::decimal(t.rollup_violations as int)
        + " violation(s)"@
}

fn write_rollup_line(t: &TickerReport) -> (s: String)
    ensures
        s@ == rollup_line(*t),
{
    let mut s: String = "   kline rollup-parity  : ".to_owned();
    s.append(number(t.rollup_violations).as_str());
    s.append(" violation(s)");
    s
}

pub open spec fn verdict_line(t: TickerReport) -> Seq<char> {
    "   VERDICT              : "@
        + t.verdict@
}

fn write_verdict_line(t: &TickerReport) -> (s: String)
    ensures
        s@ == verdict_line(*t),
{
    let mut s: String = "   VERDICT              : ".to_owned();
    s.append(t.verdict.as_str());
    s
}

pub open spec fn reasons_line(t: TickerReport) -> Seq<char> {
    "     reasons: "@
        + text::joined_with(text::texts(t.fail_reasons@), "; "@)
}

fn write_reasons_line(t: &TickerReport) -> (s: String)
    ensures
        s@ == reasons_line(*t),
{
    let mut s: String = "     reasons: ".to_owned();
    s.append(text::join(&t.fail_reasons, "; ").as_str());
    s
}

/// The line of a gap.
pub open spec fn gap_line(g: GapRow) -> Seq<char> {
    "     ["@ + text::signed_decimal(g.start_ts as int) + " → "@ + text::signed_decimal(
        g.end_ts as int,
    ) + "] dt="@ + text::signed_decimal(g.dt_ms as int) + "ms "@ + if g.outage {
        "OUTAGE"@
    } else {
        "quiet"@
    }
}

fn write_gap_line(g: &GapRow) -> (s: String)
    ensures
        s@ == gap_line(*g),
{
    let mut s: String = "     [".to_owned();
    s.append(signed(g.start_ts).as_str());
    s.append(" → ");
    s.append(signed(g.end_ts).as_str());
    s.append("] dt=");
    s.append(signed(g.dt_ms).as_str());
    s.append("ms ");
    s.append(
        if g.outage {
            "OUTAGE"
        } else {
            "quiet"
        },
    );
    s
}

/// The line of a record.
pub open spec fn sample_line(r: SampleRow) -> Seq<char> {
    "     @ts="@
        + text::signed_decimal(r.ts as int)
        + " "@
        + r.reason@
        + " (bid="@
        + r.bid@
        + ", ask="@
        + r.ask@
        + ", spread_bps="@
        + r.spread_bps@
        + ")"@
}

fn write_sample_line(r: &SampleRow) -> (s: String)
    ensures
        s@ == sample_line(*r),
{
    let mut s: String = "     @ts=".to_owned();
    s.append(signed(r.ts).as_str());
    s.append(" ");
    s.append(r.reason.as_str());
    s.append(" (bid=");
    s.append(r.bid.as_str());
    s.append(", ask=");
    s.append(r.ask.as_str());
    s.append(", spread_bps=");
    s.append(r.spread_bps.as_str());
    s.append(")");
    s
}

fn add_line(out: &mut Vec<String>, line: String)
    ensures
        text::texts(final(out)@) == text::texts(old(out)@).push(line@),
{
    let ghost was = text::texts(out@);
    let ghost added = line@;
    out.push(line);
    assert(text::texts(out@) =~= was.push(added));
}

/// The lines, and one more if it is called for.
pub open spec fn and_when(lines: Seq<Seq<char>>, b: bool, line: Seq<char>) -> Seq<Seq<char>> {
    if b {
        lines.push(line)
    } else {
        lines
    }
}

/// Lines of remarks.
pub open spec fn indented(items: Seq<Seq<char>>) -> Seq<Seq<char>> {
    Seq::new(items.len(), |i: int| "     "@ + items[i])
}

fn add_indented(out: &mut Vec<String>, items: &Vec<String>)
    ensures
        text::texts(final(out)@) == text::texts(old(out)@) + indented(text::texts(items@)),
{
    let ghost was = text::texts(out@);
    let ghost want = indented(text::texts(items@));
    let mut i: usize = 0;
    assert(was + want.take(0) =~= was);
    while i < items.len()
        invariant
            i <= items.len(),
            want == indented(text::texts(items@)),
            text::texts(out@) == was + want.take(i as int),
        decreases items.len() - i,
    {
        let mut s: String = "     ".to_owned();
        s.append(items[i].as_str());
        add_line(out, s);
        assert(was + want.take(i + 1) =~= (was + want.take(i as int)).push(want[i as int]));
        i = i + 1;
    }
    assert(want.take(i as int) =~= want);
}

pub open spec fn gap_lines(g: Seq<GapRow>) -> Seq<Seq<char>> {
    Seq::new(g.len(), |i: int| gap_line(g[i]))
}

fn add_gaps(out: &mut Vec<String>, gaps: &Vec<GapRow>)
    ensures
        text::texts(final(out)@) == text::texts(old(out)@) + gap_lines(gaps@),
{
    let ghost was = text::texts(out@);
    let ghost want = gap_lines(gaps@);
    let mut i: usize = 0;
    assert(was + want.take(0) =~= was);
    while i < gaps.len()
        invariant
            i <= gaps.len(),
            want == gap_lines(gaps@),
            text::texts(out@) == was + want.take(i as int),
        decreases gaps.len() - i,
    {
        add_line(out, write_gap_line(&gaps[i]));
        assert(was + want.take(i + 1) =~= (was + want.take(i as int)).push(want[i as int]));
        i = i + 1;
    }
    assert(want.take(i as int) =~= want);
}

pub open spec fn sample_lines(r: Seq<SampleRow>) -> Seq<Seq<char>> {
    Seq::new(r.len(), |i: int| sample_line(r[i]))
}

fn add_samples(out: &mut Vec<String>, rows: &Vec<SampleRow>)
    ensures
        text::texts(final(out)@) == text::texts(old(out)@) + sample_lines(rows@),
{
    let ghost was = text::texts(out@);
    let ghost want = sample_lines(rows@);
    let mut i: usize = 0;
    assert(was + want.take(0) =~= was);
    while i < rows.len()
        invariant
            i <= rows.len(),
            want == sample_lines(rows@),
            text::texts(out@) == was + want.take(i as int),
        decreases rows.len() - i,
    {
        add_line(out, write_sample_line(&rows[i]));
        assert(was + want.take(i + 1) =~= (was + want.take(i as int)).push(want[i as int]));
        i = i + 1;
    }
    assert(want.take(i as int) =~= want);
}

/// The lines on a ticker's index.
pub open spec fn index_lines(lines: Seq<Seq<char>>, t: TickerReport) -> Seq<Seq<char>> {
    let counted = lines.push(records_line(t)).push(gaps_line(t));
    let missing = counted.push(
        if t.missing_days > 0 {
            missing_line(t)
        } else {
            "   missing UTC days     : 0"@
        },
    );
    let gaps = if t.worst_gaps@.len() > 0 {
        missing.push("   worst gaps:"@) + gap_lines(t.worst_gaps@)
    } else {
        missing
    };
    let judged = gaps.push(invariants_line(t));
    let fresh = and_when(judged, t.conf_stale > 0, freshness_line(t));
    let deep = and_when(fresh, t.zero_depth > 0 || t.one_sided_depth > 0, depth_line(t));
    let taken = and_when(
        deep,
        t.reject_dominant > 0 || t.reject_rate_warn,
        reject_line(t),
    );
    taken + sample_lines(t.invariant_samples@)
}

fn add_index(out: &mut Vec<String>, t: &TickerReport)
    ensures
        text::texts(final(out)@) == index_lines(text::texts(old(out)@), *t),
{
    add_line(out, write_records_line(t));
    add_line(out, write_gaps_line(t));
    if t.missing_days > 0 {
        add_line(out, write_missing_line(t));
    } else {
        add_line(out, "   missing UTC days     : 0".to_owned());
    }
    if t.worst_gaps.len() > 0 {
        add_line(out, "   worst gaps:".to_owned());
        add_gaps(out, &t.worst_gaps);
    }
    add_line(out, write_invariants_line(t));
    if t.conf_stale > 0 {
        add_line(out, write_freshness_line(t));
    }
    if t.zero_depth > 0 || t.one_sided_depth > 0 {
        add_line(out, write_depth_line(t));
    }
    if t.reject_dominant > 0 || t.reject_rate_warn {
        add_line(out, write_reject_line(t));
    }
    add_samples(out, &t.invariant_samples);
}

/// The lines on a ticker's prices.
pub open spec fn price_lines(lines: Seq<Seq<char>>, t: TickerReport) -> Seq<Seq<char>> {
    let health = lines.push(anomalies_line(t)).push(sigma_line(t)).push(feed_line(t));
    let vol = and_when(health, t.vol_present, vol_line(t));
    and_when(vol, t.crypto_stable, "   crypto_stable        : YES (renko bpd check skipped)"@)
}

fn add_prices(out: &mut Vec<String>, t: &TickerReport)
    ensures
        text::texts(final(out)@) == price_lines(text::texts(old(out)@), *t),
{
    add_line(out, write_anomalies_line(t));
    add_line(out, write_sigma_line(t));
    add_line(out, write_feed_line(t));
    if t.vol_present {
        add_line(out, write_vol_line(t));
    }
    if t.crypto_stable {
        add_line(out, "   crypto_stable        : YES (renko bpd check skipped)".to_owned());
    }
}

/// The lines on a ticker's renko bars.
pub open spec fn renko_lines(lines: Seq<Seq<char>>, t: TickerReport) -> Seq<Seq<char>> {
    if t.renko_days > 0 {
        lines.push(cadence_line(t)).push(calibration_line(t)).push(provenance_line(t)).push(
            floor_line(t),
        ).push(distribution_line(t)) + indented(text::texts(t.renko_samples@))
    } else {
        lines.push("   renko                : no .renko shards in window"@)
    }
}

fn add_renko(out: &mut Vec<String>, t: &TickerReport)
    ensures
        text::texts(final(out)@) == renko_lines(text::texts(old(out)@), *t),
{
    if t.renko_days > 0 {
        add_line(out, write_cadence_line(t));
        add_line(out, write_calibration_line(t));
        add_line(out, write_provenance_line(t));
        add_line(out, write_floor_line(t));
        add_line(out, write_distribution_line(t));
        add_indented(out, &t.renko_samples);
    } else {
        add_line(out, "   renko                : no .renko shards in window".to_owned());
    }
}

/// The lines on a ticker's ten-second bars, and the verdict.
pub open spec fn bar_lines(lines: Seq<Seq<char>>, t: TickerReport) -> Seq<Seq<char>> {
    let s10 = lines.push(s10_line(t)).push(parity_line(t)) + indented(text::texts(t.s10_samples@));
    let rolled = if t.rollup_violations > 0 {
        s10.push(rollup_line(t)) + indented(text::texts(t.rollup_samples@))
    } else {
        s10
    };
    and_when(rolled.push(verdict_line(t)), t.fail_reasons@.len() > 0, reasons_line(t))
}

fn add_bars(out: &mut Vec<String>, t: &TickerReport)
    ensures
        text::texts(final(out)@) == bar_lines(text::texts(old(out)@), *t),
{
    add_line(out, write_s10_line(t));
    add_line(out, write_parity_line(t));
    add_indented(out, &t.s10_samples);
    if t.rollup_violations > 0 {
        add_line(out, write_rollup_line(t));
        add_indented(out, &t.rollup_samples);
    }
    add_line(out, write_verdict_line(t));
    if t.fail_reasons.len() > 0 {
        add_line(out, write_reasons_line(t));
    }
}

/// All lines on a ticker.
pub open spec fn ticker_lines(lines: Seq<Seq<char>>, t: TickerReport) -> Seq<Seq<char>> {
    let titled = lines.push(title_line(t));
    if !t.has_data {
        titled.push("   NO DATA in window."@)
    } else {
        bar_lines(renko_lines(price_lines(index_lines(titled, t), t), t), t)
    }
}

fn add_ticker(out: &mut Vec<String>, t: &TickerReport)
    ensures
        text::texts(final(out)@) == ticker_lines(text::texts(old(out)@), *t),
{
    add_line(out, write_title_line(t));
    if !t.has_data {
        add_line(out, "   NO DATA in window.".to_owned());
        return ;
    }
    add_index(out, t);
    add_prices(out, t);
    add_renko(out, t);
    add_bars(out, t);
}

/// A cell of the summary: spaces up to a width, then the text.
pub open spec fn cell(s: Seq<char>, width: int) -> Seq<char> {
    Seq::new(
        if s.len() < width {
            (width - s.len()) as nat
        } else {
            0
        },
        |i: int| ' ',
    ) + s
}

fn add_cell(row: &mut String, s: &str, width: usize)
    ensures
        final(row)@ == old(row)@ + " "@ + cell(s@, width as int),
{
    let n: usize = s.unicode_len();
    let ghost start = row@ + " "@;
    row.append(" ");
    let mut k: usize = n;
    proof {
        reveal_strlit(" ");
        assert(" "@ =~= seq![' ']);
        assert(start + Seq::new(0, |i: int| ' ') =~= start);
    }
    while k < width
        invariant
            n <= k,
            k <= width || k == n,
            row@ == start + Seq::new((k - n) as nat, |i: int| ' '),
            " "@ == seq![' '],
        decreases
            if k < width {
                width - k
            } else {
                0
            },
    {
        row.append(" ");
        assert(row@ =~= start + Seq::new((k + 1 - n) as nat, |i: int| ' '));
        k = k + 1;
    }
    row.append(s);
    assert(row@ =~= start + cell(s@, width as int));
}

/// Bricks per day in the summary.
pub open spec fn bpd_cell(t: TickerReport) -> Seq<char> {
    if t.renko_skipped_stable {
        "skip"@
    } else {
        shown(t.renko_bpd)
    }
}

/// Ten cells side by side.
pub open spec fn ten_cells(c: Seq<Seq<char>>) -> Seq<char> {
    Seq::<char>::empty() + " "@ + cell(c[0], 12) + " "@ + cell(c[1], 10) + " "@ + cell(c[2], 7)
        + " "@ + cell(c[3], 7) + " "@ + cell(c[4], 7) + " "@ + cell(c[5], 7) + " "@ + cell(c[6], 7)
        + " "@ + cell(c[7], 12) + " "@ + cell(c[8], 9) + " "@ + cell(c[9], 7)
}

/// The cells of a ticker in the summary.
pub open spec fn summary_cells(t: TickerReport) -> Seq<Seq<char>> {
    seq![
        text::decimal(t.ticker_id as int),
        text::decimal(t.records as int),
        text::decimal(t.outage_gaps as int),
        text::decimal(t.missing_days as int),
        text::decimal(t.invariant_violations as int),
        text::decimal(t.mad_outliers as int),
        text::decimal(t.cusum_alarms as int),
        shown(t.sigma_park_ann),
        bpd_cell(t),
        t.verdict@,
    ]
}

fn write_summary(t: &TickerReport) -> (s: String)
    ensures
        s@ == ten_cells(summary_cells(*t)),
{
    let mut s: String = "".to_owned();
    proof {
        reveal_strlit("");
        assert(""@ =~= Seq::<char>::empty());
    }
    add_cell(&mut s, number(t.ticker_id).as_str(), 12);
    add_cell(&mut s, number(t.records).as_str(), 10);
    add_cell(&mut s, number(t.outage_gaps).as_str(), 7);
    add_cell(&mut s, number(t.missing_days).as_str(), 7);
    add_cell(&mut s, number(t.invariant_violations).as_str(), 7);
    add_cell(&mut s, number(t.mad_outliers).as_str(), 7);
    add_cell(&mut s, number(t.cusum_alarms).as_str(), 7);
    add_cell(&mut s, show(&t.sigma_park_ann), 12);
    add_cell(
        &mut s,
        if t.renko_skipped_stable {
            "skip"
        } else {
            show(&t.renko_bpd)
        },
        9,
    );
    add_cell(&mut s, t.verdict.as_str(), 7);
    s
}

/// The headings of the summary.
pub open spec fn headings() -> Seq<Seq<char>> {
    seq![
        "ticker"@,
        "records"@,
        "outage"@,
        "missday"@,
        "invviol"@,
        "madout"@,
        "cusum"@,
        "sigma_ann"@,
        "renkobpd"@,
        "verdict"@,
    ]
}

fn write_headings() -> (s: String)
    ensures
        s@ == ten_cells(headings()),
{
    let mut s: String = "".to_owned();
    proof {
        reveal_strlit("");
        assert(""@ =~= Seq::<char>::empty());
    }
    add_cell(&mut s, "ticker", 12);
    add_cell(&mut s, "records", 10);
    add_cell(&mut s, "outage", 7);
    add_cell(&mut s, "missday", 7);
    add_cell(&mut s, "invviol", 7);
    add_cell(&mut s, "madout", 7);
    add_cell(&mut s, "cusum", 7);
    add_cell(&mut s, "sigma_ann", 12);
    add_cell(&mut s, "renkobpd", 9);
    add_cell(&mut s, "verdict", 7);
    s
}

pub open spec fn heavy() -> Seq<char> {
    "══════════════════════════════════════════════════════════════════════"@
}

pub open spec fn light() -> Seq<char> {
    "──────────────────────────────────────────────────────────────────────"@
}

fn heavy_rule() -> (s: String)
    ensures
        s@ == heavy(),
{
    "══════════════════════════════════════════════════════════════════════".to_owned()
}

fn light_rule() -> (s: String)
    ensures
        s@ == light(),
{
    "──────────────────────────────────────────────────────────────────────".to_owned()
}

pub open spec fn root_line(r: AuditReport) -> Seq<char> {
    " data_root        : "@
        + r.data_root@
}

fn write_root_line(r: &AuditReport) -> (s: String)
    ensures
        s@ == root_line(*r),
{
    let mut s: String = " data_root        : ".to_owned();
    s.append(r.data_root.as_str());
    s
}

pub open spec fn window_line(r: AuditReport) -> Seq<char> {
    " window           : "@
        + r.window_start@
        + " → "@
        + r.window_end@
        + " ("@
        + text::signed_decimal(r.window_days as int)
        + " days)"@
}

fn write_window_line(r: &AuditReport) -> (s: String)
    ensures
        s@ == window_line(*r),
{
    let mut s: String = " window           : ".to_owned();
    s.append(r.window_start.as_str());
    s.append(" → ");
    s.append(r.window_end.as_str());
    s.append(" (");
    s.append(signed(r.window_days).as_str());
    s.append(" days)");
    s
}

pub open spec fn limits_line(r: AuditReport) -> Seq<char> {
    " max_gap_ms="@
        + text::signed_decimal(r.max_gap_ms as int)
        + "  quiet_tolerance_ms="@
        + text::signed_decimal(r.quiet_tolerance_ms as int)
        + "  target_bpd="@
        + r.target_bpd@
}

fn write_limits_line(r: &AuditReport) -> (s: String)
    ensures
        s@ == limits_line(*r),
{
    let mut s: String = " max_gap_ms=".to_owned();
    s.append(signed(r.max_gap_ms).as_str());
    s.append("  quiet_tolerance_ms=");
    s.append(signed(r.quiet_tolerance_ms).as_str());
    s.append("  target_bpd=");
    s.append(r.target_bpd.as_str());
    s
}

/// The lines that open the report.
pub open spec fn opening(r: AuditReport) -> Seq<Seq<char>> {
    let lines = seq![
        heavy(),
        " NXR DATA-QUALITY AUDIT"@,
        light(),
        root_line(r),
        window_line(r),
        limits_line(r),
        heavy(),
    ];
    and_when(
        lines,
        r.tickers@.len() == 0,
        "\n  (no ticker directories found under indexes/ — nothing to audit)\n"@,
    )
}

fn write_opening(r: &AuditReport) -> (out: Vec<String>)
    ensures
        text::texts(out@) == opening(*r),
{
    let mut out: Vec<String> = Vec::new();
    assert(text::texts(out@) =~= Seq::<Seq<char>>::empty());
    add_line(&mut out, heavy_rule());
    add_line(&mut out, " NXR DATA-QUALITY AUDIT".to_owned());
    add_line(&mut out, light_rule());
    add_line(&mut out, write_root_line(r));
    add_line(&mut out, write_window_line(r));
    add_line(&mut out, write_limits_line(r));
    add_line(&mut out, heavy_rule());
    assert(text::texts(out@) =~= seq![
        heavy(),
        " NXR DATA-QUALITY AUDIT"@,
        light(),
        root_line(*r),
        window_line(*r),
        limits_line(*r),
        heavy(),
    ]);
    if r.tickers.len() == 0 {
        add_line(
            &mut out,
            "\n  (no ticker directories found under indexes/ — nothing to audit)\n".to_owned(),
        );
    }
    out
}

/// The lines with those on the first `n` tickers.
pub open spec fn with_tickers(lines: Seq<Seq<char>>, t: Seq<TickerReport>, n: int) -> Seq<Seq<char>>
    decreases n,
{
    if n <= 0 {
        lines
    } else {
        ticker_lines(with_tickers(lines, t, n - 1), t[n - 1])
    }
}

pub open spec fn verdict_is(t: Seq<TickerReport>, v: Seq<char>) -> spec_fn(int) -> bool {
    |i: int| t[i].verdict@ == v
}

/// Number of tickers with a verdict.
pub fn count_verdicts(t: &Vec<TickerReport>, v: &str) -> (n: u64)
    ensures
        n == tally::count(t.len() as int, verdict_is(t@, v@)),
{
    let mut n: u64 = 0;
    let mut i: usize = 0;
    while i < t.len()
        invariant
            i <= t.len(),
            n <= i,
            n == tally::count(i as int, verdict_is(t@, v@)),
        decreases t.len() - i,
    {
        if text::same(t[i].verdict.as_str(), v) {
            n = n + 1;
        }
        i = i + 1;
    }
    n
}

/// Exit code of an audit: 1 when a ticker fails.
pub fn exit_code(t: &Vec<TickerReport>) -> (c: i32)
    ensures
        c == if tally::count(t.len() as int, verdict_is(t@, "FAIL"@)) > 0 {
            1int
        } else {
            0
        },
{
    if count_verdicts(t, "FAIL") > 0 {
        1
    } else {
        0
    }
}

/// The line of totals.
pub open spec fn totals_line(t: Seq<TickerReport>) -> Seq<char> {
    let n = t.len() as int;
    " PASS="@ + text::decimal(tally::count(n, verdict_is(t, "PASS"@)) as int) + "  FAIL="@
        + text::decimal(tally::count(n, verdict_is(t, "FAIL"@)) as int) + "  NO_DATA="@
        + text::decimal(tally::count(n, verdict_is(t, "NO_DATA"@)) as int)
}

fn write_totals(t: &Vec<TickerReport>) -> (s: String)
    ensures
        s@ == totals_line(t@),
{
    let mut s: String = " PASS=".to_owned();
    s.append(number(count_verdicts(t, "PASS")).as_str());
    s.append("  FAIL=");
    s.append(number(count_verdicts(t, "FAIL")).as_str());
    s.append("  NO_DATA=");
    s.append(number(count_verdicts(t, "NO_DATA")).as_str());
    s
}

/// The rows of the summary.
pub open spec fn summary_rows(t: Seq<TickerReport>) -> Seq<Seq<char>> {
    Seq::new(t.len(), |i: int| ten_cells(summary_cells(t[i])))
}

/// The lines of the whole report.
pub open spec fn report_lines(r: AuditReport) -> Seq<Seq<char>> {
    let t = r.tickers@;
    let detail = with_tickers(opening(r), t, t.len() as int);
    let table = detail.push("\n"@ + heavy()).push(" SUMMARY"@).push(light()).push(
        ten_cells(headings()),
    ) + summary_rows(t);
    table.push(light()).push(totals_line(t)).push(heavy())
}

/// The report as lines of text.
pub fn print_human(r: &AuditReport) -> (out: Vec<String>)
    ensures
        text::texts(out@) == report_lines(*r),
{
    let mut out = write_opening(r);
    let mut i: usize = 0;
    while i < r.tickers.len()
        invariant
            i <= r.tickers.len(),
            text::texts(out@) == with_tickers(opening(*r), r.tickers@, i as int),
        decreases r.tickers.len() - i,
    {
        add_ticker(&mut out, &r.tickers[i]);
        i = i + 1;
    }
    let mut rule: String = "\n".to_owned();
    rule.append(heavy_rule().as_str());
    add_line(&mut out, rule);
    add_line(&mut out, " SUMMARY".to_owned());
    add_line(&mut out, light_rule());
    add_line(&mut out, write_headings());
    let ghost was = text::texts(out@);
    let ghost want = summary_rows(r.tickers@);
    let mut i: usize = 0;
    assert(was + want.take(0) =~= was);
    while i < r.tickers.len()
        invariant
            i <= r.tickers.len(),
            want == summary_rows(r.tickers@),
            text::texts(out@) == was + want.take(i as int),
        decreases r.tickers.len() - i,
    {
        add_line(&mut out, write_summary(&r.tickers[i]));
        assert(was + want.take(i + 1) =~= (was + want.take(i as int)).push(want[i as int]));
        i = i + 1;
    }
    assert(want.take(i as int) =~= want);
    add_line(&mut out, light_rule());
    add_line(&mut out, write_totals(&r.tickers));
    add_line(&mut out, heavy_rule());
    out
}

/// A failed ticker is one of the totals: an audit exits with 0 exactly when none
/// of its tickers failed.
pub proof fn exit_reflects_failures(t: Seq<TickerReport>)
    ensures
        tally::count(t.len() as int, verdict_is(t, "FAIL"@)) == 0 <==> forall|i: int|
            0 <= i < t.len() ==> (#[trigger] t[i]).verdict@ != "FAIL"@,
{
    let p = verdict_is(t, "FAIL"@);
    tally::lemma_count_zero(t.len() as int, p);
    if tally::count(t.len() as int, p) == 0 {
        assert forall|i: int| 0 <= i < t.len() implies (#[trigger] t[i]).verdict@ != "FAIL"@ by {
            assert(!p(i));
        }
    }
}

} // verus!
