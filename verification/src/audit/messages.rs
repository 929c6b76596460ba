//! What a report says of a finding.
//!
//! Counts, times and days are written here; rounded numbers come with their text, as
//! the caller writes them.

use vstd::prelude::*;
use crate::audit::kline;
use crate::audit::kline::{BarDefect, Ohlc, RollupDefect, S10Bar, S10Event};
use crate::audit::verdict::{Findings, Reason, Verdict};
use crate::calendar;
use crate::calendar::Date;
use crate::integrity::messages;
use crate::tally;
use crate::text;

verus! {

/// What is wrong with a ten-second bar.
pub open spec fn defect_said(d: BarDefect) -> Seq<char> {
    match d {
        BarDefect::NonFinite => "non-finite OHLC"@,
        BarDefect::LowAboveHigh => "low > high"@,
        BarDefect::OpenOutside => "open outside [low,high]"@,
        BarDefect::CloseOutside => "close outside [low,high]"@,
        BarDefect::OpensAfterClose => "open_ts > close_ts"@,
        BarDefect::Overlaps => "overlapping bucket (open_ts < prev close_ts)"@,
    }
}

fn defect_text(d: BarDefect) -> (s: &'static str)
    ensures
        s@ == defect_said(d),
{
    match d {
        BarDefect::NonFinite => "non-finite OHLC",
        BarDefect::LowAboveHigh => "low > high",
        BarDefect::OpenOutside => "open outside [low,high]",
        BarDefect::CloseOutside => "close outside [low,high]",
        BarDefect::OpensAfterClose => "open_ts > close_ts",
        BarDefect::Overlaps => "overlapping bucket (open_ts < prev close_ts)",
    }
}

/// The bar that a finding is about.
pub open spec fn bar_of(e: S10Event) -> int {
    match e {
        S10Event::Seam { at } => at as int,
        S10Event::Broken { at, defect: _ } => at as int,
        S10Event::Misaligned { at } => at as int,
        S10Event::OffGrid { at } => at as int,
    }
}

/// The finding is about a bar and the one before it.
pub open spec fn looks_back(e: S10Event) -> bool {
    e is Seam || e is OffGrid
}

/// What a report says of a finding on ten-second bars, each with the day of its shard.
pub open spec fn s10_said(e: S10Event, bars: Seq<S10Bar>, dates: Seq<Date>) -> Seq<char> {
    let at = bar_of(e);
    let b = bars[at];
    let p = bars[at - 1];
    let width = text::signed_decimal(kline::S10_BUCKET_MS as int);
    "["@ + calendar::label(dates[at]) + match e {
        S10Event::Seam { .. } => "] K1 seam residual "@ + text::signed_decimal(
            b.close_ms - p.close_ms - kline::S10_BUCKET_MS,
        ) + "ms > jitter (close-grid) at shard boundary"@,
        S10Event::Broken { defect, .. } => "] ts="@ + text::signed_decimal(b.open_ms as int) + " "@
            + defect_said(defect),
        S10Event::Misaligned { .. } => "] K2 off-grid open_ts="@ + text::signed_decimal(
            b.open_ms as int,
        ) + " (% "@ + width + " = "@ + text::signed_decimal(
            messages::remainder(b.open_ms, kline::S10_BUCKET_MS),
        ) + ")"@,
        S10Event::OffGrid { .. } => "] K1 off-grid boundary: open_ts "@ + text::signed_decimal(
            b.open_ms as int,
        ) + " - prev_open "@ + text::signed_decimal(p.open_ms as int) + " = "@
            + text::signed_decimal(b.open_ms - p.open_ms) + " ms (not mult of "@ + width + ")"@,
    }
}

/// What a report says of a finding on ten-second bars, each with the day of its shard.
pub fn s10_message(e: S10Event, bars: &Vec<S10Bar>, dates: &Vec<Date>) -> (s: String)
    requires
        bar_of(e) < bars.len(),
        dates.len() == bars.len(),
        dates@[bar_of(e)].valid(),
        looks_back(e) ==> bar_of(e) > 0,
    ensures
        s@ == s10_said(e, bars@, dates@),
{
    let at: usize = match e {
        S10Event::Seam { at } => at,
        S10Event::Broken { at, defect: _ } => at,
        S10Event::Misaligned { at } => at,
        S10Event::OffGrid { at } => at,
    };
    let b = &bars[at];
    let width = text::signed_wide(kline::S10_BUCKET_MS as i128);
    let mut s: String = "[".to_owned();
    s.append(dates[at].to_label().as_str());
    let mut rest: String = String::new();
    match e {
        S10Event::Seam { .. } => {
            let off: i128 = b.close_ms as i128 - bars[at - 1].close_ms as i128
                - kline::S10_BUCKET_MS as i128;
            rest.append("] K1 seam residual ");
            rest.append(text::signed_wide(off).as_str());
            rest.append("ms > jitter (close-grid) at shard boundary");
        },
        S10Event::Broken { at: _, defect } => {
            rest.append("] ts=");
            rest.append(text::signed_wide(b.open_ms as i128).as_str());
            rest.append(" ");
            rest.append(defect_text(defect));
        },
        S10Event::Misaligned { .. } => {
            rest.append("] K2 off-grid open_ts=");
            rest.append(text::signed_wide(b.open_ms as i128).as_str());
            rest.append(" (% ");
            rest.append(width.as_str());
            rest.append(" = ");
            rest.append(
                text::signed_wide(
                    messages::rest_of(b.open_ms, kline::S10_BUCKET_MS) as i128,
                ).as_str(),
            );
            rest.append(")");
        },
        S10Event::OffGrid { .. } => {
            let p = &bars[at - 1];
            let step: i128 = b.open_ms as i128 - p.open_ms as i128;
            rest.append("] K1 off-grid boundary: open_ts ");
            rest.append(text::signed_wide(b.open_ms as i128).as_str());
            rest.append(" - prev_open ");
            rest.append(text::signed_wide(p.open_ms as i128).as_str());
            rest.append(" = ");
            rest.append(text::signed_wide(step).as_str());
            rest.append(" ms (not mult of ");
            rest.append(width.as_str());
            rest.append(")");
        },
    }
    s.append(rest.as_str());
    s
}

/// Numbers of a rolled-up bar, as text.
#[derive(Debug)]
pub struct RollupTexts {
    pub high: String,
    pub low: String,
    /// The bar's mean confidence interval, and that of its source bars.
    pub ci: String,
    pub want_ci: String,
}

/// What is wrong with a rolled-up bar.
pub open spec fn rollup_why(
    src: Seq<Ohlc>,
    bar: Ohlc,
    tf_ms: i64,
    d: RollupDefect,
    t: RollupTexts,
) -> Seq<char> {
    let n = src.len() as int;
    match d {
        RollupDefect::NonFinite => "non-finite OHLC"@,
        RollupDefect::HighBelowLow => "high "@ + t.high@ + " < low "@ + t.low@,
        RollupDefect::HighBelowBody => "high < max(open,close)"@,
        RollupDefect::LowAboveBody => "low > min(open,close)"@,
        RollupDefect::Unaligned => "ts "@ + text::signed_decimal(bar.ts as int)
            + " not aligned to "@ + text::signed_decimal(tf_ms as int),
        RollupDefect::Ticks => "tick_count "@ + text::decimal(bar.tick_count as int)
            + " != Σ src "@ + text::decimal(tally::total(n, kline::ticks_in(src, tf_ms, bar.ts)))
            + " over bucket"@,
        RollupDefect::BidVolume => "vbid "@ + text::decimal(bar.vbid as int) + " != Σ src "@
            + text::decimal(tally::total(n, kline::vbid_in(src, tf_ms, bar.ts))) + " over bucket"@,
        RollupDefect::AskVolume => "vask "@ + text::decimal(bar.vask as int) + " != Σ src "@
            + text::decimal(tally::total(n, kline::vask_in(src, tf_ms, bar.ts))) + " over bucket"@,
        RollupDefect::Confidence => "ci_ubp(decoded) "@ + t.ci@ + " != tick-weighted Σ mean "@
            + t.want_ci@ + " over bucket"@,
        RollupDefect::Phantom => "rolled bucket has no source bars"@,
    }
}

/// What a report says of a rolled-up bar, after the name of its timeframe.
pub open spec fn rollup_said(
    label: Seq<char>,
    src: Seq<Ohlc>,
    bar: Ohlc,
    tf_ms: i64,
    d: RollupDefect,
    t: RollupTexts,
) -> Seq<char> {
    "[rollup "@ + label + "] ts="@ + text::signed_decimal(bar.ts as int) + " "@ + rollup_why(
        src,
        bar,
        tf_ms,
        d,
        t,
    )
}

/// What a report says of a rolled-up bar, after the name of its timeframe.
pub fn rollup_message(
    label: &str,
    src: &Vec<Ohlc>,
    bar: &Ohlc,
    tf_ms: i64,
    d: RollupDefect,
    t: &RollupTexts,
) -> (s: String)
    requires
        tf_ms > 0,
    ensures
        s@ == rollup_said(label@, src@, *bar, tf_ms, d, *t),
{
    let sums = kline::bucket_sums(src, tf_ms, bar.ts);
    let mut why: String = String::new();
    match d {
        RollupDefect::NonFinite => {
            why.append("non-finite OHLC");
        },
        RollupDefect::HighBelowLow => {
            why.append("high ");
            why.append(t.high.as_str());
            why.append(" < low ");
            why.append(t.low.as_str());
        },
        RollupDefect::HighBelowBody => {
            why.append("high < max(open,close)");
        },
        RollupDefect::LowAboveBody => {
            why.append("low > min(open,close)");
        },
        RollupDefect::Unaligned => {
            why.append("ts ");
            why.append(text::signed_wide(bar.ts as i128).as_str());
            why.append(" not aligned to ");
            why.append(text::signed_wide(tf_ms as i128).as_str());
        },
        RollupDefect::Ticks => {
            why.append("tick_count ");
            why.append(text::decimal_wide(bar.tick_count as u128).as_str());
            why.append(" != Σ src ");
            why.append(text::decimal_wide(sums.ticks).as_str());
            why.append(" over bucket");
        },
        RollupDefect::BidVolume => {
            why.append("vbid ");
            why.append(text::decimal_wide(bar.vbid as u128).as_str());
            why.append(" != Σ src ");
            why.append(text::decimal_wide(sums.vbid).as_str());
            why.append(" over bucket");
        },
        RollupDefect::AskVolume => {
            why.append("vask ");
            why.append(text::decimal_wide(bar.vask as u128).as_str());
            why.append(" != Σ src ");
            why.append(text::decimal_wide(sums.vask).as_str());
            why.append(" over bucket");
        },
        RollupDefect::Confidence => {
            why.append("ci_ubp(decoded) ");
            why.append(t.ci.as_str());
            why.append(" != tick-weighted Σ mean ");
            why.append(t.want_ci.as_str());
            why.append(" over bucket");
        },
        RollupDefect::Phantom => {
            why.append("rolled bucket has no source bars");
        },
    }
    let mut s: String = "[rollup ".to_owned();
    s.append(label);
    s.append("] ts=");
    s.append(text::signed_wide(bar.ts as i128).as_str());
    s.append(" ");
    s.append(why.as_str());
    s
}

/// Numbers of a ticker, those that are rounded as text.
#[derive(Debug)]
pub struct ReasonTexts {
    pub ratio: String,
    /// The multiplier that the bars were made with, where it is known.
    pub k_used: Option<String>,
    pub inferred_bpd: String,
    pub target_bpd: String,
    /// In percent.
    pub coverage: String,
    pub min_day: u64,
    pub median: String,
    pub zero_return_frac: String,
    pub flat_run: u64,
}

/// The multiplier that bars were made with, or a question mark.
pub open spec fn known_k(k: Option<String>) -> Seq<char> {
    match k {
        Some(s) => s@,
        None => "?"@,
    }
}

fn known_k_text(k: &Option<String>) -> (s: &str)
    ensures
        s@ == known_k(*k),
{
    match k {
        Some(s) => s.as_str(),
        None => "?",
    }
}

/// A count and what was counted.
pub open spec fn counted(n: int, what: Seq<char>) -> Seq<char> {
    text::decimal(n) + what
}

fn count_text(n: u128, what: &str) -> (s: String)
    ensures
        s@ == counted(n as int, what@),
{
    let mut s = text::decimal_wide(n);
    s.append(what);
    s
}

/// How a reason to fail is put.
pub open spec fn reason_said(r: Reason, f: Findings, t: ReasonTexts) -> Seq<char> {
    match r {
        Reason::Outages => counted(f.outage_gaps as int, " OUTAGE gap(s)"@),
        Reason::MissingDays => counted(f.missing_days as int, " missing UTC day(s)"@),
        Reason::Invariants => counted(f.invariant_violations as int, " invariant violation(s)"@),
        Reason::S10Bars => counted(f.s10_violations as int, " s10 OHLC violation(s)"@),
        Reason::RenkoCadence => "renko bpd off calibration (ratio "@ + t.ratio@ + ")"@,
        Reason::RenkoSeams => counted(
            f.renko_seam_breaks as int,
            " renko cross-shard discontinuity (R1)"@,
        ),
        Reason::RenkoFloor => counted(
            f.renko_floor_violations as int,
            " renko brick(s) below min_pct floor (R3)"@,
        ),
        Reason::RenkoUncalibrated =>
            "renko uncalibrated: shards exist but no k in ticker-params (R4)"@,
        Reason::RenkoStaleK => "renko_k_stale: shards built with k="@ + known_k(t.k_used)
            + " but current ticker-params k differs by >5% (R4)"@,
        Reason::RenkoImplausibleK =>
            "renko_k_implausible: calibrated k outside sane envelope (FIX #6)"@,
        Reason::RenkoOffBand => "renko inferred_bpd "@ + t.inferred_bpd@ + " off target "@
            + t.target_bpd@ + " by >20% (R4)"@,
        Reason::S10Grid => counted(
            f.s10_off_grid + f.s10_seams,
            " s10 off-grid boundary (K1)"@,
        ),
        Reason::S10Misaligned => counted(
            f.s10_misaligned as int,
            " s10 misaligned bucket(s) (K2)"@,
        ),
        Reason::S10Coverage => "s10 coverage "@ + t.coverage@ + "% < 50% of expected (K3)"@,
        Reason::RenkoDrift => "renko per-day drift: min_day "@ + text::decimal(t.min_day as int)
            + " / median "@ + t.median@ + " (R2)"@,
        Reason::Rollup => counted(
            f.rollup_violations as int,
            " kline rollup-parity violation(s) (K-rollup)"@,
        ),
        Reason::StuckFeed => "stuck/flatline feed (zero_return_frac="@ + t.zero_return_frac@
            + ", longest_flat_run="@ + text::decimal(t.flat_run as int) + ")"@,
    }
}

/// How a reason to fail is put.
pub fn reason_message(r: Reason, f: &Findings, t: &ReasonTexts) -> (s: String)
    ensures
        s@ == reason_said(r, *f, *t),
{
    match r {
        Reason::Outages => count_text(f.outage_gaps as u128, " OUTAGE gap(s)"),
        Reason::MissingDays => count_text(f.missing_days as u128, " missing UTC day(s)"),
        Reason::Invariants => count_text(
            f.invariant_violations as u128,
            " invariant violation(s)",
        ),
        Reason::S10Bars => count_text(f.s10_violations as u128, " s10 OHLC violation(s)"),
        Reason::RenkoCadence => {
            let mut s: String = "renko bpd off calibration (ratio ".to_owned();
            s.append(t.ratio.as_str());
            s.append(")");
            s
        },
        Reason::RenkoSeams => count_text(
            f.renko_seam_breaks as u128,
            " renko cross-shard discontinuity (R1)",
        ),
        Reason::RenkoFloor => count_text(
            f.renko_floor_violations as u128,
            " renko brick(s) below min_pct floor (R3)",
        ),
        Reason::RenkoUncalibrated =>
            "renko uncalibrated: shards exist but no k in ticker-params (R4)".to_owned(),
        Reason::RenkoStaleK => {
            let mut s: String = "renko_k_stale: shards built with k=".to_owned();
            s.append(known_k_text(&t.k_used));
            s.append(" but current ticker-params k differs by >5% (R4)");
            s
        },
        Reason::RenkoImplausibleK =>
            "renko_k_implausible: calibrated k outside sane envelope (FIX #6)".to_owned(),
        Reason::RenkoOffBand => {
            let mut s: String = "renko inferred_bpd ".to_owned();
            s.append(t.inferred_bpd.as_str());
            s.append(" off target ");
            s.append(t.target_bpd.as_str());
            s.append(" by >20% (R4)");
            s
        },
        Reason::S10Grid => count_text(
            f.s10_off_grid as u128 + f.s10_seams as u128,
            " s10 off-grid boundary (K1)",
        ),
        Reason::S10Misaligned => count_text(
            f.s10_misaligned as u128,
            " s10 misaligned bucket(s) (K2)",
        ),
        Reason::S10Coverage => {
            let mut s: String = "s10 coverage ".to_owned();
            s.append(t.coverage.as_str());
            s.append("% < 50% of expected (K3)");
            s
        },
        Reason::RenkoDrift => {
            let mut s: String = "renko per-day drift: min_day ".to_owned();
            s.append(text::decimal_string(t.min_day).as_str());
            s.append(" / median ");
            s.append(t.median.as_str());
            s.append(" (R2)");
            s
        },
        Reason::Rollup => count_text(
            f.rollup_violations as u128,
            " kline rollup-parity violation(s) (K-rollup)",
        ),
        Reason::StuckFeed => {
            let mut s: String = "stuck/flatline feed (zero_return_frac=".to_owned();
            s.append(t.zero_return_frac.as_str());
            s.append(", longest_flat_run=");
            s.append(text::decimal_string(t.flat_run).as_str());
            s.append(")");
            s
        },
    }
}

/// The word for a verdict.
pub open spec fn verdict_word(v: Verdict) -> Seq<char> {
    match v {
        Verdict::NoData => "NO_DATA"@,
        Verdict::Pass => "PASS"@,
        Verdict::Fail(_) => "FAIL"@,
    }
}

/// The reasons of a verdict, as they are put.
pub open spec fn reasons_said(v: Verdict, f: Findings, t: ReasonTexts) -> Seq<Seq<char>> {
    match v {
        Verdict::Fail(reasons) => reasons@.map_values(|r: Reason| reason_said(r, f, t)),
        _ => Seq::empty(),
    }
}

/// The word for a verdict, and its reasons as they are put.
pub fn verdict_message(v: &Verdict, f: &Findings, t: &ReasonTexts) -> (r: (String, Vec<String>))
    ensures
        r.0@ == verdict_word(*v),
        text::texts(r.1@) == reasons_said(*v, *f, *t),
{
    let mut out: Vec<String> = Vec::new();
    match v {
        Verdict::NoData => {
            assert(text::texts(out@) =~= reasons_said(*v, *f, *t));
            ("NO_DATA".to_owned(), out)
        },
        Verdict::Pass => {
            assert(text::texts(out@) =~= reasons_said(*v, *f, *t));
            ("PASS".to_owned(), out)
        },
        Verdict::Fail(reasons) => {
            let mut i: usize = 0;
            while i < reasons.len()
                invariant
                    i <= reasons.len(),
                    out.len() == i,
                    forall|k: int|
                        0 <= k < i ==> (#[trigger] out@[k])@ == reason_said(reasons@[k], *f, *t),
                decreases reasons.len() - i,
            {
                out.push(reason_message(reasons[i], f, t));
                i = i + 1;
            }
            assert(text::texts(out@) =~= reasons_said(*v, *f, *t));
            ("FAIL".to_owned(), out)
        },
    }
}

} // verus!
