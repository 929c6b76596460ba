//! What a report says of a finding.
//!
//! Counts and times are written here; rounded numbers come with their text, as the
//! caller writes them.

use vstd::prelude::*;
use crate::integrity;
use crate::integrity::bars::{BarFinding, BarIssue, BarRecord};
use crate::integrity::idx;
use crate::integrity::idx::{Finding, IdxIssue, IdxRecord, IdxStats};
use crate::integrity::vol::{VolFinding, VolIssue, VolRow};
use crate::text;

verus! {

/// The record that a finding is about; the first for one on the whole file.
pub open spec fn record_of(record: Option<usize>) -> int {
    match record {
        Some(i) => i as int,
        None => 0,
    }
}

/// The record before; the first has none but itself.
pub open spec fn before(at: int) -> int {
    if at > 0 {
        at - 1
    } else {
        0
    }
}

fn index_of(record: Option<usize>) -> (at: usize)
    ensures
        at == record_of(record),
{
    match record {
        Some(i) => i,
        None => 0,
    }
}

fn one_before(at: usize) -> (p: usize)
    ensures
        p == before(at as int),
{
    if at > 0 {
        at - 1
    } else {
        0
    }
}

/// Numbers of an index record and its file, as text.
#[derive(Debug)]
pub struct IdxTexts {
    pub message_type: String,
    pub index_type: String,
    pub bid: String,
    pub floor: String,
    pub ask: String,
    pub invalid: String,
    pub recomputed: String,
    pub reported: String,
    pub ci: String,
    pub ci_limit: String,
    pub jump: String,
    pub freshness: String,
    pub distinct_share: String,
    pub mean_ci: String,
    pub wide_share: String,
}

/// What a report says of a finding on index records.
pub open spec fn idx_said(
    f: Finding,
    records: Seq<IdxRecord>,
    stats: IdxStats,
    t: IdxTexts,
) -> Seq<char> {
    let at = record_of(f.record);
    let before = before(at);
    let r = records[at];
    let p = records[before];
    match f.issue {
        IdxIssue::NotIndex => "header.message_type=0x"@ + t.message_type@ + " != INDEX (0x"@
            + t.index_type@ + ")"@,
        IdxIssue::OutsideEpoch => "ts "@ + text::signed_decimal(r.ts_ms as int)
            + " ms outside sane epoch ["@ + text::signed_decimal(integrity::EPOCH_2000_MS as int)
            + ", now+"@ + text::signed_decimal(integrity::FUTURE_SLACK_MS as int) + "]"@,
        IdxIssue::BackInTime => "ts non-monotone: "@ + text::signed_decimal(r.ts_ms as int)
            + " < prev "@ + text::signed_decimal(p.ts_ms as int),
        IdxIssue::Gap => "gap "@ + text::signed_decimal(r.ts_ms - p.ts_ms) + " ms between rows "@
            + text::signed_decimal(before as int) + ".."@ + text::signed_decimal(at as int) + " (>"@
            + text::signed_decimal(integrity::IDX_MAX_GAP_MS as int) + " ms)"@,
        IdxIssue::BidBelowFloor => "bid "@ + t.bid@ + " below price floor "@ + t.floor@
            + " (or non-finite)"@,
        IdxIssue::AskBelowFloor => "ask "@ + t.ask@ + " below price floor "@ + t.floor@
            + " (or non-finite)"@,
        IdxIssue::Crossed => "crossed quote: ask "@ + t.ask@ + " < bid "@ + t.bid@
            + " (structural)"@,
        IdxIssue::TooManyProviders => "accepted="@ + text::signed_decimal(r.accepted as int)
            + " exceeds sane max "@ + text::signed_decimal(idx::MAX_ACCEPTED_PROVIDERS as int)
            + " (metadata corruption)"@,
        IdxIssue::Invalid => "Index::validate failed: "@ + t.invalid@,
        IdxIssue::SpreadInconsistent => "spread inconsistent: (ask-bid)/mid="@ + t.recomputed@
            + " bps vs reported "@ + t.reported@ + " bps (bid/ask corruption)"@,
        IdxIssue::WideInterval => "ci_price "@ + t.ci@ + " > mid*0.01 = "@ + t.ci_limit@
            + " (degenerate interval)"@,
        IdxIssue::Jump => "mid jump "@ + t.jump@ + "% between rows "@
            + text::signed_decimal(before as int) + ".."@ + text::signed_decimal(at as int)
            + " (>10%)"@,
        IdxIssue::StaleConfidence => "confidence freshness "@ + t.freshness@
            + " < floor 0.05 (stale composite)"@,
        IdxIssue::StuckRun => "stuck feed: "@ + text::signed_decimal(stats.longest_run as int)
            + " consecutive bit-identical mids (>= "@ + text::signed_decimal(idx::STUCK_RUN as int)
            + ")"@,
        IdxIssue::FewDistinctMids => "stuck feed: only "@
            + text::signed_decimal(stats.distinct as int) + " distinct mids over "@
            + text::signed_decimal(stats.real as int) + " non-sentinel finite ("@
            + t.distinct_share@ + " < 0.002)"@,
        IdxIssue::MeanInterval => "strict: mean(ci/mid)="@ + t.mean_ci@
            + " >= 0.01 (avg CI > 100 bps)"@,
        IdxIssue::WideSpreads => "strict: frac(spread>500bps)="@ + t.wide_share@ + " >= 0.005"@,
    }
}

/// What a report says of a finding on index records.
pub fn idx_message(
    f: &Finding,
    records: &Vec<IdxRecord>,
    stats: &IdxStats,
    t: &IdxTexts,
) -> (s: String)
    requires
        record_of(f.record) < records.len(),
    ensures
        s@ == idx_said(*f, records@, *stats, *t),
{
    let at: usize = index_of(f.record);
    let before: usize = one_before(at);
    let r = &records[at];
    let p = &records[before];
    let mut s: String = String::new();
    match f.issue {
        IdxIssue::NotIndex => {
            s.append("header.message_type=0x");
            s.append(t.message_type.as_str());
            s.append(" != INDEX (0x");
            s.append(t.index_type.as_str());
            s.append(")");
        },
        IdxIssue::OutsideEpoch => {
            s.append("ts ");
            s.append(text::signed_wide(r.ts_ms as i128).as_str());
            s.append(" ms outside sane epoch [");
            s.append(text::signed_wide(integrity::EPOCH_2000_MS as i128).as_str());
            s.append(", now+");
            s.append(text::signed_wide(integrity::FUTURE_SLACK_MS as i128).as_str());
            s.append("]");
        },
        IdxIssue::BackInTime => {
            s.append("ts non-monotone: ");
            s.append(text::signed_wide(r.ts_ms as i128).as_str());
            s.append(" < prev ");
            s.append(text::signed_wide(p.ts_ms as i128).as_str());
        },
        IdxIssue::Gap => {
            s.append("gap ");
            s.append(text::signed_wide(r.ts_ms as i128 - p.ts_ms as i128).as_str());
            s.append(" ms between rows ");
            s.append(text::signed_wide(before as i128).as_str());
            s.append("..");
            s.append(text::signed_wide(at as i128).as_str());
            s.append(" (>");
            s.append(text::signed_wide(integrity::IDX_MAX_GAP_MS as i128).as_str());
            s.append(" ms)");
        },
        IdxIssue::BidBelowFloor => {
            s.append("bid ");
            s.append(t.bid.as_str());
            s.append(" below price floor ");
            s.append(t.floor.as_str());
            s.append(" (or non-finite)");
        },
        IdxIssue::AskBelowFloor => {
            s.append("ask ");
            s.append(t.ask.as_str());
            s.append(" below price floor ");
            s.append(t.floor.as_str());
            s.append(" (or non-finite)");
        },
        IdxIssue::Crossed => {
            s.append("crossed quote: ask ");
            s.append(t.ask.as_str());
            s.append(" < bid ");
            s.append(t.bid.as_str());
            s.append(" (structural)");
        },
        IdxIssue::TooManyProviders => {
            s.append("accepted=");
            s.append(text::signed_wide(r.accepted as i128).as_str());
            s.append(" exceeds sane max ");
            s.append(text::signed_wide(idx::MAX_ACCEPTED_PROVIDERS as i128).as_str());
            s.append(" (metadata corruption)");
        },
        IdxIssue::Invalid => {
            s.append("Index::validate failed: ");
            s.append(t.invalid.as_str());
        },
        IdxIssue::SpreadInconsistent => {
            s.append("spread inconsistent: (ask-bid)/mid=");
            s.append(t.recomputed.as_str());
            s.append(" bps vs reported ");
            s.append(t.reported.as_str());
            s.append(" bps (bid/ask corruption)");
        },
        IdxIssue::WideInterval => {
            s.append("ci_price ");
            s.append(t.ci.as_str());
            s.append(" > mid*0.01 = ");
            s.append(t.ci_limit.as_str());
            s.append(" (degenerate interval)");
        },
        IdxIssue::Jump => {
            s.append("mid jump ");
            s.append(t.jump.as_str());
            s.append("% between rows ");
            s.append(text::signed_wide(before as i128).as_str());
            s.append("..");
            s.append(text::signed_wide(at as i128).as_str());
            s.append(" (>10%)");
        },
        IdxIssue::StaleConfidence => {
            s.append("confidence freshness ");
            s.append(t.freshness.as_str());
            s.append(" < floor 0.05 (stale composite)");
        },
        IdxIssue::StuckRun => {
            s.append("stuck feed: ");
            s.append(text::signed_wide(stats.longest_run as i128).as_str());
            s.append(" consecutive bit-identical mids (>= ");
            s.append(text::signed_wide(idx::STUCK_RUN as i128).as_str());
            s.append(")");
        },
        IdxIssue::FewDistinctMids => {
            s.append("stuck feed: only ");
            s.append(text::signed_wide(stats.distinct as i128).as_str());
            s.append(" distinct mids over ");
            s.append(text::signed_wide(stats.real as i128).as_str());
            s.append(" non-sentinel finite (");
            s.append(t.distinct_share.as_str());
            s.append(" < 0.002)");
        },
        IdxIssue::MeanInterval => {
            s.append("strict: mean(ci/mid)=");
            s.append(t.mean_ci.as_str());
            s.append(" >= 0.01 (avg CI > 100 bps)");
        },
        IdxIssue::WideSpreads => {
            s.append("strict: frac(spread>500bps)=");
            s.append(t.wide_share.as_str());
            s.append(" >= 0.005");
        },
    }
    s
}

/// Numbers of a bar and its file, as text.
#[derive(Debug)]
pub struct BarTexts {
    pub high: String,
    pub most: String,
    pub low: String,
    pub least: String,
    pub realized_var: String,
    pub bipower_var: String,
    pub prev_close: String,
    pub open: String,
    pub brick: String,
    pub floor: String,
    pub per_day: String,
    pub drift: String,
    pub imbalance: String,
    pub spread: String,
    pub max_return: String,
    pub covered: String,
    pub expected: String,
}

/// The remainder of a division, with the sign of the number divided.
pub open spec fn remainder(ts: i64, width: i64) -> int {
    if ts >= 0 {
        ts as int % width as int
    } else {
        -(-ts as int % width as int)
    }
}

/// What a report says of a finding on bars.
pub open spec fn bar_said(
    f: BarFinding,
    bars: Seq<BarRecord>,
    bucket_ms: i64,
    t: BarTexts,
) -> Seq<char> {
    let at = record_of(f.record);
    let before = before(at);
    let b = bars[at];
    let p = bars[before];
    match f.issue {
        BarIssue::InvalidKind => "invalid kind="@ + text::signed_decimal(b.kind as int)
            + " (expected 0..=3)"@,
        BarIssue::NotKline => "s10: kind="@ + text::signed_decimal(b.kind as int)
            + " != Kline (0)"@,
        BarIssue::OpensAfterClose => "open_ts "@ + text::signed_decimal(b.open_ts_ms as int)
            + " > close_ts "@ + text::signed_decimal(b.close_ts_ms as int),
        BarIssue::NonFinite => "non-finite OHLC"@,
        BarIssue::HighTooLow => "high "@ + t.high@ + " < max(o,c,l) "@ + t.most@,
        BarIssue::LowTooHigh => "low "@ + t.low@ + " > min(o,c,h) "@ + t.least@,
        BarIssue::NegativeRealizedVar => "realized_var "@ + t.realized_var@ + " < 0"@,
        BarIssue::NegativeBipowerVar => "bipower_var "@ + t.bipower_var@ + " < 0"@,
        BarIssue::KlineGap => "kline gap: prev close_ts "@
            + text::signed_decimal(p.close_ts_ms as int) + " != this open_ts "@
            + text::signed_decimal(b.open_ts_ms as int),
        BarIssue::RenkoDiscontinuity => "renko discontinuity: prev close "@ + t.prev_close@
            + " != this open "@ + t.open@,
        BarIssue::BrickBelowFloor => "renko brick "@ + t.brick@ + " below floor "@ + t.floor@,
        BarIssue::BarsPerDay => "strict: bars/day "@ + t.per_day@ + " outside [10, 2000]"@,
        BarIssue::OffGrid => "s10 off-grid: open_ts "@ + text::signed_decimal(b.open_ts_ms as int)
            + " % bucket "@ + text::signed_decimal(bucket_ms as int) + " = "@
            + text::signed_decimal(remainder(b.open_ts_ms, bucket_ms)) + " (!= 0)"@,
        BarIssue::WildDrift => "drift "@ + t.drift@ + " |x|>1 (suspicious)"@,
        BarIssue::Imbalance => "vol_imbalance "@ + t.imbalance@ + " outside [-1,1]"@,
        BarIssue::NegativeSpread => "avg_spread_bps "@ + t.spread@ + " < 0"@,
        BarIssue::NegativeReturn => "max_abs_return "@ + t.max_return@ + " < 0"@,
        BarIssue::BackInTime => "s10 ts non-monotone: "@
            + text::signed_decimal(b.close_ts_ms as int) + " < prev "@
            + text::signed_decimal(p.close_ts_ms as int),
        BarIssue::MissingBuckets { missing } => "s10 gap: "@
            + text::signed_decimal(b.close_ts_ms - p.close_ts_ms) + " ms between rows "@
            + text::signed_decimal(before as int) + ".."@ + text::signed_decimal(at as int) + " ("@
            + text::decimal(missing as int) + " missing buckets)"@,
        BarIssue::Spacing => "s10 spacing "@ + text::signed_decimal(b.close_ts_ms - p.close_ts_ms)
            + " ms not a multiple of bucket "@ + text::signed_decimal(bucket_ms as int) + " ms"@,
        BarIssue::Coverage => "strict: bars/day "@ + t.per_day@ + " = "@ + t.covered@
            + "% of expected "@ + t.expected@ + " (gap fraction high)"@,
        BarIssue::TotalMissing { missing } => "total missing buckets: "@
            + text::decimal(missing as int),
    }
}

pub(crate) fn rest_of(ts: i64, width: i64) -> (r: i64)
    requires
        width > 0,
    ensures
        r == remainder(ts, width),
{
    let w: i128 = width as i128;
    if ts >= 0 {
        ((ts as i128) % w) as i64
    } else {
        let back: i128 = -(ts as i128);
        (-(back % w)) as i64
    }
}

/// What a report says of a finding on bars.
pub fn bar_message(
    f: &BarFinding,
    bars: &Vec<BarRecord>,
    bucket_ms: i64,
    t: &BarTexts,
) -> (s: String)
    requires
        record_of(f.record) < bars.len(),
        f.issue == BarIssue::OffGrid ==> bucket_ms > 0,
    ensures
        s@ == bar_said(*f, bars@, bucket_ms, *t),
{
    let at: usize = index_of(f.record);
    let before: usize = one_before(at);
    let b = &bars[at];
    let p = &bars[before];
    let mut s: String = String::new();
    match f.issue {
        BarIssue::InvalidKind => {
            s.append("invalid kind=");
            s.append(text::signed_wide(b.kind as i128).as_str());
            s.append(" (expected 0..=3)");
        },
        BarIssue::NotKline => {
            s.append("s10: kind=");
            s.append(text::signed_wide(b.kind as i128).as_str());
            s.append(" != Kline (0)");
        },
        BarIssue::OpensAfterClose => {
            s.append("open_ts ");
            s.append(text::signed_wide(b.open_ts_ms as i128).as_str());
            s.append(" > close_ts ");
            s.append(text::signed_wide(b.close_ts_ms as i128).as_str());
        },
        BarIssue::NonFinite => {
            s.append("non-finite OHLC");
        },
        BarIssue::HighTooLow => {
            s.append("high ");
            s.append(t.high.as_str());
            s.append(" < max(o,c,l) ");
            s.append(t.most.as_str());
        },
        BarIssue::LowTooHigh => {
            s.append("low ");
            s.append(t.low.as_str());
            s.append(" > min(o,c,h) ");
            s.append(t.least.as_str());
        },
        BarIssue::NegativeRealizedVar => {
            s.append("realized_var ");
            s.append(t.realized_var.as_str());
            s.append(" < 0");
        },
        BarIssue::NegativeBipowerVar => {
            s.append("bipower_var ");
            s.append(t.bipower_var.as_str());
            s.append(" < 0");
        },
        BarIssue::KlineGap => {
            s.append("kline gap: prev close_ts ");
            s.append(text::signed_wide(p.close_ts_ms as i128).as_str());
            s.append(" != this open_ts ");
            s.append(text::signed_wide(b.open_ts_ms as i128).as_str());
        },
        BarIssue::RenkoDiscontinuity => {
            s.append("renko discontinuity: prev close ");
            s.append(t.prev_close.as_str());
            s.append(" != this open ");
            s.append(t.open.as_str());
        },
        BarIssue::BrickBelowFloor => {
            s.append("renko brick ");
            s.append(t.brick.as_str());
            s.append(" below floor ");
            s.append(t.floor.as_str());
        },
        BarIssue::BarsPerDay => {
            s.append("strict: bars/day ");
            s.append(t.per_day.as_str());
            s.append(" outside [10, 2000]");
        },
        BarIssue::OffGrid => {
            s.append("s10 off-grid: open_ts ");
            s.append(text::signed_wide(b.open_ts_ms as i128).as_str());
            s.append(" % bucket ");
            s.append(text::signed_wide(bucket_ms as i128).as_str());
            s.append(" = ");
            s.append(text::signed_wide(rest_of(b.open_ts_ms, bucket_ms) as i128).as_str());
            s.append(" (!= 0)");
        },
        BarIssue::WildDrift => {
            s.append("drift ");
            s.append(t.drift.as_str());
            s.append(" |x|>1 (suspicious)");
        },
        BarIssue::Imbalance => {
            s.append("vol_imbalance ");
            s.append(t.imbalance.as_str());
            s.append(" outside [-1,1]");
        },
        BarIssue::NegativeSpread => {
            s.append("avg_spread_bps ");
            s.append(t.spread.as_str());
            s.append(" < 0");
        },
        BarIssue::NegativeReturn => {
            s.append("max_abs_return ");
            s.append(t.max_return.as_str());
            s.append(" < 0");
        },
        BarIssue::BackInTime => {
            s.append("s10 ts non-monotone: ");
            s.append(text::signed_wide(b.close_ts_ms as i128).as_str());
            s.append(" < prev ");
            s.append(text::signed_wide(p.close_ts_ms as i128).as_str());
        },
        BarIssue::MissingBuckets { missing } => {
            s.append("s10 gap: ");
            s.append(text::signed_wide(b.close_ts_ms as i128 - p.close_ts_ms as i128).as_str());
            s.append(" ms between rows ");
            s.append(text::signed_wide(before as i128).as_str());
            s.append("..");
            s.append(text::signed_wide(at as i128).as_str());
            s.append(" (");
            s.append(text::decimal_wide(missing).as_str());
            s.append(" missing buckets)");
        },
        BarIssue::Spacing => {
            s.append("s10 spacing ");
            s.append(text::signed_wide(b.close_ts_ms as i128 - p.close_ts_ms as i128).as_str());
            s.append(" ms not a multiple of bucket ");
            s.append(text::signed_wide(bucket_ms as i128).as_str());
            s.append(" ms");
        },
        BarIssue::Coverage => {
            s.append("strict: bars/day ");
            s.append(t.per_day.as_str());
            s.append(" = ");
            s.append(t.covered.as_str());
            s.append("% of expected ");
            s.append(t.expected.as_str());
            s.append(" (gap fraction high)");
        },
        BarIssue::TotalMissing { missing } => {
            s.append("total missing buckets: ");
            s.append(text::decimal_wide(missing).as_str());
        },
    }
    s
}

/// What a report says of a finding on volatility records, with the volatility as
/// text.
pub open spec fn vol_said(f: VolFinding, rows: Seq<VolRow>, sigma: Seq<char>) -> Seq<char> {
    let at = f.record as int;
    let before = before(at);
    let r = rows[at];
    let p = rows[before];
    match f.issue {
        VolIssue::OutsideEpoch => "mts "@ + text::signed_decimal(r.ts_ms as int)
            + " ms outside sane epoch ["@ + text::signed_decimal(integrity::EPOCH_2000_MS as int)
            + ", now+"@ + text::signed_decimal(integrity::FUTURE_SLACK_MS as int) + "]"@,
        VolIssue::NotIncreasing => "mts not strictly increasing: "@
            + text::signed_decimal(r.mts as int) + " <= prev "@
            + text::signed_decimal(p.mts as int),
        VolIssue::Gap => "vol gap "@ + text::signed_decimal(r.ts_ms - p.ts_ms)
            + " ms between rows "@ + text::signed_decimal(before as int) + ".."@
            + text::signed_decimal(at as int) + " (>"@
            + text::signed_decimal(integrity::IDX_MAX_GAP_MS as int) + " ms)"@,
        VolIssue::NonFinite => "sigma_pct non-finite ("@ + sigma + ")"@,
        VolIssue::Absurd => "sigma_pct "@ + sigma + " outside sane band [0, 5)"@,
        VolIssue::OutsideRange => "sigma_pct "@ + sigma + " outside [0, 0.5]"@,
    }
}

/// What a report says of a finding on volatility records, with the volatility as
/// text.
pub fn vol_message(f: &VolFinding, rows: &Vec<VolRow>, sigma: &str) -> (s: String)
    requires
        f.record < rows.len(),
    ensures
        s@ == vol_said(*f, rows@, sigma@),
{
    let at: usize = f.record;
    let before: usize = one_before(at);
    let r = &rows[at];
    let p = &rows[before];
    let mut s: String = String::new();
    match f.issue {
        VolIssue::OutsideEpoch => {
            s.append("mts ");
            s.append(text::signed_wide(r.ts_ms as i128).as_str());
            s.append(" ms outside sane epoch [");
            s.append(text::signed_wide(integrity::EPOCH_2000_MS as i128).as_str());
            s.append(", now+");
            s.append(text::signed_wide(integrity::FUTURE_SLACK_MS as i128).as_str());
            s.append("]");
        },
        VolIssue::NotIncreasing => {
            s.append("mts not strictly increasing: ");
            s.append(text::signed_wide(r.mts as i128).as_str());
            s.append(" <= prev ");
            s.append(text::signed_wide(p.mts as i128).as_str());
        },
        VolIssue::Gap => {
            s.append("vol gap ");
            s.append(text::signed_wide(r.ts_ms as i128 - p.ts_ms as i128).as_str());
            s.append(" ms between rows ");
            s.append(text::signed_wide(before as i128).as_str());
            s.append("..");
            s.append(text::signed_wide(at as i128).as_str());
            s.append(" (>");
            s.append(text::signed_wide(integrity::IDX_MAX_GAP_MS as i128).as_str());
            s.append(" ms)");
        },
        VolIssue::NonFinite => {
            s.append("sigma_pct non-finite (");
            s.append(sigma);
            s.append(")");
        },
        VolIssue::Absurd => {
            s.append("sigma_pct ");
            s.append(sigma);
            s.append(" outside sane band [0, 5)");
        },
        VolIssue::OutsideRange => {
            s.append("sigma_pct ");
            s.append(sigma);
            s.append(" outside [0, 0.5]");
        },
    }
    s
}

} // verus!
