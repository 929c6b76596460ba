//! Continuity of a ticker's shards: no missing day, no step back in time, no
//! long silence.

use vstd::prelude::*;
use crate::calendar;
use crate::calendar::Date;
use crate::tally;
use crate::text;

verus! {

/// Sentinels come every 60 s while quotes are quiet; 30 s more is jitter.
pub const SHARDED_GAP_MS: i64 = 90_000;

/// How much a verdict matters.
#[derive(Clone, Copy, Debug, PartialEq, Eq, Structural)]
pub enum Severity {
    Pass,
    Warn,
    Error,
}

/// Absence with a benign explanation is a warning; corruption, and any verdict
/// without a class, is an error.
pub open spec fn severity_of(status: Seq<char>) -> Severity {
    if status == "ok"@ {
        Severity::Pass
    } else if status == "empty"@ || status == "missing_live"@ || status == "gap"@ || status
        == "missing_shards"@ || status == "insufficient_samples"@ {
        Severity::Warn
    } else {
        Severity::Error
    }
}

/// How much a verdict matters.
pub fn severity(status: &str) -> (s: Severity)
    ensures
        s == severity_of(status@),
{
    if text::same(status, "ok") {
        Severity::Pass
    } else if text::same(status, "empty") || text::same(status, "missing_live") || text::same(
        status,
        "gap",
    ) || text::same(status, "missing_shards") || text::same(status, "insufficient_samples") {
        Severity::Warn
    } else {
        Severity::Error
    }
}

/// Process exit status: 2 for any error, or any warning when strict; 1 for
/// warnings alone; else 0.
pub fn exit_code(errored: usize, warned: usize, strict: bool) -> (code: i32)
    ensures
        code == if errored > 0 || (strict && warned > 0) {
            2i32
        } else if warned > 0 {
            1
        } else {
            0
        },
{
    if errored > 0 || (strict && warned > 0) {
        2
    } else if warned > 0 {
        1
    } else {
        0
    }
}

/// Exit status for a single verdict.
pub fn exit_code_for(status: &str, strict: bool) -> (code: i32)
    ensures
        code == match severity_of(status@) {
            Severity::Pass => 0i32,
            Severity::Warn => if strict {
                2
            } else {
                1
            },
            Severity::Error => 2,
        },
{
    match severity(status) {
        Severity::Pass => 0,
        Severity::Warn => exit_code(0, 1, strict),
        Severity::Error => 2,
    }
}

/// Text of a panic payload: the literal or the string it carries.
pub fn downcast_panic(literal: Option<&str>, owned: Option<&str>) -> (s: String)
    ensures
        s@ == match (literal, owned) {
            (Some(t), _) => t@,
            (None, Some(t)) => t@,
            (None, None) => "unknown panic"@,
        },
{
    match literal {
        Some(t) => t.to_owned(),
        None => match owned {
            Some(t) => t.to_owned(),
            None => "unknown panic".to_owned(),
        },
    }
}

/// Verdict on a ticker.
#[derive(Clone, Copy, Debug, PartialEq, Eq, Structural)]
pub enum Status {
    Clean,
    MissingLive,
    Empty,
    MonotoneViolation,
    MissingShards,
    Gap,
}

impl Status {
    /// The verdict as reported.
    pub fn text(self) -> (s: &'static str)
        ensures
            s@ == status_text(self),
    {
        match self {
            Status::Clean => "ok",
            Status::MissingLive => "missing_live",
            Status::Empty => "empty",
            Status::MonotoneViolation => "monotone_violation",
            Status::MissingShards => "missing_shards",
            Status::Gap => "gap",
        }
    }
}

pub open spec fn status_text(s: Status) -> Seq<char> {
    match s {
        Status::Clean => "ok"@,
        Status::MissingLive => "missing_live"@,
        Status::Empty => "empty"@,
        Status::MonotoneViolation => "monotone_violation"@,
        Status::MissingShards => "missing_shards"@,
        Status::Gap => "gap"@,
    }
}

/// Only a step back in time is corruption: every other verdict of this check
/// warns at most, and `ok` passes.
pub proof fn only_disorder_is_an_error(s: Status)
    ensures
        severity_of(status_text(s)) == match s {
            Status::Clean => Severity::Pass,
            Status::MonotoneViolation => Severity::Error,
            _ => Severity::Warn,
        },
{
    reveal_strlit("ok");
    reveal_strlit("missing_live");
    reveal_strlit("empty");
    reveal_strlit("monotone_violation");
    reveal_strlit("missing_shards");
    reveal_strlit("gap");
    reveal_strlit("insufficient_samples");
    assert("monotone_violation"@.len() == 18);
    assert("ok"@.len() == 2);
    assert("missing_live"@.len() == 12);
    assert("empty"@.len() == 5);
    assert("missing_shards"@.len() == 14);
    assert("gap"@.len() == 3);
    assert("insufficient_samples"@.len() == 20);
}

/// Position of the first step back in time; the length where there is none.
pub open spec fn ordered_len(ts: Seq<i64>, n: int) -> int
    decreases n,
{
    if n <= 0 {
        0
    } else {
        let k = ordered_len(ts, n - 1);
        if k < n - 1 || (n > 1 && ts[n - 1] < ts[n - 2]) {
            k
        } else {
            n
        }
    }
}

pub open spec fn step(ts: Seq<i64>, i: int) -> int {
    ts[i] - ts[i - 1]
}

pub open spec fn long_step(ts: Seq<i64>) -> spec_fn(int) -> bool {
    |i: int| i > 0 && step(ts, i) > SHARDED_GAP_MS
}

/// `m` is the longest of the first `n` steps, or 0.
pub open spec fn longest_step(ts: Seq<i64>, n: int, m: int) -> bool {
    &&& m >= 0
    &&& forall|i: int| 0 < i < n ==> #[trigger] step(ts, i) <= m
    &&& m > 0 ==> exists|i: int| 0 < i < n && #[trigger] step(ts, i) == m
}

/// Continuity of a record stream.
#[derive(Clone, Copy, Debug, PartialEq, Eq, Structural)]
pub struct StreamScan {
    /// Records read before the first step back, or all.
    pub records: usize,
    pub max_gap_ms: i64,
    pub gap_violations: usize,
    /// Position of the first record that steps back.
    pub monotone_violation_ix: Option<usize>,
}

/// Scans the timestamps of all shards, in date order. Stops at the first step
/// back in time.
pub fn scan_stream(ts: &Vec<i64>) -> (s: StreamScan)
    requires
        forall|i: int| 0 < i < ts.len() ==> i64::MIN <= #[trigger] step(ts@, i) <= i64::MAX,
    ensures
        ({
            let k = ordered_len(ts@, ts.len() as int);
            &&& s.records == k
            &&& s.monotone_violation_ix == if k < ts.len() {
                Some(k as usize)
            } else {
                None
            }
            &&& s.gap_violations == tally::count(k, long_step(ts@))
            &&& longest_step(ts@, k, s.max_gap_ms as int)
        }),
{
    let mut max_gap: i64 = 0;
    let mut violations: usize = 0;
    let mut i: usize = 0;
    while i < ts.len()
        invariant
            i <= ts.len(),
            forall|k: int| 0 < k < ts.len() ==> i64::MIN <= #[trigger] step(ts@, k) <= i64::MAX,
            ordered_len(ts@, i as int) == i,
            violations == tally::count(i as int, long_step(ts@)),
            violations <= i,
            longest_step(ts@, i as int, max_gap as int),
        decreases ts.len() - i,
    {
        if i > 0 {
            assert(i64::MIN <= step(ts@, i as int) <= i64::MAX);
            let dt: i64 = ts[i] - ts[i - 1];
            if dt < 0 {
                proof {
                    lemma_ordered_stops(ts@, i as int, ts.len() as int);
                }
                return StreamScan {
                    records: i,
                    max_gap_ms: max_gap,
                    gap_violations: violations,
                    monotone_violation_ix: Some(i),
                };
            }
            if dt > max_gap {
                max_gap = dt;
            }
            if dt > SHARDED_GAP_MS {
                violations = violations + 1;
            }
        }
        i = i + 1;
    }
    StreamScan {
        records: i,
        max_gap_ms: max_gap,
        gap_violations: violations,
        monotone_violation_ix: None,
    }
}

proof fn lemma_ordered_stops(ts: Seq<i64>, i: int, n: int)
    requires
        0 < i < n <= ts.len(),
        ordered_len(ts, i) == i,
        ts[i] < ts[i - 1],
    ensures
        ordered_len(ts, n) == i,
    decreases n,
{
    if n == i + 1 {
        reveal_with_fuel(ordered_len, 2);
    } else {
        lemma_ordered_stops(ts, i, n - 1);
    }
}

/// The records before the first step back never step back; the one there does.
pub proof fn ordered_prefix_is_longest(ts: Seq<i64>, n: int)
    requires
        0 <= n <= ts.len(),
    ensures
        0 <= ordered_len(ts, n) <= n,
        forall|i: int| 0 < i < ordered_len(ts, n) ==> #[trigger] step(ts, i) >= 0,
        ordered_len(ts, n) < n ==> ordered_len(ts, n) > 0 && step(ts, ordered_len(ts, n)) < 0,
    decreases n,
{
    if n > 0 {
        ordered_prefix_is_longest(ts, n - 1);
    }
}

/// How a ticker stands: emptiness first, then disorder, then missing days, then silence.
pub open spec fn status_of(
    shards: int,
    records: int,
    violation: Option<usize>,
    missing: int,
    gaps: int,
) -> Status {
    if shards == 0 {
        Status::MissingLive
    } else if records == 0 {
        Status::Empty
    } else if violation is Some {
        Status::MonotoneViolation
    } else if missing > 0 {
        Status::MissingShards
    } else if gaps > 0 {
        Status::Gap
    } else {
        Status::Clean
    }
}

/// A ticker is clean exactly if it has shards and records, no step back in time, no
/// missing day and no silence; and disorder is never hidden by missing days or silence.
pub proof fn clean_tickers_lack_nothing(
    shards: int,
    records: int,
    violation: Option<usize>,
    missing: int,
    gaps: int,
)
    requires
        shards >= 0,
        records >= 0,
        missing >= 0,
        gaps >= 0,
    ensures
        status_of(shards, records, violation, missing, gaps) == Status::Clean <==> shards > 0
            && records > 0 && violation is None && missing == 0 && gaps == 0,
        shards > 0 && records > 0 && violation is Some ==> status_of(
            shards,
            records,
            violation,
            missing,
            gaps,
        ) == Status::MonotoneViolation,
        shards == 0 ==> status_of(shards, records, violation, missing, gaps) == Status::MissingLive,
        shards > 0 && records == 0 ==> status_of(shards, records, violation, missing, gaps)
            == Status::Empty,
        shards > 0 && records > 0 && violation is None && missing > 0 ==> status_of(
            shards,
            records,
            violation,
            missing,
            gaps,
        ) == Status::MissingShards,
{
}

/// Report on one ticker.
#[derive(Debug)]
pub struct TickerReport {
    pub shards_present: usize,
    /// Days without a shard between the first and the last.
    pub missing: Vec<Date>,
    pub scan: StreamScan,
    pub status: Status,
}

/// Checks the shards of a ticker: their dates ascending, and the timestamps of
/// their records joined in that order.
pub fn check_sharded(dates: &Vec<Date>, ts: &Vec<i64>) -> (r: TickerReport)
    requires
        forall|i: int| 0 <= i < dates.len() ==> (#[trigger] dates@[i]).valid(),
        forall|i: int| 0 < i < ts.len() ==> i64::MIN <= #[trigger] step(ts@, i) <= i64::MAX,
    ensures
        r.shards_present == dates.len(),
        dates.len() == 0 ==> r.missing.len() == 0 && r.scan == (StreamScan {
            records: 0,
            max_gap_ms: 0,
            gap_violations: 0,
            monotone_violation_ix: None,
        }),
        dates.len() > 0 ==> calendar::lists_missing(r.missing@, dates@, dates@[0], dates@.last()),
        dates.len() > 0 ==> {
            let k = ordered_len(ts@, ts.len() as int);
            &&& r.scan.records == k
            &&& r.scan.monotone_violation_ix == if k < ts.len() {
                Some(k as usize)
            } else {
                None
            }
            &&& r.scan.gap_violations == tally::count(k, long_step(ts@))
            &&& longest_step(ts@, k, r.scan.max_gap_ms as int)
        },
        r.status == status_of(
            dates.len() as int,
            r.scan.records as int,
            r.scan.monotone_violation_ix,
            r.missing.len() as int,
            r.scan.gap_violations as int,
        ),
{
    let n: usize = dates.len();
    if n == 0 {
        return TickerReport {
            shards_present: 0,
            missing: Vec::new(),
            scan: StreamScan {
                records: 0,
                max_gap_ms: 0,
                gap_violations: 0,
                monotone_violation_ix: None,
            },
            status: Status::MissingLive,
        };
    }
    let missing = calendar::missing_dates(dates, dates[0], dates[n - 1]);
    let scan = scan_stream(ts);
    let status = if scan.records == 0 {
        Status::Empty
    } else if scan.monotone_violation_ix.is_some() {
        Status::MonotoneViolation
    } else if missing.len() > 0 {
        Status::MissingShards
    } else if scan.gap_violations > 0 {
        Status::Gap
    } else {
        Status::Clean
    };
    TickerReport { shards_present: n, missing, scan, status }
}

/// Verdicts over all tickers, by severity.
#[derive(Clone, Copy, Debug, PartialEq, Eq, Structural)]
pub struct SeverityCounts {
    pub passed: usize,
    pub warned: usize,
    pub errored: usize,
}

pub open spec fn has_severity(statuses: Seq<String>, s: Severity) -> spec_fn(int) -> bool {
    |i: int| severity_of(statuses[i]@) == s
}

/// Counts verdicts by severity.
pub fn count_severities(statuses: &Vec<String>) -> (c: SeverityCounts)
    ensures
        c.passed == tally::count(statuses.len() as int, has_severity(statuses@, Severity::Pass)),
        c.warned == tally::count(statuses.len() as int, has_severity(statuses@, Severity::Warn)),
        c.errored == tally::count(statuses.len() as int, has_severity(statuses@, Severity::Error)),
{
    let mut c = SeverityCounts { passed: 0, warned: 0, errored: 0 };
    let mut i: usize = 0;
    while i < statuses.len()
        invariant
            i <= statuses.len(),
            c.passed == tally::count(i as int, has_severity(statuses@, Severity::Pass)),
            c.warned == tally::count(i as int, has_severity(statuses@, Severity::Warn)),
            c.errored == tally::count(i as int, has_severity(statuses@, Severity::Error)),
            c.passed <= i,
            c.warned <= i,
            c.errored <= i,
        decreases statuses.len() - i,
    {
        match severity(statuses[i].as_str()) {
            Severity::Pass => {
                c.passed = c.passed + 1;
            },
            Severity::Warn => {
                c.warned = c.warned + 1;
            },
            Severity::Error => {
                c.errored = c.errored + 1;
            },
        }
        i = i + 1;
    }
    c
}

/// What is remarked on a ticker whose shards, dated so, lie in a directory.
pub open spec fn remark(r: TickerReport, dir: Seq<char>, dates: Seq<Date>) -> Option<Seq<char>> {
    match r.status {
        Status::Clean => None,
        Status::MissingLive => Some("no shards under "@ + dir),
        Status::Empty => Some("0 records across all shards"@),
        Status::MonotoneViolation => match r.scan.monotone_violation_ix {
            Some(i) => Some("ts decreased at global record index "@ + text::decimal(i as int)),
            None => None,
        },
        Status::MissingShards => Some(
            text::decimal(r.missing.len() as int) + " missing date-shards between "@
                + calendar::label(dates[0]) + " and "@ + calendar::label(dates.last())
                + " (first missing: "@ + calendar::label(r.missing@[0]) + ")"@,
        ),
        Status::Gap => Some(
            text::decimal(r.scan.gap_violations as int) + " inter-record gaps > "@
                + text::signed_decimal(SHARDED_GAP_MS as int) + "ms (max gap = "@
                + text::signed_decimal(r.scan.max_gap_ms as int) + "ms)"@,
        ),
    }
}

/// What is remarked on a ticker whose shards, dated so, lie in a directory.
pub fn note(r: &TickerReport, dir: &str, dates: &Vec<Date>) -> (n: Option<String>)
    requires
        r.status is MissingShards ==> {
            &&& r.missing.len() > 0 && r.missing@[0].valid()
            &&& dates.len() > 0 && dates@[0].valid() && dates@.last().valid()
        },
    ensures
        match n {
            Some(s) => remark(*r, dir@, dates@) == Some(s@),
            None => remark(*r, dir@, dates@) is None,
        },
{
    let mut s: String = String::new();
    match r.status {
        Status::Clean => {
            return None;
        },
        Status::MissingLive => {
            s.append("no shards under ");
            s.append(dir);
        },
        Status::Empty => {
            s.append("0 records across all shards");
        },
        Status::MonotoneViolation => match r.scan.monotone_violation_ix {
            Some(i) => {
                s.append("ts decreased at global record index ");
                s.append(text::decimal_string(i as u64).as_str());
            },
            None => {
                return None;
            },
        },
        Status::MissingShards => {
            s.append(text::decimal_string(r.missing.len() as u64).as_str());
            s.append(" missing date-shards between ");
            s.append(dates[0].to_label().as_str());
            s.append(" and ");
            s.append(dates[dates.len() - 1].to_label().as_str());
            s.append(" (first missing: ");
            s.append(r.missing[0].to_label().as_str());
            s.append(")");
        },
        Status::Gap => {
            s.append(text::decimal_string(r.scan.gap_violations as u64).as_str());
            s.append(" inter-record gaps > ");
            s.append(text::signed_i64(SHARDED_GAP_MS).as_str());
            s.append("ms (max gap = ");
            s.append(text::signed_i64(r.scan.max_gap_ms).as_str());
            s.append("ms)");
        },
    }
    Some(s)
}

} // verus!
