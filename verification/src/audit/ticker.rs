//! The audit of a ticker: what its parts find, put together and judged.

use vstd::prelude::*;
use crate::audit::index;
use crate::audit::index::{GapReport, IdxRow, InvariantTotals, Rules};
use crate::audit::kline::{Coverage, S10Tally};
use crate::audit::renko;
use crate::audit::renko::{BrickTally, RenkoFacts, RenkoFlags};
use crate::audit::verdict;
use crate::audit::verdict::{Findings, Verdict};
use crate::calendar;
use crate::calendar::Date;
use crate::ieee::Double;
use crate::tally;

verus! {

/// What a ticker's index stream is held against.
pub struct Scope {
    pub max_gap_ms: i64,
    pub quiet_tol_ms: i64,
    /// Days that have a shard.
    pub idx_days: Vec<Date>,
    /// The window, both days included.
    pub from: Date,
    pub to: Date,
    pub rules: Rules,
    /// The pair is pegged by identity.
    pub known_stable: bool,
}

/// What is measured on the mid series, and found on the bars.
pub struct Evidence {
    /// Logarithmic moves of the mid series.
    pub moves: Vec<Double>,
    /// Annual range volatility.
    pub sigma: Double,
    pub s10: S10Tally,
    pub coverage: Coverage,
    pub rollup_violations: u64,
    pub bricks: BrickTally,
    pub seam_breaks: u64,
    /// Realised bricks per day over the target; NaN where there is none.
    pub ratio: Double,
    /// Nothing without shards of bricks. Days and pegs are filled in here.
    pub facts: Option<RenkoFacts>,
}

/// The audit of a ticker.
pub struct TickerAudit {
    pub gaps: GapReport,
    pub missing: Vec<Date>,
    pub invariants: InvariantTotals,
    /// Moves that are zero.
    pub zeros: u64,
    pub findings: Findings,
    pub verdict: Verdict,
}

/// First day of a window that reaches `days` back from its last; nothing where that is
/// out of range. A window never starts after its last day.
pub fn window_start(last: Date, days: i64) -> (d: Option<Date>)
    requires
        last.valid(),
    ensures
        ({
            let first = if days > 0 {
                last.ordinal() - days
            } else {
                last.ordinal()
            };
            match d {
                Some(x) => x.valid() && x.ordinal() == first,
                None => first < calendar::first_ordinal(),
            }
        }),
{
    let back: i64 = if days > 0 {
        days
    } else {
        0
    };
    proof {
        calendar::lemma_days_fit(last);
    }
    last.days_before(back)
}

/// The flags of a ticker without bricks.
pub open spec fn no_flags() -> RenkoFlags {
    RenkoFlags {
        uncalibrated: false,
        target_unresolved: false,
        bpd_off_band: false,
        dist_drift: false,
        dist_fail: false,
        k_implausible: false,
        k_clamped_warn: false,
        k_stale: false,
        behind_calibration: false,
        provenance_missing: false,
        skipped_stable: false,
    }
}

/// The flags of the facts, with the days and pegs that were found.
pub open spec fn flags_found(
    facts: Option<RenkoFacts>,
    days: u64,
    looks_stable: bool,
    known_stable: bool,
) -> RenkoFlags {
    match facts {
        None => no_flags(),
        Some(f) => renko::flags_of(RenkoFacts { days, looks_stable, known_stable, ..f }),
    }
}

/// The findings that the parts make up.
pub open spec fn findings_of(
    records: u64,
    outage_gaps: u64,
    missing_days: u64,
    violations: u64,
    zeros: u64,
    known_stable: bool,
    e: Evidence,
) -> Findings {
    let returned = e.moves.len() as int;
    let pegged = index::looks_stable(e.sigma, zeros as int, returned);
    let days = e.bricks.per_day.len() as u64;
    Findings {
        records,
        outage_gaps,
        missing_days,
        invariant_violations: violations,
        stuck_feed: index::frozen(zeros as int, returned, known_stable),
        looks_stable: pegged,
        s10_violations: e.s10.violations,
        s10_off_grid: e.s10.off_grid,
        s10_seams: e.s10.seams,
        s10_misaligned: e.s10.misaligned,
        s10_coverage: e.coverage,
        rollup_violations: e.rollup_violations,
        renko_days: days,
        renko_ratio: e.ratio,
        renko_seam_breaks: e.seam_breaks,
        renko_floor_violations: e.bricks.floor_violations,
        renko: flags_found(e.facts, days, pegged, known_stable),
    }
}

/// The audit is that of a stream.
pub open spec fn audited(rows: Seq<IdxRow>, s: Scope, e: Evidence, t: TickerAudit) -> bool {
    &&& index::reports_gaps(rows, s.max_gap_ms, s.quiet_tol_ms, t.gaps)
    &&& index::misses(rows, s.idx_days@, s.from, s.to, t.missing@)
    &&& index::totals_of(rows, s.rules, t.invariants)
    &&& t.zeros == tally::count(e.moves.len() as int, index::is_zero(e.moves@))
    &&& t.findings == findings_of(
        rows.len() as u64,
        t.gaps.outage,
        t.missing.len() as u64,
        t.invariants.violations,
        t.zeros,
        s.known_stable,
        e,
    )
    &&& verdict::decided(t.findings, t.verdict)
}

/// A ticker passes its audit only if its stream has no outage, no missing day and no
/// record that violates an invariant, its feed is not stuck, and none of its bars and
/// bricks was found broken, misaligned, missing or below the floor.
pub proof fn audits_pass_only_without_faults(
    rows: Seq<IdxRow>,
    s: Scope,
    e: Evidence,
    t: TickerAudit,
)
    requires
        audited(rows, s, e, t),
        rows.len() <= u64::MAX,
        t.missing.len() <= u64::MAX,
    ensures
        t.verdict is NoData <==> rows.len() == 0,
        t.verdict is Pass ==> {
            &&& t.gaps.outage == 0
            &&& t.missing.len() == 0
            &&& t.invariants.violations == 0
            &&& s.known_stable || 100 * t.zeros <= 99 * e.moves.len()
            &&& e.s10.violations == 0 && e.s10.off_grid == 0 && e.s10.seams == 0 && e.s10.misaligned
                == 0
            &&& !(e.coverage is Fail)
            &&& e.rollup_violations == 0 && e.seam_breaks == 0 && e.bricks.floor_violations == 0
        },
        t.verdict is Pass ==> (e.facts matches Some(f) ==> {
            let flags = renko::flags_of(
                RenkoFacts {
                    days: e.bricks.per_day.len() as u64,
                    looks_stable: t.findings.looks_stable,
                    known_stable: s.known_stable,
                    ..f
                },
            );
            !flags.uncalibrated && !flags.k_stale && !flags.k_implausible && !flags.bpd_off_band
                && !flags.dist_fail
        }),
{
    verdict::passing_tickers_have_no_fault(t.findings);
}

/// The findings that the parts make up.
pub fn gather_findings(
    records: u64,
    outage_gaps: u64,
    missing_days: u64,
    violations: u64,
    zeros: u64,
    known_stable: bool,
    e: &Evidence,
) -> (f: Findings)
    ensures
        f == findings_of(
            records,
            outage_gaps,
            missing_days,
            violations,
            zeros,
            known_stable,
            *e,
        ),
{
    let returned: u64 = e.moves.len() as u64;
    let looks_stable = index::infer_stable(e.sigma, zeros, returned);
    let days: u64 = e.bricks.per_day.len() as u64;
    let flags = match e.facts {
        None => RenkoFlags {
            uncalibrated: false,
            target_unresolved: false,
            bpd_off_band: false,
            dist_drift: false,
            dist_fail: false,
            k_implausible: false,
            k_clamped_warn: false,
            k_stale: false,
            behind_calibration: false,
            provenance_missing: false,
            skipped_stable: false,
        },
        Some(f) => {
            let mut known = f;
            known.days = days;
            known.looks_stable = looks_stable;
            known.known_stable = known_stable;
            renko::judge_renko(&known)
        },
    };
    Findings {
        records,
        outage_gaps,
        missing_days,
        invariant_violations: violations,
        stuck_feed: index::stuck_feed(zeros, returned, known_stable),
        looks_stable,
        s10_violations: e.s10.violations,
        s10_off_grid: e.s10.off_grid,
        s10_seams: e.s10.seams,
        s10_misaligned: e.s10.misaligned,
        s10_coverage: e.coverage,
        rollup_violations: e.rollup_violations,
        renko_days: days,
        renko_ratio: e.ratio,
        renko_seam_breaks: e.seam_breaks,
        renko_floor_violations: e.bricks.floor_violations,
        renko: flags,
    }
}

/// Audits a ticker: its index stream against the scope, with what was measured on
/// its mid series and found on its bars.
pub fn audit_ticker(rows: &Vec<IdxRow>, s: &Scope, e: &Evidence) -> (t: TickerAudit)
    requires
        index::ascending(rows@),
        index::spans_fit(rows@),
        s.from.valid(),
        s.to.valid(),
        rows.len() > 0 ==> index::in_calendar(rows@[0].ts_ms) && index::in_calendar(
            rows@.last().ts_ms,
        ),
    ensures
        audited(rows@, *s, *e, t),
{
    let gaps = index::scan_gaps(rows, s.max_gap_ms, s.quiet_tol_ms);
    let missing = index::missing_days(rows, &s.idx_days, s.from, s.to);
    let invariants = index::check_invariants(rows, &s.rules);
    let zeros: u64 = index::zero_returns(&e.moves);
    let findings = gather_findings(
        rows.len() as u64,
        gaps.outage,
        missing.len() as u64,
        invariants.violations,
        zeros,
        s.known_stable,
        e,
    );
    let verdict = verdict::decide(&findings);
    TickerAudit { gaps, missing, invariants, zeros, findings, verdict }
}

/// Two streams differ in the sizes quoted only.
pub open spec fn differ_in_sizes(a: Seq<IdxRow>, b: Seq<IdxRow>) -> bool {
    &&& a.len() == b.len()
    &&& forall|i: int|
        0 <= i < a.len() ==> #[trigger] b[i] == (IdxRow { vbid: b[i].vbid, vask: b[i].vask, ..a[i] })
}

/// Two verdicts agree, and in their reasons.
pub open spec fn same_verdict(v: Verdict, w: Verdict) -> bool {
    match (v, w) {
        (Verdict::NoData, Verdict::NoData) => true,
        (Verdict::Pass, Verdict::Pass) => true,
        (Verdict::Fail(r), Verdict::Fail(q)) => r@ == q@,
        _ => false,
    }
}

/// Sizes never change the verdict. Whatever is measured on the mid series, streams
/// that differ in the sizes quoted only have the same findings, the same verdict
/// and the same reasons.
pub proof fn sizes_never_change_the_verdict(
    a: Seq<IdxRow>,
    b: Seq<IdxRow>,
    s: Scope,
    measured: spec_fn(Seq<(i64, Double)>) -> Evidence,
    ta: TickerAudit,
    tb: TickerAudit,
)
    requires
        differ_in_sizes(a, b),
        audited(a, s, measured(index::mids_of(a, a.len() as int)), ta),
        audited(b, s, measured(index::mids_of(b, b.len() as int)), tb),
    ensures
        index::mids_of(a, a.len() as int) == index::mids_of(b, b.len() as int),
        ta.findings == tb.findings,
        same_verdict(ta.verdict, tb.verdict),
{
    let n = a.len() as int;
    assert forall|i: int| 0 <= i < n implies (#[trigger] a[i]).ts_ms == b[i].ts_ms && a[i].sentinel
        == b[i].sentinel && a[i].mid == b[i].mid by {
        assert(b[i] == (IdxRow { vbid: b[i].vbid, vask: b[i].vask, ..a[i] }));
    }
    lemma_same_mids(a, b);
    lemma_same_gaps(a, b, s);
    assert forall|i: int| 0 <= i < n implies #[trigger] index::violates(a, s.rules)(i)
        == index::violates(b, s.rules)(i) by {
        index::depth_and_rejects_never_fail(a[i], b[i], s.rules.band, s.rules.min_px);
    }
    tally::lemma_count_same(n, index::violates(a, s.rules), index::violates(b, s.rules));
    lemma_same_missing(a, b, s, ta.missing@, tb.missing@);
    assert(ta.findings == tb.findings);
}

proof fn lemma_same_mids(a: Seq<IdxRow>, b: Seq<IdxRow>)
    requires
        differ_in_sizes(a, b),
    ensures
        index::mids_of(a, a.len() as int) == index::mids_of(b, b.len() as int),
{
    let n = a.len() as int;
    assert forall|i: int| 0 <= i < n implies #[trigger] index::has_mid(a)(i) == index::has_mid(b)(i) by {
        assert(b[i] == (IdxRow { vbid: b[i].vbid, vask: b[i].vask, ..a[i] }));
    }
    tally::lemma_count_same(n, index::has_mid(a), index::has_mid(b));
    tally::lemma_hits(n, index::has_mid(a));
    let h = tally::hits(n, index::has_mid(a));
    assert forall|k: int| 0 <= k < h.len() implies index::mids_of(a, n)[k] == index::mids_of(b, n)[k] by {
        let i = h[k];
        assert(b[i] == (IdxRow { vbid: b[i].vbid, vask: b[i].vask, ..a[i] }));
    }
    assert(index::mids_of(a, n) =~= index::mids_of(b, n));
}

proof fn lemma_same_gaps(a: Seq<IdxRow>, b: Seq<IdxRow>, s: Scope)
    requires
        differ_in_sizes(a, b),
    ensures
        index::gaps_of(a, s.max_gap_ms, s.quiet_tol_ms) == index::gaps_of(
            b,
            s.max_gap_ms,
            s.quiet_tol_ms,
        ),
{
    let n = a.len() - 1;
    let p = index::gap_at(a, s.max_gap_ms);
    let q = index::gap_at(b, s.max_gap_ms);
    assert forall|i: int| 0 <= i < a.len() implies (#[trigger] a[i]).ts_ms == b[i].ts_ms && a[i].sentinel
        == b[i].sentinel by {
        assert(b[i] == (IdxRow { vbid: b[i].vbid, vask: b[i].vask, ..a[i] }));
    }
    assert forall|i: int| 0 <= i < n implies #[trigger] p(i) == q(i) by {
        assert(a[i].ts_ms == b[i].ts_ms && a[i + 1].ts_ms == b[i + 1].ts_ms);
    }
    tally::lemma_count_same(n, p, q);
    assert(index::some_sentinel(a) == index::some_sentinel(b)) by {
        if index::some_sentinel(a) {
            let i = choose|i: int| 0 <= i < a.len() && (#[trigger] a[i]).sentinel;
            assert(b[i].sentinel);
        }
        if index::some_sentinel(b) {
            let i = choose|i: int| 0 <= i < b.len() && (#[trigger] b[i]).sentinel;
            assert(a[i].sentinel);
        }
    }
    let h = tally::hits(n, p);
    let x = index::gaps_of(a, s.max_gap_ms, s.quiet_tol_ms);
    let y = index::gaps_of(b, s.max_gap_ms, s.quiet_tol_ms);
    if n > 0 {
        tally::lemma_hits(n, p);
        assert forall|k: int| 0 <= k < h.len() implies x[k] == y[k] by {
            let i = h[k];
            assert(a[i].ts_ms == b[i].ts_ms && a[i + 1].ts_ms == b[i + 1].ts_ms);
        }
    }
    assert(x =~= y);
}

proof fn lemma_same_missing(
    a: Seq<IdxRow>,
    b: Seq<IdxRow>,
    s: Scope,
    missing_a: Seq<Date>,
    missing_b: Seq<Date>,
)
    requires
        differ_in_sizes(a, b),
        index::misses(a, s.idx_days@, s.from, s.to, missing_a),
        index::misses(b, s.idx_days@, s.from, s.to, missing_b),
    ensures
        missing_a.len() == missing_b.len(),
{
    if a.len() > 0 {
        let present = s.idx_days@;
        let n = a.len() as int;
        assert(b[0] == (IdxRow { vbid: b[0].vbid, vask: b[0].vask, ..a[0] }));
        assert(b[n - 1] == (IdxRow { vbid: b[n - 1].vbid, vask: b[n - 1].vask, ..a[n - 1] }));
        let (f, l) = choose|first: Date, last: Date| #[trigger]
            index::spans_days(a, first, last) && calendar::lists_missing(
                missing_a,
                present,
                index::later_of(first, s.from),
                index::earlier_of(last, s.to),
            );
        let (g, m) = choose|first: Date, last: Date| #[trigger]
            index::spans_days(b, first, last) && calendar::lists_missing(
                missing_b,
                present,
                index::later_of(first, s.from),
                index::earlier_of(last, s.to),
            );
        calendar::ordinal_is_calendar_order(f, g);
        calendar::ordinal_is_calendar_order(l, m);
        calendar::missing_days_are_unique(
            missing_a,
            missing_b,
            present,
            index::later_of(f, s.from),
            index::earlier_of(l, s.to),
        );
    }
}

} // verus!
