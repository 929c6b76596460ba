//! The verdict on a ticker.

use vstd::prelude::*;
use crate::ieee::Double;
use crate::tally;
use crate::audit::kline::Coverage;
use crate::audit::renko::RenkoFlags;

verus! {

/// Half, and two: bricks per day over target outside these fail.
pub const RATIO_LO: u64 = 0x3fe0_0000_0000_0000;

pub const RATIO_HI: u64 = 0x4000_0000_0000_0000;

/// What the checks found.
#[derive(Clone, Copy, Debug)]
pub struct Findings {
    pub records: u64,
    pub outage_gaps: u64,
    pub missing_days: u64,
    pub invariant_violations: u64,
    pub stuck_feed: bool,
    pub looks_stable: bool,
    pub s10_violations: u64,
    pub s10_off_grid: u64,
    pub s10_seams: u64,
    pub s10_misaligned: u64,
    pub s10_coverage: Coverage,
    pub rollup_violations: u64,
    pub renko_days: u64,
    /// Realised bricks per day over the target; NaN where there is none.
    pub renko_ratio: Double,
    pub renko_seam_breaks: u64,
    pub renko_floor_violations: u64,
    pub renko: RenkoFlags,
}

/// Why a ticker fails, in the order of the report.
#[derive(Clone, Copy, Debug, PartialEq, Eq, Structural)]
pub enum Reason {
    Outages,
    MissingDays,
    Invariants,
    S10Bars,
    RenkoCadence,
    RenkoSeams,
    RenkoFloor,
    RenkoUncalibrated,
    RenkoStaleK,
    RenkoImplausibleK,
    RenkoOffBand,
    S10Grid,
    S10Misaligned,
    S10Coverage,
    RenkoDrift,
    Rollup,
    StuckFeed,
}

#[derive(Debug)]
pub enum Verdict {
    NoData,
    Pass,
    Fail(Vec<Reason>),
}

/// Cadence is judged for pairs that do not look pegged and whose target is known.
pub open spec fn cadence_off(f: Findings) -> bool {
    !f.looks_stable && !f.renko.target_unresolved && f.renko_days > 0 && f.renko_ratio.finite() && (
    f.renko_ratio.below(Double { bits: RATIO_LO }) || (Double { bits: RATIO_HI }).below(
        f.renko_ratio,
    ))
}

/// Whether a reason applies.
pub open spec fn applies(f: Findings, r: Reason) -> bool {
    match r {
        Reason::Outages => f.outage_gaps > 0,
        Reason::MissingDays => f.missing_days > 0,
        Reason::Invariants => f.invariant_violations > 0,
        Reason::S10Bars => f.s10_violations > 0,
        Reason::RenkoCadence => cadence_off(f),
        Reason::RenkoSeams => f.renko_seam_breaks > 0,
        Reason::RenkoFloor => f.renko_floor_violations > 0,
        Reason::RenkoUncalibrated => f.renko.uncalibrated,
        Reason::RenkoStaleK => f.renko.k_stale,
        Reason::RenkoImplausibleK => f.renko.k_implausible,
        Reason::RenkoOffBand => f.renko.bpd_off_band,
        Reason::S10Grid => f.s10_off_grid > 0 || f.s10_seams > 0,
        Reason::S10Misaligned => f.s10_misaligned > 0,
        Reason::S10Coverage => f.s10_coverage == Coverage::Fail,
        Reason::RenkoDrift => f.renko.dist_fail,
        Reason::Rollup => f.rollup_violations > 0,
        Reason::StuckFeed => f.stuck_feed,
    }
}

/// All reasons, in the order of the report.
pub open spec fn reason_order() -> Seq<Reason> {
    seq![
        Reason::Outages,
        Reason::MissingDays,
        Reason::Invariants,
        Reason::S10Bars,
        Reason::RenkoCadence,
        Reason::RenkoSeams,
        Reason::RenkoFloor,
        Reason::RenkoUncalibrated,
        Reason::RenkoStaleK,
        Reason::RenkoImplausibleK,
        Reason::RenkoOffBand,
        Reason::S10Grid,
        Reason::S10Misaligned,
        Reason::S10Coverage,
        Reason::RenkoDrift,
        Reason::Rollup,
        Reason::StuckFeed,
    ]
}

/// The reasons that apply among the first `n`.
pub open spec fn reasons_of(f: Findings, n: int) -> Seq<Reason> {
    tally::hits(n, applies_at(f)).map_values(|i: int| reason_order()[i])
}

pub open spec fn applies_at(f: Findings) -> spec_fn(int) -> bool {
    |i: int| applies(f, reason_order()[i])
}

fn reason_applies(f: &Findings, r: Reason) -> (b: bool)
    ensures
        b == applies(*f, r),
{
    match r {
        Reason::Outages => f.outage_gaps > 0,
        Reason::MissingDays => f.missing_days > 0,
        Reason::Invariants => f.invariant_violations > 0,
        Reason::S10Bars => f.s10_violations > 0,
        Reason::RenkoCadence => !f.looks_stable && !f.renko.target_unresolved && f.renko_days > 0
            && f.renko_ratio.is_finite() && (f.renko_ratio.lt(Double { bits: RATIO_LO }) || (Double {
            bits: RATIO_HI,
        }).lt(f.renko_ratio)),
        Reason::RenkoSeams => f.renko_seam_breaks > 0,
        Reason::RenkoFloor => f.renko_floor_violations > 0,
        Reason::RenkoUncalibrated => f.renko.uncalibrated,
        Reason::RenkoStaleK => f.renko.k_stale,
        Reason::RenkoImplausibleK => f.renko.k_implausible,
        Reason::RenkoOffBand => f.renko.bpd_off_band,
        Reason::S10Grid => f.s10_off_grid > 0 || f.s10_seams > 0,
        Reason::S10Misaligned => f.s10_misaligned > 0,
        Reason::S10Coverage => f.s10_coverage == Coverage::Fail,
        Reason::RenkoDrift => f.renko.dist_fail,
        Reason::Rollup => f.rollup_violations > 0,
        Reason::StuckFeed => f.stuck_feed,
    }
}

/// The verdict on findings.
pub open spec fn decided(f: Findings, v: Verdict) -> bool {
    &&& v is NoData <==> f.records == 0
    &&& v is Pass <==> f.records > 0 && reasons_of(f, 17).len() == 0
    &&& v matches Verdict::Fail(reasons) ==> reasons@ == reasons_of(f, 17) && reasons.len() > 0
}

/// Judges a ticker: no data without records; a pass when no reason applies; else a
/// failure with every reason that does.
pub fn decide(f: &Findings) -> (v: Verdict)
    ensures
        decided(*f, v),
{
    if f.records == 0 {
        return Verdict::NoData;
    }
    let order: [Reason; 17] = [
        Reason::Outages,
        Reason::MissingDays,
        Reason::Invariants,
        Reason::S10Bars,
        Reason::RenkoCadence,
        Reason::RenkoSeams,
        Reason::RenkoFloor,
        Reason::RenkoUncalibrated,
        Reason::RenkoStaleK,
        Reason::RenkoImplausibleK,
        Reason::RenkoOffBand,
        Reason::S10Grid,
        Reason::S10Misaligned,
        Reason::S10Coverage,
        Reason::RenkoDrift,
        Reason::Rollup,
        Reason::StuckFeed,
    ];
    assert(order@ =~= reason_order());
    let mut reasons: Vec<Reason> = Vec::new();
    assert(reasons_of(*f, 0) =~= Seq::<Reason>::empty());
    let mut i: usize = 0;
    while i < 17
        invariant
            i <= 17,
            order@ == reason_order(),
            order.len() == 17,
            reasons@ == reasons_of(*f, i as int),
        decreases 17 - i,
    {
        let r = order[i];
        let ghost was = reasons@;
        if reason_applies(f, r) {
            reasons.push(r);
            assert(reasons_of(*f, i + 1) =~= was.push(r));
        } else {
            assert(reasons_of(*f, i + 1) =~= was);
        }
        i = i + 1;
    }
    if reasons.len() == 0 {
        Verdict::Pass
    } else {
        Verdict::Fail(reasons)
    }
}

/// A ticker with records passes exactly when no reason applies.
pub proof fn passes_when_no_reason_applies(f: Findings)
    ensures
        reasons_of(f, 17).len() == 0 <==> forall|r: Reason| !#[trigger] applies(f, r),
{
    tally::lemma_count_bounds(17, applies_at(f));
    tally::lemma_count_zero(17, applies_at(f));
    assert forall|r: Reason| reasons_of(f, 17).len() == 0 implies !#[trigger] applies(f, r) by {
        let i = position(r);
        assert(reason_order()[i] == r);
        assert(!applies_at(f)(i));
    }
    if forall|r: Reason| !#[trigger] applies(f, r) {
        assert forall|i: int| 0 <= i < 17 implies !#[trigger] applies_at(f)(i) by {
            assert(!applies(f, reason_order()[i]));
        }
    }
}

/// A ticker with records passes exactly when no check found anything that counts: no
/// outage, missing day, violation, broken seam, misaligned bar, uncovered day, bad
/// roll-up, brick below the floor or stuck feed; its bricks are calibrated, with a
/// multiplier that is neither stale nor implausible, on target and evenly spread; and,
/// unless the pair looks pegged or has no target, there are between half and twice as
/// many as wanted.
pub proof fn passing_tickers_have_no_fault(f: Findings)
    ensures
        reasons_of(f, 17).len() == 0 <==> {
            &&& f.outage_gaps == 0 && f.missing_days == 0 && f.invariant_violations == 0
            &&& f.s10_violations == 0 && f.s10_off_grid == 0 && f.s10_seams == 0
                && f.s10_misaligned == 0 && f.s10_coverage != Coverage::Fail
            &&& f.rollup_violations == 0 && f.renko_seam_breaks == 0 && f.renko_floor_violations
                == 0
            &&& !f.renko.uncalibrated && !f.renko.k_stale && !f.renko.k_implausible
                && !f.renko.bpd_off_band && !f.renko.dist_fail && !f.stuck_feed
            &&& f.looks_stable || f.renko.target_unresolved || f.renko_days == 0
                || !f.renko_ratio.finite() || ((Double { bits: 0x3fe0_0000_0000_0000 }).at_most(
                f.renko_ratio,
            ) && f.renko_ratio.at_most(Double { bits: 0x4000_0000_0000_0000 }))
        },
{
    passes_when_no_reason_applies(f);
    if reasons_of(f, 17).len() == 0 {
        assert(!applies(f, Reason::Outages));
        assert(!applies(f, Reason::MissingDays));
        assert(!applies(f, Reason::Invariants));
        assert(!applies(f, Reason::S10Bars));
        assert(!applies(f, Reason::RenkoCadence));
        assert(!applies(f, Reason::RenkoSeams));
        assert(!applies(f, Reason::RenkoFloor));
        assert(!applies(f, Reason::RenkoUncalibrated));
        assert(!applies(f, Reason::RenkoStaleK));
        assert(!applies(f, Reason::RenkoImplausibleK));
        assert(!applies(f, Reason::RenkoOffBand));
        assert(!applies(f, Reason::S10Grid));
        assert(!applies(f, Reason::S10Misaligned));
        assert(!applies(f, Reason::S10Coverage));
        assert(!applies(f, Reason::RenkoDrift));
        assert(!applies(f, Reason::Rollup));
        assert(!applies(f, Reason::StuckFeed));
    }
}

spec fn position(r: Reason) -> int {
    match r {
        Reason::Outages => 0,
        Reason::MissingDays => 1,
        Reason::Invariants => 2,
        Reason::S10Bars => 3,
        Reason::RenkoCadence => 4,
        Reason::RenkoSeams => 5,
        Reason::RenkoFloor => 6,
        Reason::RenkoUncalibrated => 7,
        Reason::RenkoStaleK => 8,
        Reason::RenkoImplausibleK => 9,
        Reason::RenkoOffBand => 10,
        Reason::S10Grid => 11,
        Reason::S10Misaligned => 12,
        Reason::S10Coverage => 13,
        Reason::RenkoDrift => 14,
        Reason::Rollup => 15,
        Reason::StuckFeed => 16,
    }
}

/// Findings that are advisory cannot fail a ticker: the verdict ignores drift
/// warnings, a multiplier pinned at its ceiling, shards behind calibration and
/// a manifest without a stamp.
pub proof fn advisories_never_fail(f: Findings, g: Findings)
    requires
        g == (Findings {
            renko: RenkoFlags {
                dist_drift: g.renko.dist_drift,
                k_clamped_warn: g.renko.k_clamped_warn,
                behind_calibration: g.renko.behind_calibration,
                provenance_missing: g.renko.provenance_missing,
                skipped_stable: g.renko.skipped_stable,
                ..f.renko
            },
            ..f
        }),
    ensures
        reasons_of(f, 17) == reasons_of(g, 17),
{
    tally::lemma_count_same(17, applies_at(f), applies_at(g));
}

} // verus!
