//! Checks on renko bricks: cadence, calibration and provenance.

use vstd::prelude::*;
use crate::ieee::Double;
use crate::tally;

verus! {

/// Realised cadence may miss its target by a fifth.
pub const BPD_ACCEPT_TOL: u64 = 0x3fc9_9999_9999_999a;

/// The multiplier that shards were built with may drift by a twentieth.
pub const K_STALE_TOL: u64 = 0x3fa9_9999_9999_999a;

/// A multiplier within a hundredth of its ceiling is pinned there.
pub const K_PINNED_TOL: u64 = 0x3f84_7ae1_47ae_147b;

/// Envelope of a multiplier where configuration gives none: 0.01 to 4.
pub const K_ABS_LO: u64 = 0x3f84_7ae1_47ae_147b;

pub const K_ABS_HI: u64 = 0x4010_0000_0000_0000;

/// Realised bricks per day miss the target; without a finite positive target
/// they never do. `rel_err` is `|inferred / target - 1|`.
pub open spec fn off_band(inferred: Double, target: Double, rel_err: Double) -> bool {
    target.positive() && target.finite() && inferred.finite() && (Double {
        bits: BPD_ACCEPT_TOL,
    }).below(rel_err)
}

/// Judges realised bricks per day against the ticker's own target.
pub fn renko_bpd_off_band(inferred: Double, target: Double, rel_err: Double) -> (b: bool)
    ensures
        b == off_band(inferred, target, rel_err),
{
    target.is_positive() && target.is_finite() && inferred.is_finite() && (Double {
        bits: BPD_ACCEPT_TOL,
    }).lt(rel_err)
}

/// Shards were built with another multiplier; without a finite positive current
/// one they never were. `drift` is `|used / current - 1|`.
pub open spec fn k_stale(used: Double, current: Double, drift: Double) -> bool {
    current.positive() && current.finite() && used.finite() && (Double {
        bits: K_STALE_TOL,
    }).below(drift)
}

/// Judges the multiplier that shards were built with against the current one.
pub fn renko_k_stale(used: Double, current: Double, drift: Double) -> (b: bool)
    ensures
        b == k_stale(used, current, drift),
{
    current.is_positive() && current.is_finite() && used.is_finite() && (Double {
        bits: K_STALE_TOL,
    }).lt(drift)
}

/// How a calibrated multiplier sits in its envelope.
#[derive(Clone, Copy, Debug, PartialEq, Eq, Structural)]
pub enum KPlausibility {
    Sane,
    /// Outside the envelope.
    Implausible,
    /// Inside, pinned at the ceiling.
    Pinned,
}

/// `pin_gap` is `|k / hi - 1|`.
pub open spec fn plausibility_of(k: Double, lo: Double, hi: Double, pin_gap: Double) -> KPlausibility {
    if !(k.finite() && lo.at_most(k) && k.at_most(hi)) {
        KPlausibility::Implausible
    } else if hi.positive() && pin_gap.below(Double { bits: K_PINNED_TOL }) {
        KPlausibility::Pinned
    } else {
        KPlausibility::Sane
    }
}

/// A multiplier is plausible exactly if it is a finite number within its envelope, and
/// pinned if it is also within a hundredth of a ceiling above zero.
pub proof fn plausible_multipliers_lie_in_their_envelope(
    k: Double,
    lo: Double,
    hi: Double,
    pin_gap: Double,
)
    ensures
        plausibility_of(k, lo, hi, pin_gap) != KPlausibility::Implausible <==> k.finite()
            && lo.at_most(k) && k.at_most(hi),
        plausibility_of(k, lo, hi, pin_gap) == KPlausibility::Pinned ==> hi.positive()
            && pin_gap.below(Double { bits: 0x3f84_7ae1_47ae_147b }),
        plausibility_of(k, lo, hi, pin_gap) == KPlausibility::Sane ==> !(hi.positive()
            && pin_gap.below(Double { bits: 0x3f84_7ae1_47ae_147b })),
{
}

/// Places a multiplier in its envelope.
pub fn k_plausibility(k: Double, lo: Double, hi: Double, pin_gap: Double) -> (p: KPlausibility)
    ensures
        p == plausibility_of(k, lo, hi, pin_gap),
{
    if !(k.is_finite() && lo.le(k) && k.le(hi)) {
        KPlausibility::Implausible
    } else if hi.is_positive() && pin_gap.lt(Double { bits: K_PINNED_TOL }) {
        KPlausibility::Pinned
    } else {
        KPlausibility::Sane
    }
}

/// The envelope in force: the configured one, else the absolute one.
pub fn k_envelope(configured: Option<(Double, Double)>) -> (e: (Double, Double))
    ensures
        e == match configured {
            Some(bounds) => bounds,
            None => (Double { bits: K_ABS_LO }, Double { bits: K_ABS_HI }),
        },
{
    match configured {
        Some(bounds) => bounds,
        None => (Double { bits: K_ABS_LO }, Double { bits: K_ABS_HI }),
    }
}

/// One brick: its epoch day, and whether its size is below the floor.
#[derive(Clone, Copy, Debug)]
pub struct Brick {
    pub epoch_day: i64,
    pub below_floor: bool,
}

/// Bricks of a window, by day.
#[derive(Debug)]
pub struct BrickTally {
    pub bricks: u64,
    /// Bricks of each day that has any, by date.
    pub per_day: Vec<(i64, u64)>,
    /// Fewest bricks on a day that has any; 0 without bricks.
    pub min_day: u64,
    pub floor_violations: u64,
}

pub open spec fn brick_days(bricks: Seq<Brick>) -> Seq<i64> {
    Seq::new(bricks.len(), |i: int| bricks[i].epoch_day)
}

pub open spec fn is_below_floor(bricks: Seq<Brick>) -> spec_fn(int) -> bool {
    |i: int| bricks[i].below_floor
}

/// `m` is the smallest count; 0 when there is none.
pub open spec fn least_count(counts: Seq<(i64, u64)>, m: u64) -> bool {
    &&& counts.len() == 0 ==> m == 0
    &&& counts.len() > 0 ==> (exists|a: int| 0 <= a < counts.len() && (#[trigger] counts[a]).1 == m)
    &&& forall|a: int| 0 <= a < counts.len() ==> m <= (#[trigger] counts[a]).1
}

/// Counts bricks by day.
pub fn tally_bricks(bricks: &Vec<Brick>) -> (t: BrickTally)
    ensures
        t.bricks == bricks.len(),
        tally::counts_keys(brick_days(bricks@), bricks.len() as int, t.per_day@),
        least_count(t.per_day@, t.min_day),
        t.floor_violations == tally::count(bricks.len() as int, is_below_floor(bricks@)),
{
    let mut days: Vec<i64> = Vec::new();
    let mut floor_violations: u64 = 0;
    let mut i: usize = 0;
    while i < bricks.len()
        invariant
            i <= bricks.len(),
            days@ == brick_days(bricks@).take(i as int),
            floor_violations == tally::count(i as int, is_below_floor(bricks@)),
            floor_violations <= i,
        decreases bricks.len() - i,
    {
        days.push(bricks[i].epoch_day);
        if bricks[i].below_floor {
            floor_violations = floor_violations + 1;
        }
        i = i + 1;
    }
    assert(days@ == brick_days(bricks@));
    let per_day = tally::count_keys(&days);
    let mut min_day: u64 = 0;
    if per_day.len() > 0 {
        min_day = per_day[0].1;
        let mut a: usize = 1;
        assert(per_day@[0].1 == min_day);
        while a < per_day.len()
            invariant
                1 <= a <= per_day.len(),
                exists|b: int| 0 <= b < per_day.len() && (#[trigger] per_day@[b]).1 == min_day,
                forall|b: int| 0 <= b < a ==> min_day <= (#[trigger] per_day@[b]).1,
            decreases per_day.len() - a,
        {
            if per_day[a].1 < min_day {
                min_day = per_day[a].1;
                assert(per_day@[a as int].1 == min_day);
            }
            a = a + 1;
        }
    }
    BrickTally { bricks: bricks.len() as u64, per_day, min_day, floor_violations }
}

/// Neighbouring non-empty shards, whose seam has to be continuous.
pub open spec fn seam_before(bars: Seq<usize>, a: int, b: int) -> bool {
    &&& 0 <= a < b < bars.len()
    &&& bars[a] > 0
    &&& bars[b] > 0
    &&& forall|c: int| a < c < b ==> #[trigger] bars[c] == 0
}

/// Every pair of shards that meet at a seam, given the bars in each shard.
pub fn seam_pairs(bars: &Vec<usize>) -> (pairs: Vec<(usize, usize)>)
    ensures
        forall|k: int|
            0 <= k < pairs.len() ==> seam_before(
                bars@,
                (#[trigger] pairs@[k]).0 as int,
                pairs@[k].1 as int,
            ),
        forall|k: int, l: int|
            0 <= k < l < pairs.len() ==> (#[trigger] pairs@[k]).1 < (#[trigger] pairs@[l]).1,
        forall|a: usize, b: usize|
            seam_before(bars@, a as int, b as int) ==> #[trigger] pairs@.contains((a, b)),
{
    let mut pairs: Vec<(usize, usize)> = Vec::new();
    let mut prev: Option<usize> = None;
    let mut i: usize = 0;
    while i < bars.len()
        invariant
            i <= bars.len(),
            prev is None ==> forall|c: int| 0 <= c < i ==> #[trigger] bars@[c] == 0,
            prev matches Some(a) ==> a < i && bars@[a as int] > 0 && forall|c: int|
                a < c < i ==> #[trigger] bars@[c] == 0,
            forall|k: int|
                0 <= k < pairs.len() ==> seam_before(
                    bars@,
                    (#[trigger] pairs@[k]).0 as int,
                    pairs@[k].1 as int,
                ) && pairs@[k].1 < i,
            forall|k: int, l: int|
                0 <= k < l < pairs.len() ==> (#[trigger] pairs@[k]).1 < (#[trigger] pairs@[l]).1,
            forall|a: usize, b: usize|
                b < i && seam_before(bars@, a as int, b as int) ==> #[trigger] pairs@.contains((a, b)),
        decreases bars.len() - i,
    {
        if bars[i] > 0 {
            let ghost was = pairs@;
            let ghost before = prev;
            if let Some(a) = prev {
                pairs.push((a, i));
            }
            proof {
                assert forall|a: usize, b: usize| b < i + 1 && seam_before(bars@, a as int, b as int)
                    implies #[trigger] pairs@.contains((a, b)) by {
                    if b == i {
                        assert(bars@[a as int] > 0);
                        assert(before is Some);
                        let p = before->Some_0;
                        if a < p {
                            assert(bars@[p as int] == 0);
                        } else if p < a {
                            assert(bars@[a as int] == 0);
                        }
                        assert(pairs@[was.len() as int] == (a, b));
                    } else {
                        assert(was.contains((a, b)));
                        let k = choose|k: int| 0 <= k < was.len() && was[k] == (a, b);
                        assert(pairs@[k] == (a, b));
                    }
                }
            }
            prev = Some(i);
        }
        i = i + 1;
    }
    pairs
}

/// What a renko manifest says of how its shards were built.
#[derive(Clone, Copy, Debug)]
pub struct Stamp {
    pub k_used: Option<Double>,
    pub calibrated_at: Option<i64>,
}

/// What is known of a ticker's bricks.
#[derive(Clone, Copy, Debug)]
pub struct RenkoFacts {
    /// Days with bricks.
    pub days: u64,
    /// The pair looks pegged by its volatility.
    pub looks_stable: bool,
    /// The pair is pegged by identity.
    pub known_stable: bool,
    pub target_resolved: bool,
    pub target_bpd: Double,
    pub inferred_bpd: Double,
    /// `|inferred_bpd / target_bpd - 1|`.
    pub rel_err: Double,
    /// Median and median absolute deviation of bricks per day.
    pub median: Double,
    pub mad: Double,
    /// `0.5 * median` and `0.33 * median`.
    pub half_median: Double,
    pub third_median: Double,
    pub min_day: Double,
    /// The current calibrated multiplier.
    pub k: Option<Double>,
    pub plausibility: KPlausibility,
    pub manifest: Option<Stamp>,
    /// `|k_used / k - 1|`.
    pub drift: Double,
    pub current_calibrated_at: Option<i64>,
}

/// Findings on a ticker's bricks.
#[derive(Clone, Copy, Debug, PartialEq, Eq, Structural)]
pub struct RenkoFlags {
    pub uncalibrated: bool,
    pub target_unresolved: bool,
    pub bpd_off_band: bool,
    pub dist_drift: bool,
    pub dist_fail: bool,
    pub k_implausible: bool,
    pub k_clamped_warn: bool,
    pub k_stale: bool,
    pub behind_calibration: bool,
    pub provenance_missing: bool,
    pub skipped_stable: bool,
}

/// Days differ too much: the deviation exceeds half of the median, or a day
/// has less than a third of it.
pub open spec fn drifts(f: RenkoFacts) -> bool {
    f.days > 0 && f.median.positive() && (f.half_median.below(f.mad) || f.min_day.below(
        f.third_median,
    ))
}

pub open spec fn flags_of(f: RenkoFacts) -> RenkoFlags {
    RenkoFlags {
        uncalibrated: f.k is None && f.days > 0,
        target_unresolved: !f.target_resolved && f.days > 0,
        bpd_off_band: !f.looks_stable && f.target_resolved && f.days > 0 && off_band(
            f.inferred_bpd,
            f.target_bpd,
            f.rel_err,
        ),
        dist_drift: drifts(f),
        dist_fail: !f.looks_stable && drifts(f),
        k_implausible: f.k is Some && f.plausibility == KPlausibility::Implausible,
        k_clamped_warn: f.k is Some && f.plausibility == KPlausibility::Pinned && !f.looks_stable
            && !f.known_stable,
        k_stale: f.manifest is Some && f.manifest->Some_0.k_used is Some && f.k is Some && k_stale(
            f.manifest->Some_0.k_used->Some_0,
            f.k->Some_0,
            f.drift,
        ),
        behind_calibration: f.manifest is Some && f.manifest->Some_0.k_used is Some
            && f.current_calibrated_at is Some && f.manifest->Some_0.calibrated_at is Some
            && f.current_calibrated_at->Some_0 > f.manifest->Some_0.calibrated_at->Some_0,
        provenance_missing: f.manifest is Some && f.manifest->Some_0.k_used is None && f.days > 0,
        skipped_stable: f.looks_stable,
    }
}

/// Judges a ticker's bricks.
pub fn judge_renko(f: &RenkoFacts) -> (flags: RenkoFlags)
    ensures
        flags == flags_of(*f),
{
    let drift = f.days > 0 && f.median.is_positive() && (f.half_median.lt(f.mad) || f.min_day.lt(
        f.third_median,
    ));
    let mut stale = false;
    let mut behind = false;
    let mut missing = false;
    if let Some(stamp) = f.manifest {
        match stamp.k_used {
            Some(used) => {
                if let Some(k) = f.k {
                    stale = renko_k_stale(used, k, f.drift);
                }
                if let Some(now) = f.current_calibrated_at {
                    if let Some(built) = stamp.calibrated_at {
                        behind = now > built;
                    }
                }
            },
            None => {
                missing = f.days > 0;
            },
        }
    }
    RenkoFlags {
        uncalibrated: f.k.is_none() && f.days > 0,
        target_unresolved: !f.target_resolved && f.days > 0,
        bpd_off_band: !f.looks_stable && f.target_resolved && f.days > 0 && renko_bpd_off_band(
            f.inferred_bpd,
            f.target_bpd,
            f.rel_err,
        ),
        dist_drift: drift,
        dist_fail: !f.looks_stable && drift,
        k_implausible: f.k.is_some() && f.plausibility == KPlausibility::Implausible,
        k_clamped_warn: f.k.is_some() && f.plausibility == KPlausibility::Pinned && !f.looks_stable
            && !f.known_stable,
        k_stale: stale,
        behind_calibration: behind,
        provenance_missing: missing,
        skipped_stable: f.looks_stable,
    }
}

/// What is excused is never flagged: a pair that looks pegged misses no target, fails
/// no distribution and is not pinned, nor is a pair pegged by identity; without a
/// target none is missed; without a multiplier none is implausible, pinned or stale;
/// and without bricks nothing is missed, missing or drifting.
pub proof fn excused_pairs_are_not_flagged(f: RenkoFacts)
    ensures
        ({
            let flags = flags_of(f);
            &&& f.looks_stable ==> flags.skipped_stable && !flags.bpd_off_band && !flags.dist_fail
                && !flags.k_clamped_warn
            &&& f.known_stable ==> !flags.k_clamped_warn
            &&& !f.target_resolved ==> !flags.bpd_off_band
            &&& f.k is None ==> !flags.k_implausible && !flags.k_clamped_warn && !flags.k_stale
            &&& f.manifest is None ==> !flags.k_stale && !flags.behind_calibration
                && !flags.provenance_missing
            &&& f.days == 0 ==> !flags.uncalibrated && !flags.target_unresolved
                && !flags.bpd_off_band && !flags.dist_drift && !flags.dist_fail
                && !flags.provenance_missing
        }),
{
}

/// What is not excused is flagged: bricks a day more than the tolerance off a resolved
/// target, days that differ too much, a multiplier outside its envelope or at its
/// ceiling, shards built with another multiplier or before the current one.
pub proof fn faults_of_bricks_are_flagged(f: RenkoFacts)
    requires
        f.days > 0,
        !f.looks_stable,
        !f.known_stable,
    ensures
        ({
            let flags = flags_of(f);
            &&& f.target_resolved ==> (flags.bpd_off_band <==> f.target_bpd.positive()
                && f.target_bpd.finite() && f.inferred_bpd.finite() && (Double {
                bits: BPD_ACCEPT_TOL,
            }).below(f.rel_err))
            &&& !f.target_resolved ==> flags.target_unresolved
            &&& f.k is None ==> flags.uncalibrated
            &&& f.median.positive() && f.half_median.below(f.mad) ==> flags.dist_drift
                && flags.dist_fail
            &&& f.median.positive() && f.min_day.below(f.third_median) ==> flags.dist_drift
                && flags.dist_fail
            &&& f.mad.at_most(f.half_median) && f.third_median.at_most(f.min_day) ==> !flags.dist_drift
            &&& f.k is Some && f.plausibility == KPlausibility::Implausible ==> flags.k_implausible
            &&& f.k is Some && f.plausibility == KPlausibility::Pinned ==> flags.k_clamped_warn
            &&& f.plausibility == KPlausibility::Sane ==> !flags.k_implausible
                && !flags.k_clamped_warn
            &&& f.manifest matches Some(stamp) ==> {
                &&& stamp.k_used is None ==> flags.provenance_missing
                &&& stamp.k_used is Some ==> !flags.provenance_missing
                &&& stamp.k_used matches Some(used) ==> (stamp.calibrated_at matches Some(built) ==> (
                f.current_calibrated_at matches Some(now) ==> (flags.behind_calibration <==> built
                    < now)))
                &&& stamp.k_used matches Some(used) ==> (f.k matches Some(k) ==> (flags.k_stale
                    <==> k.positive() && k.finite() && used.finite() && (Double {
                    bits: K_STALE_TOL,
                }).below(f.drift)))
            }
        }),
{
}

/// A manifest from before stamping is never a failure: it sets neither the
/// stale nor the behind finding.
pub proof fn unstamped_manifest_never_stale(f: RenkoFacts)
    requires
        f.manifest is Some,
        f.manifest->Some_0.k_used is None,
    ensures
        !flags_of(f).k_stale,
        !flags_of(f).behind_calibration,
        flags_of(f).provenance_missing <==> f.days > 0,
{
}

} // verus!
