//! Checks on a file of volatility records.

use vstd::prelude::*;
use crate::ieee::Double;
use crate::integrity;
use crate::tally;

verus! {

/// Five: a volatility per bin at or above 500 % is corrupt.
pub const VOL_MAX: u64 = 0x4014_0000_0000_0000;

/// A half: the upper end of the operating range.
pub const VOL_USUAL_MAX: u64 = 0x3fe0_0000_0000_0000;

#[derive(Clone, Copy, Debug)]
pub struct VolRow {
    /// Stored timestamp.
    pub mts: u64,
    /// The same instant in epoch milliseconds.
    pub ts_ms: i64,
    pub sigma_pct: Double,
}

#[derive(Clone, Copy, Debug, PartialEq, Eq, Structural)]
pub enum VolIssue {
    OutsideEpoch,
    NotIncreasing,
    Gap,
    NonFinite,
    /// Negative, or at least [`VOL_MAX`].
    Absurd,
    OutsideRange,
}

#[derive(Clone, Copy, Debug, PartialEq, Eq, Structural)]
pub struct VolFinding {
    pub record: usize,
    pub issue: VolIssue,
}

/// A value that a volatility can have at all.
pub open spec fn in_band(sigma: Double) -> bool {
    sigma.finite() && sigma.rank() >= 0 && sigma.below(Double { bits: VOL_MAX })
}

pub open spec fn about(i: int, issue: VolIssue) -> VolFinding {
    VolFinding { record: i as usize, issue }
}

pub open spec fn with_row(so_far: Seq<VolFinding>, rows: Seq<VolRow>, now_ms: i64, i: int) -> Seq<
    VolFinding,
> {
    let r = rows[i];
    so_far + tally::when(
        integrity::outside_epoch(r.ts_ms, now_ms),
        about(i, VolIssue::OutsideEpoch),
    ) + tally::when(i > 0 && r.mts <= rows[i - 1].mts, about(i, VolIssue::NotIncreasing))
        + tally::when(!r.sigma_pct.finite(), about(i, VolIssue::NonFinite)) + tally::when(
        r.sigma_pct.finite() && !in_band(r.sigma_pct),
        about(i, VolIssue::Absurd),
    ) + tally::when(
        in_band(r.sigma_pct) && !r.sigma_pct.at_most(Double { bits: VOL_USUAL_MAX }),
        about(i, VolIssue::OutsideRange),
    )
}

pub open spec fn vol_errors(rows: Seq<VolRow>, now_ms: i64, n: int) -> Seq<VolFinding>
    decreases n,
{
    if n <= 0 {
        Seq::empty()
    } else {
        with_row(vol_errors(rows, now_ms, n - 1), rows, now_ms, n - 1)
    }
}

/// What is wrong with volatility row `i` of a file: a time outside the epoch or not
/// after the row before, a value that is no finite number, one that none can have, or
/// one beyond the usual range.
pub open spec fn vol_fault(rows: Seq<VolRow>, now_ms: i64, i: int, issue: VolIssue) -> bool {
    let v = rows[i].sigma_pct;
    let zero = Double { bits: 0 };
    let five = Double { bits: 0x4014_0000_0000_0000 };
    let half = Double { bits: 0x3fe0_0000_0000_0000 };
    match issue {
        VolIssue::OutsideEpoch => rows[i].ts_ms < 946_684_800_000 || rows[i].ts_ms > now_ms
            + 300_000,
        VolIssue::NotIncreasing => i > 0 && rows[i].mts <= rows[i - 1].mts,
        VolIssue::NonFinite => !v.finite(),
        VolIssue::Absurd => v.finite() && (v.below(zero) || five.at_most(v)),
        VolIssue::OutsideRange => half.below(v) && v.below(five),
        VolIssue::Gap => false,
    }
}

/// The errors of a file of volatilities are what is wrong with its rows.
pub proof fn vol_errors_are_faults(
    rows: Seq<VolRow>,
    now_ms: i64,
    n: int,
    i: usize,
    issue: VolIssue,
)
    requires
        0 <= n <= rows.len() <= usize::MAX,
    ensures
        tally::among(vol_errors(rows, now_ms, n), VolFinding { record: i, issue }) <==> i < n && vol_fault(
            rows,
            now_ms,
            i as int,
            issue,
        ),
    decreases n,
{
    broadcast use tally::lemma_when;

    if n > 0 {
        vol_errors_are_faults(rows, now_ms, n - 1, i, issue);
        let so_far = vol_errors(rows, now_ms, n - 1);
        let x = VolFinding { record: i, issue };
        assert(tally::among(with_row(so_far, rows, now_ms, n - 1), x) <==> tally::among(so_far, x) || (i == n
            - 1 && vol_fault(rows, now_ms, i as int, issue)));
    } else {
        reveal(tally::among);
    }
}

pub open spec fn gap_before(rows: Seq<VolRow>) -> spec_fn(int) -> bool {
    |i: int| i > 0 && rows[i].ts_ms - rows[i - 1].ts_ms > integrity::IDX_MAX_GAP_MS
}

pub open spec fn vol_warnings(rows: Seq<VolRow>, n: int) -> Seq<VolFinding> {
    tally::hits(n, gap_before(rows)).map_values(|i: int| about(i, VolIssue::Gap))
}

/// Smallest and largest value in band; both zero when there is none.
pub open spec fn spans(rows: Seq<VolRow>, lo: Double, hi: Double) -> bool {
    if exists|i: int| 0 <= i < rows.len() && in_band((#[trigger] rows[i]).sigma_pct) {
        &&& exists|i: int|
            0 <= i < rows.len() && in_band((#[trigger] rows[i]).sigma_pct) && rows[i].sigma_pct == lo
        &&& exists|i: int|
            0 <= i < rows.len() && in_band((#[trigger] rows[i]).sigma_pct) && rows[i].sigma_pct == hi
        &&& forall|i: int|
            0 <= i < rows.len() && in_band((#[trigger] rows[i]).sigma_pct) ==> lo.at_most(
                rows[i].sigma_pct,
            ) && rows[i].sigma_pct.at_most(hi)
    } else {
        lo.bits == 0 && hi.bits == 0
    }
}

#[derive(Debug)]
pub struct VolReport {
    pub errors: Vec<VolFinding>,
    pub warnings: Vec<VolFinding>,
    pub min_sigma: Double,
    pub max_sigma: Double,
}

fn note_when(out: &mut Vec<VolFinding>, b: bool, record: usize, issue: VolIssue)
    ensures
        final(out)@ == old(out)@ + tally::when(b, VolFinding { record, issue }),
{
    tally::push_when(out, b, VolFinding { record, issue });
}

fn is_in_band(sigma: Double) -> (b: bool)
    ensures
        b == in_band(sigma),
{
    sigma.is_finite() && !sigma.lt(Double { bits: 0 }) && sigma.lt(Double { bits: VOL_MAX })
}

fn note_row(errors: &mut Vec<VolFinding>, rows: &Vec<VolRow>, now_ms: i64, i: usize)
    requires
        i < rows.len(),
    ensures
        final(errors)@ == with_row(old(errors)@, rows@, now_ms, i as int),
{
    let r = &rows[i];
    let banded = is_in_band(r.sigma_pct);
    note_when(errors, integrity::is_outside_epoch(r.ts_ms, now_ms), i, VolIssue::OutsideEpoch);
    note_when(errors, i > 0 && r.mts <= rows[i - 1].mts, i, VolIssue::NotIncreasing);
    note_when(errors, !r.sigma_pct.is_finite(), i, VolIssue::NonFinite);
    note_when(errors, r.sigma_pct.is_finite() && !banded, i, VolIssue::Absurd);
    note_when(
        errors,
        banded && !r.sigma_pct.le(Double { bits: VOL_USUAL_MAX }),
        i,
        VolIssue::OutsideRange,
    );
}

/// Errors and warnings of a file of volatility records, and the range of its
/// values.
pub fn check_vol(rows: &Vec<VolRow>, now_ms: i64) -> (r: VolReport)
    ensures
        r.errors@ == vol_errors(rows@, now_ms, rows.len() as int),
        r.warnings@ == vol_warnings(rows@, rows.len() as int),
        spans(rows@, r.min_sigma, r.max_sigma),
{
    let mut errors: Vec<VolFinding> = Vec::new();
    let mut warnings: Vec<VolFinding> = Vec::new();
    assert(vol_warnings(rows@, 0) =~= Seq::<VolFinding>::empty());
    let mut range: Option<(Double, Double)> = None;
    let mut i: usize = 0;
    while i < rows.len()
        invariant
            i <= rows.len(),
            errors@ == vol_errors(rows@, now_ms, i as int),
            warnings@ == vol_warnings(rows@, i as int),
            range is None ==> forall|k: int| 0 <= k < i ==> !in_band((#[trigger] rows@[k]).sigma_pct),
            range matches Some((lo, hi)) ==> {
                &&& exists|k: int|
                    0 <= k < i && in_band((#[trigger] rows@[k]).sigma_pct) && rows@[k].sigma_pct == lo
                &&& exists|k: int|
                    0 <= k < i && in_band((#[trigger] rows@[k]).sigma_pct) && rows@[k].sigma_pct == hi
                &&& forall|k: int|
                    0 <= k < i && in_band((#[trigger] rows@[k]).sigma_pct) ==> lo.at_most(
                        rows@[k].sigma_pct,
                    ) && rows@[k].sigma_pct.at_most(hi)
            },
        decreases rows.len() - i,
    {
        note_row(&mut errors, rows, now_ms, i);
        let gap = i > 0 && (rows[i].ts_ms as i128) - (rows[i - 1].ts_ms as i128) > (
        integrity::IDX_MAX_GAP_MS as i128);
        let ghost was = warnings@;
        if gap {
            warnings.push(VolFinding { record: i, issue: VolIssue::Gap });
            assert(vol_warnings(rows@, i + 1) =~= was.push(about(i as int, VolIssue::Gap)));
        } else {
            assert(vol_warnings(rows@, i + 1) =~= was);
        }
        let sigma = rows[i].sigma_pct;
        if is_in_band(sigma) {
            assert(in_band(rows@[i as int].sigma_pct));
            range = match range {
                None => Some((sigma, sigma)),
                Some((lo, hi)) => Some(
                    (
                        if sigma.lt(lo) {
                            sigma
                        } else {
                            lo
                        },
                        if hi.lt(sigma) {
                            sigma
                        } else {
                            hi
                        },
                    ),
                ),
            };
        }
        i = i + 1;
    }
    let (min_sigma, max_sigma) = match range {
        Some(r) => r,
        None => (Double { bits: 0 }, Double { bits: 0 }),
    };
    VolReport { errors, warnings, min_sigma, max_sigma }
}

} // verus!
