//! Checks on a file of bars.

use vstd::prelude::*;
use crate::ieee::Double;
use crate::tally;

verus! {

pub const KLINE: u8 = 0;

pub const RENKO: u8 = 1;

/// Ten, and two thousand: bars per day outside these fail a strict check.
pub const BARS_PER_DAY_LO: u64 = 0x4024_0000_0000_0000;

pub const BARS_PER_DAY_HI: u64 = 0x409f_4000_0000_0000;

/// Half, and one with a millionth of slack: the coverage a strict check accepts.
pub const COVERAGE_LO: u64 = 0x3fe0_0000_0000_0000;

pub const COVERAGE_HI: u64 = 0x3ff0_0001_0c6f_7a0b;

pub const ONE: u64 = 0x3ff0_0000_0000_0000;

/// One bar, with the quantities derived from it.
#[derive(Clone, Copy, Debug)]
pub struct BarRecord {
    pub kind: u8,
    pub open_ts_ms: i64,
    pub close_ts_ms: i64,
    pub open: Double,
    pub high: Double,
    pub low: Double,
    pub close: Double,
    pub realized_var: Double,
    pub bipower_var: Double,
    /// The open differs from the close of the bar before, beyond rounding.
    pub discontinuous: bool,
    /// The open is positive and the body is smaller than the brick floor.
    pub brick_below_floor: bool,
    /// Magnitude of the drift.
    pub abs_drift: Double,
    /// The volume imbalance is finite and outside -1 to 1.
    pub imbalance_out: bool,
    pub avg_spread_bps: Double,
    pub max_abs_return: Double,
}

#[derive(Clone, Copy, Debug, PartialEq, Eq, Structural)]
pub enum BarIssue {
    InvalidKind,
    NotKline,
    OpensAfterClose,
    NonFinite,
    HighTooLow,
    LowTooHigh,
    NegativeRealizedVar,
    NegativeBipowerVar,
    KlineGap,
    RenkoDiscontinuity,
    BrickBelowFloor,
    BarsPerDay,
    OffGrid,
    WildDrift,
    Imbalance,
    NegativeSpread,
    NegativeReturn,
    BackInTime,
    /// Whole buckets are missing.
    MissingBuckets { missing: u128 },
    /// The spacing is no multiple of the bucket.
    Spacing,
    Coverage,
    TotalMissing { missing: u128 },
}

#[derive(Clone, Copy, Debug, PartialEq, Eq, Structural)]
pub struct BarFinding {
    pub record: Option<usize>,
    pub issue: BarIssue,
}

pub open spec fn finite_ohlc(b: BarRecord) -> bool {
    b.open.finite() && b.high.finite() && b.low.finite() && b.close.finite()
}

pub open spec fn negative(d: Double) -> bool {
    !d.nan() && d.rank() < 0
}

fn is_negative(d: Double) -> (b: bool)
    ensures
        b == negative(d),
{
    !d.is_nan() && d.lt(Double { bits: 0 })
}

pub open spec fn about(i: int, issue: BarIssue) -> BarFinding {
    BarFinding { record: Some(i as usize), issue }
}

/// `so_far` and the errors that any bar can have. A bar with a price that is not
/// finite is not looked into further.
pub open spec fn with_ohlc(so_far: Seq<BarFinding>, b: BarRecord, i: int) -> Seq<BarFinding> {
    let ok = finite_ohlc(b);
    so_far + tally::when(b.open_ts_ms > b.close_ts_ms, about(i, BarIssue::OpensAfterClose))
        + tally::when(!ok, about(i, BarIssue::NonFinite)) + tally::when(
        ok && (b.high.below(b.open) || b.high.below(b.close) || b.high.below(b.low)),
        about(i, BarIssue::HighTooLow),
    ) + tally::when(
        ok && (b.open.below(b.low) || b.close.below(b.low) || b.high.below(b.low)),
        about(i, BarIssue::LowTooHigh),
    ) + tally::when(ok && negative(b.realized_var), about(i, BarIssue::NegativeRealizedVar))
        + tally::when(ok && negative(b.bipower_var), about(i, BarIssue::NegativeBipowerVar))
}

fn note_when(out: &mut Vec<BarFinding>, b: bool, record: Option<usize>, issue: BarIssue)
    ensures
        final(out)@ == old(out)@ + tally::when(b, BarFinding { record, issue }),
{
    tally::push_when(out, b, BarFinding { record, issue });
}

/// Sanity of a bar's prices and times. Tells whether its prices are finite.
pub fn check_bar_ohlc(i: usize, b: &BarRecord, errors: &mut Vec<BarFinding>) -> (ok: bool)
    ensures
        ok == finite_ohlc(*b),
        final(errors)@ == with_ohlc(old(errors)@, *b, i as int),
{
    let ok = b.open.is_finite() && b.high.is_finite() && b.low.is_finite() && b.close.is_finite();
    let at = Some(i);
    note_when(errors, b.open_ts_ms > b.close_ts_ms, at, BarIssue::OpensAfterClose);
    note_when(errors, !ok, at, BarIssue::NonFinite);
    note_when(
        errors,
        ok && (b.high.lt(b.open) || b.high.lt(b.close) || b.high.lt(b.low)),
        at,
        BarIssue::HighTooLow,
    );
    note_when(
        errors,
        ok && (b.open.lt(b.low) || b.close.lt(b.low) || b.high.lt(b.low)),
        at,
        BarIssue::LowTooHigh,
    );
    note_when(errors, ok && is_negative(b.realized_var), at, BarIssue::NegativeRealizedVar);
    note_when(errors, ok && is_negative(b.bipower_var), at, BarIssue::NegativeBipowerVar);
    ok
}

/// `so_far` and the errors of bar `i`: klines join in time, renko bricks in price.
pub open spec fn with_bar(so_far: Seq<BarFinding>, bars: Seq<BarRecord>, i: int) -> Seq<BarFinding> {
    let b = bars[i];
    let ok = finite_ohlc(b);
    with_ohlc(so_far + tally::when(b.kind > 3, about(i, BarIssue::InvalidKind)), b, i)
        + tally::when(
        ok && i > 0 && b.kind == KLINE && bars[i - 1].kind == KLINE && bars[i - 1].close_ts_ms
            != b.open_ts_ms,
        about(i, BarIssue::KlineGap),
    ) + tally::when(
        ok && i > 0 && b.kind == RENKO && bars[i - 1].kind == RENKO && b.discontinuous,
        about(i, BarIssue::RenkoDiscontinuity),
    ) + tally::when(
        ok && b.kind == RENKO && b.open.positive() && b.brick_below_floor,
        about(i, BarIssue::BrickBelowFloor),
    )
}

pub open spec fn bar_errors(bars: Seq<BarRecord>, n: int) -> Seq<BarFinding>
    decreases n,
{
    if n <= 0 {
        Seq::empty()
    } else {
        with_bar(bar_errors(bars, n - 1), bars, n - 1)
    }
}

/// What is wrong with bar `i` of a file: a kind that there is not, an open after its
/// close, a price that is no finite number; a high or a low that does not enclose the
/// other prices, a variance below zero; a kline that does not open where the kline
/// before closed, or a renko bar that does not at its price; a brick below the floor.
pub open spec fn bar_fault(bars: Seq<BarRecord>, i: int, issue: BarIssue) -> bool {
    let b = bars[i];
    let finite = b.open.finite() && b.high.finite() && b.low.finite() && b.close.finite();
    let zero = Double { bits: 0 };
    match issue {
        BarIssue::InvalidKind => b.kind != 0 && b.kind != 1 && b.kind != 2 && b.kind != 3,
        BarIssue::OpensAfterClose => b.close_ts_ms < b.open_ts_ms,
        BarIssue::NonFinite => !finite,
        BarIssue::HighTooLow => finite && !(b.open.at_most(b.high) && b.close.at_most(b.high)
            && b.low.at_most(b.high)),
        BarIssue::LowTooHigh => finite && !(b.low.at_most(b.open) && b.low.at_most(b.close)
            && b.low.at_most(b.high)),
        BarIssue::NegativeRealizedVar => finite && b.realized_var.below(zero),
        BarIssue::NegativeBipowerVar => finite && b.bipower_var.below(zero),
        BarIssue::KlineGap => finite && i > 0 && b.kind == 0 && bars[i - 1].kind == 0
            && b.open_ts_ms != bars[i - 1].close_ts_ms,
        BarIssue::RenkoDiscontinuity => finite && i > 0 && b.kind == 1 && bars[i - 1].kind == 1
            && b.discontinuous,
        BarIssue::BrickBelowFloor => finite && b.kind == 1 && zero.below(b.open)
            && b.brick_below_floor,
        _ => false,
    }
}

/// The errors of a file of bars are what is wrong with them: an error about a bar is
/// listed exactly if it is so.
pub proof fn bar_errors_are_faults(bars: Seq<BarRecord>, n: int, i: usize, issue: BarIssue)
    requires
        0 <= n <= bars.len() <= usize::MAX,
    ensures
        tally::among(bar_errors(bars, n), BarFinding { record: Some(i), issue }) <==> i < n && bar_fault(
            bars,
            i as int,
            issue,
        ),
        !tally::among(bar_errors(bars, n), BarFinding { record: None, issue }),
    decreases n,
{
    if n > 0 {
        bar_errors_are_faults(bars, n - 1, i, issue);
        let so_far = bar_errors(bars, n - 1);
        lemma_bar_step(so_far, bars, n - 1, BarFinding { record: Some(i), issue });
        lemma_bar_step(so_far, bars, n - 1, BarFinding { record: None, issue });
    } else {
        reveal(tally::among);
    }
}

#[verifier::spinoff_prover]
proof fn lemma_ohlc_step(so_far: Seq<BarFinding>, bars: Seq<BarRecord>, m: int, x: BarFinding)
    requires
        0 <= m < bars.len() <= usize::MAX,
    ensures
        tally::among(with_ohlc(so_far, bars[m], m), x) <==> tally::among(so_far, x) || (x.record
            == Some(m as usize) && (match x.issue {
            BarIssue::OpensAfterClose => bar_fault(bars, m, x.issue),
            BarIssue::NonFinite => bar_fault(bars, m, x.issue),
            BarIssue::HighTooLow => bar_fault(bars, m, x.issue),
            BarIssue::LowTooHigh => bar_fault(bars, m, x.issue),
            BarIssue::NegativeRealizedVar => bar_fault(bars, m, x.issue),
            BarIssue::NegativeBipowerVar => bar_fault(bars, m, x.issue),
            _ => false,
        })),
{
    let b = bars[m];
    let ok = finite_ohlc(b);
    let late = b.open_ts_ms > b.close_ts_ms;
    let high = ok && (b.high.below(b.open) || b.high.below(b.close) || b.high.below(b.low));
    let low = ok && (b.open.below(b.low) || b.close.below(b.low) || b.high.below(b.low));
    let realized = ok && negative(b.realized_var);
    let bipower = ok && negative(b.bipower_var);
    let s1 = so_far + tally::when(late, about(m, BarIssue::OpensAfterClose));
    let s2 = s1 + tally::when(!ok, about(m, BarIssue::NonFinite));
    let s3 = s2 + tally::when(high, about(m, BarIssue::HighTooLow));
    let s4 = s3 + tally::when(low, about(m, BarIssue::LowTooHigh));
    let s5 = s4 + tally::when(realized, about(m, BarIssue::NegativeRealizedVar));
    tally::lemma_when(so_far, late, about(m, BarIssue::OpensAfterClose), x);
    tally::lemma_when(s1, !ok, about(m, BarIssue::NonFinite), x);
    tally::lemma_when(s2, high, about(m, BarIssue::HighTooLow), x);
    tally::lemma_when(s3, low, about(m, BarIssue::LowTooHigh), x);
    tally::lemma_when(s4, realized, about(m, BarIssue::NegativeRealizedVar), x);
    tally::lemma_when(s5, bipower, about(m, BarIssue::NegativeBipowerVar), x);
    assert(with_ohlc(so_far, b, m) == s5 + tally::when(
        bipower,
        about(m, BarIssue::NegativeBipowerVar),
    ));
}

#[verifier::spinoff_prover]
proof fn lemma_bar_step(so_far: Seq<BarFinding>, bars: Seq<BarRecord>, m: int, x: BarFinding)
    requires
        0 <= m < bars.len() <= usize::MAX,
    ensures
        tally::among(with_bar(so_far, bars, m), x) <==> tally::among(so_far, x) || (x.record == Some(
            m as usize,
        ) && bar_fault(bars, m, x.issue)),
{
    let b = bars[m];
    let ok = finite_ohlc(b);
    let apart = ok && m > 0 && b.kind == KLINE && bars[m - 1].kind == KLINE && bars[m
        - 1].close_ts_ms != b.open_ts_ms;
    let torn = ok && m > 0 && b.kind == RENKO && bars[m - 1].kind == RENKO && b.discontinuous;
    let small = ok && b.kind == RENKO && b.open.positive() && b.brick_below_floor;
    let named = so_far + tally::when(b.kind > 3, about(m, BarIssue::InvalidKind));
    let priced = with_ohlc(named, b, m);
    let s1 = priced + tally::when(apart, about(m, BarIssue::KlineGap));
    let s2 = s1 + tally::when(torn, about(m, BarIssue::RenkoDiscontinuity));
    tally::lemma_when(so_far, b.kind > 3, about(m, BarIssue::InvalidKind), x);
    lemma_ohlc_step(named, bars, m, x);
    tally::lemma_when(priced, apart, about(m, BarIssue::KlineGap), x);
    tally::lemma_when(s1, torn, about(m, BarIssue::RenkoDiscontinuity), x);
    tally::lemma_when(s2, small, about(m, BarIssue::BrickBelowFloor), x);
    assert(with_bar(so_far, bars, m) == s2 + tally::when(
        small,
        about(m, BarIssue::BrickBelowFloor),
    ));
}

/// A strict check wants the number of bars per day, where known, in bounds.
pub open spec fn cadence_out(bars_per_day: Double) -> bool {
    bars_per_day.positive() && (bars_per_day.below(Double { bits: BARS_PER_DAY_LO }) || (Double {
        bits: BARS_PER_DAY_HI,
    }).below(bars_per_day))
}

/// Bars by kind.
#[derive(Clone, Copy, Debug, PartialEq, Eq, Structural)]
pub struct KindCounts {
    pub n_kline: usize,
    pub n_renko: usize,
    pub n_other: usize,
}

pub open spec fn is_kline(bars: Seq<BarRecord>) -> spec_fn(int) -> bool {
    |i: int| bars[i].kind == KLINE
}

pub open spec fn is_renko(bars: Seq<BarRecord>) -> spec_fn(int) -> bool {
    |i: int| bars[i].kind == RENKO
}

pub open spec fn is_other(bars: Seq<BarRecord>) -> spec_fn(int) -> bool {
    |i: int| bars[i].kind == 2 || bars[i].kind == 3
}

fn note_bar(errors: &mut Vec<BarFinding>, bars: &Vec<BarRecord>, i: usize)
    requires
        i < bars.len(),
    ensures
        final(errors)@ == with_bar(old(errors)@, bars@, i as int),
{
    let b = &bars[i];
    let at = Some(i);
    note_when(errors, b.kind > 3, at, BarIssue::InvalidKind);
    let ok = check_bar_ohlc(i, b, errors);
    note_when(
        errors,
        ok && i > 0 && b.kind == KLINE && bars[i - 1].kind == KLINE && bars[i - 1].close_ts_ms
            != b.open_ts_ms,
        at,
        BarIssue::KlineGap,
    );
    note_when(
        errors,
        ok && i > 0 && b.kind == RENKO && bars[i - 1].kind == RENKO && b.discontinuous,
        at,
        BarIssue::RenkoDiscontinuity,
    );
    note_when(
        errors,
        ok && b.kind == RENKO && b.open.is_positive() && b.brick_below_floor,
        at,
        BarIssue::BrickBelowFloor,
    );
}

/// Errors of a file of bars, and how many it holds of each kind.
pub fn check_bars(bars: &Vec<BarRecord>, strict: bool, bars_per_day: Double) -> (r: (
    Vec<BarFinding>,
    KindCounts,
))
    ensures
        r.0@ == bar_errors(bars@, bars.len() as int) + tally::when(
            strict && cadence_out(bars_per_day),
            BarFinding { record: None, issue: BarIssue::BarsPerDay },
        ),
        r.1.n_kline == tally::count(bars.len() as int, is_kline(bars@)),
        r.1.n_renko == tally::count(bars.len() as int, is_renko(bars@)),
        r.1.n_other == tally::count(bars.len() as int, is_other(bars@)),
{
    let mut errors: Vec<BarFinding> = Vec::new();
    let mut kinds = KindCounts { n_kline: 0, n_renko: 0, n_other: 0 };
    let mut i: usize = 0;
    while i < bars.len()
        invariant
            i <= bars.len(),
            errors@ == bar_errors(bars@, i as int),
            kinds.n_kline == tally::count(i as int, is_kline(bars@)),
            kinds.n_renko == tally::count(i as int, is_renko(bars@)),
            kinds.n_other == tally::count(i as int, is_other(bars@)),
            kinds.n_kline <= i,
            kinds.n_renko <= i,
            kinds.n_other <= i,
        decreases bars.len() - i,
    {
        let kind = bars[i].kind;
        if kind == KLINE {
            kinds.n_kline = kinds.n_kline + 1;
        } else if kind == RENKO {
            kinds.n_renko = kinds.n_renko + 1;
        } else if kind == 2 || kind == 3 {
            kinds.n_other = kinds.n_other + 1;
        }
        note_bar(&mut errors, bars, i);
        i = i + 1;
    }
    let off = bars_per_day.is_positive() && (bars_per_day.lt(Double { bits: BARS_PER_DAY_LO }) || (
    Double { bits: BARS_PER_DAY_HI }).lt(bars_per_day));
    note_when(&mut errors, strict && off, None, BarIssue::BarsPerDay);
    (errors, kinds)
}

/// Step from the close of the bar before to that of bar `i`.
pub open spec fn close_step(bars: Seq<BarRecord>, i: int) -> int {
    bars[i].close_ts_ms - bars[i - 1].close_ts_ms
}

/// The step is several whole buckets.
pub open spec fn skips_buckets(bars: Seq<BarRecord>, bucket_ms: i64, i: int) -> bool {
    i > 0 && bucket_ms > 0 && close_step(bars, i) > 0 && close_step(bars, i) != bucket_ms
        && close_step(bars, i) % bucket_ms as int == 0
}

/// Buckets missing before bar `i`.
pub open spec fn missing_before(bars: Seq<BarRecord>, bucket_ms: i64, i: int) -> int {
    close_step(bars, i) / bucket_ms as int - 1
}

/// `so_far` and the errors of ten-second bar `i`.
pub open spec fn with_s10(
    so_far: Seq<BarFinding>,
    bars: Seq<BarRecord>,
    bucket_ms: i64,
    i: int,
) -> Seq<BarFinding> {
    let b = bars[i];
    let ok = finite_ohlc(b);
    with_ohlc(so_far + tally::when(b.kind != KLINE, about(i, BarIssue::NotKline)), b, i)
        + tally::when(
        bucket_ms > 0 && b.open_ts_ms as int % bucket_ms as int != 0,
        about(i, BarIssue::OffGrid),
    ) + tally::when(ok && b.imbalance_out, about(i, BarIssue::Imbalance)) + tally::when(
        ok && b.avg_spread_bps.finite() && negative(b.avg_spread_bps),
        about(i, BarIssue::NegativeSpread),
    ) + tally::when(
        ok && b.max_abs_return.finite() && negative(b.max_abs_return),
        about(i, BarIssue::NegativeReturn),
    ) + tally::when(ok && i > 0 && close_step(bars, i) < 0, about(i, BarIssue::BackInTime))
        + tally::when(
        ok && i > 0 && close_step(bars, i) >= 0 && close_step(bars, i) != bucket_ms
            && !skips_buckets(bars, bucket_ms, i),
        about(i, BarIssue::Spacing),
    )
}

pub open spec fn with_s10_warnings(
    so_far: Seq<BarFinding>,
    bars: Seq<BarRecord>,
    bucket_ms: i64,
    i: int,
) -> Seq<BarFinding> {
    let b = bars[i];
    let ok = finite_ohlc(b);
    so_far + tally::when(
        ok && b.abs_drift.finite() && (Double { bits: ONE }).below(b.abs_drift),
        about(i, BarIssue::WildDrift),
    ) + tally::when(
        ok && skips_buckets(bars, bucket_ms, i),
        about(
            i,
            BarIssue::MissingBuckets { missing: missing_before(bars, bucket_ms, i) as u128 },
        ),
    )
}

pub open spec fn s10_errors(bars: Seq<BarRecord>, bucket_ms: i64, n: int) -> Seq<BarFinding>
    decreases n,
{
    if n <= 0 {
        Seq::empty()
    } else {
        with_s10(s10_errors(bars, bucket_ms, n - 1), bars, bucket_ms, n - 1)
    }
}

pub open spec fn s10_warnings(bars: Seq<BarRecord>, bucket_ms: i64, n: int) -> Seq<BarFinding>
    decreases n,
{
    if n <= 0 {
        Seq::empty()
    } else {
        with_s10_warnings(s10_warnings(bars, bucket_ms, n - 1), bars, bucket_ms, n - 1)
    }
}

/// What is wrong with ten-second bar `i` of a file.
pub open spec fn s10_fault(bars: Seq<BarRecord>, bucket_ms: i64, i: int, issue: BarIssue) -> bool {
    let b = bars[i];
    let finite = b.open.finite() && b.high.finite() && b.low.finite() && b.close.finite();
    let zero = Double { bits: 0 };
    let step = b.close_ts_ms - bars[i - 1].close_ts_ms;
    match issue {
        BarIssue::NotKline => b.kind != 0,
        BarIssue::OffGrid => bucket_ms > 0 && b.open_ts_ms as int % bucket_ms as int != 0,
        BarIssue::Imbalance => finite && b.imbalance_out,
        BarIssue::NegativeSpread => finite && b.avg_spread_bps.finite() && b.avg_spread_bps.below(
            zero,
        ),
        BarIssue::NegativeReturn => finite && b.max_abs_return.finite() && b.max_abs_return.below(
            zero,
        ),
        BarIssue::BackInTime => finite && i > 0 && b.close_ts_ms < bars[i - 1].close_ts_ms,
        BarIssue::Spacing => finite && i > 0 && step >= 0 && step != bucket_ms && !(bucket_ms > 0
            && step > 0 && step % bucket_ms as int == 0),
        BarIssue::OpensAfterClose => bar_fault(bars, i, issue),
        BarIssue::NonFinite => bar_fault(bars, i, issue),
        BarIssue::HighTooLow => bar_fault(bars, i, issue),
        BarIssue::LowTooHigh => bar_fault(bars, i, issue),
        BarIssue::NegativeRealizedVar => bar_fault(bars, i, issue),
        BarIssue::NegativeBipowerVar => bar_fault(bars, i, issue),
        _ => false,
    }
}

/// The errors of a file of ten-second bars are what is wrong with them.
pub proof fn s10_errors_are_faults(
    bars: Seq<BarRecord>,
    bucket_ms: i64,
    n: int,
    i: usize,
    issue: BarIssue,
)
    requires
        0 <= n <= bars.len() <= usize::MAX,
    ensures
        tally::among(s10_errors(bars, bucket_ms, n), BarFinding { record: Some(i), issue }) <==> i < n
            && s10_fault(bars, bucket_ms, i as int, issue),
        !tally::among(s10_errors(bars, bucket_ms, n), BarFinding { record: None, issue }),
    decreases n,
{
    if n > 0 {
        s10_errors_are_faults(bars, bucket_ms, n - 1, i, issue);
        let so_far = s10_errors(bars, bucket_ms, n - 1);
        lemma_s10_step(so_far, bars, bucket_ms, n - 1, BarFinding { record: Some(i), issue });
        lemma_s10_step(so_far, bars, bucket_ms, n - 1, BarFinding { record: None, issue });
    } else {
        reveal(tally::among);
    }
}

#[verifier::spinoff_prover]
proof fn lemma_s10_step(
    so_far: Seq<BarFinding>,
    bars: Seq<BarRecord>,
    bucket_ms: i64,
    m: int,
    x: BarFinding,
)
    requires
        0 <= m < bars.len() <= usize::MAX,
    ensures
        tally::among(with_s10(so_far, bars, bucket_ms, m), x) <==> tally::among(so_far, x) || (
        x.record == Some(m as usize) && s10_fault(bars, bucket_ms, m, x.issue)),
{
    let b = bars[m];
    let ok = finite_ohlc(b);
    let step = close_step(bars, m);
    let named = so_far + tally::when(b.kind != KLINE, about(m, BarIssue::NotKline));
    let priced = with_ohlc(named, b, m);
    let off = bucket_ms > 0 && b.open_ts_ms as int % bucket_ms as int != 0;
    let s1 = priced + tally::when(off, about(m, BarIssue::OffGrid));
    let s2 = s1 + tally::when(ok && b.imbalance_out, about(m, BarIssue::Imbalance));
    let low = ok && b.avg_spread_bps.finite() && negative(b.avg_spread_bps);
    let s3 = s2 + tally::when(low, about(m, BarIssue::NegativeSpread));
    let down = ok && b.max_abs_return.finite() && negative(b.max_abs_return);
    let s4 = s3 + tally::when(down, about(m, BarIssue::NegativeReturn));
    let back = ok && m > 0 && step < 0;
    let s5 = s4 + tally::when(back, about(m, BarIssue::BackInTime));
    let odd = ok && m > 0 && step >= 0 && step != bucket_ms && !skips_buckets(bars, bucket_ms, m);
    tally::lemma_when(so_far, b.kind != KLINE, about(m, BarIssue::NotKline), x);
    lemma_ohlc_step(named, bars, m, x);
    tally::lemma_when(priced, off, about(m, BarIssue::OffGrid), x);
    tally::lemma_when(s1, ok && b.imbalance_out, about(m, BarIssue::Imbalance), x);
    tally::lemma_when(s2, low, about(m, BarIssue::NegativeSpread), x);
    tally::lemma_when(s3, down, about(m, BarIssue::NegativeReturn), x);
    tally::lemma_when(s4, back, about(m, BarIssue::BackInTime), x);
    tally::lemma_when(s5, odd, about(m, BarIssue::Spacing), x);
    assert(with_s10(so_far, bars, bucket_ms, m) == s5 + tally::when(
        odd,
        about(m, BarIssue::Spacing),
    ));
}

/// Whole buckets missing before a ten-second bar are warned about with their number:
/// the step from the bar before is that many buckets and one more. A drift above one is
/// warned about too.
pub proof fn s10_warnings_tell_what_is_missing(
    bars: Seq<BarRecord>,
    bucket_ms: i64,
    n: int,
    i: usize,
    issue: BarIssue,
)
    requires
        0 <= n <= bars.len() <= usize::MAX,
    ensures
        tally::among(s10_warnings(bars, bucket_ms, n), BarFinding { record: Some(i), issue }) <==> i < n
            && finite_ohlc(bars[i as int]) && (match issue {
            BarIssue::WildDrift => bars[i as int].abs_drift.finite() && (Double {
                bits: 0x3ff0_0000_0000_0000,
            }).below(bars[i as int].abs_drift),
            BarIssue::MissingBuckets { missing } => i > 0 && bucket_ms > 0 && missing > 0
                && bars[i as int].close_ts_ms - bars[i - 1].close_ts_ms == (missing + 1) * bucket_ms,
            _ => false,
        }),
    decreases n,
{
    broadcast use tally::lemma_when;

    if n > 0 {
        s10_warnings_tell_what_is_missing(bars, bucket_ms, n - 1, i, issue);
        let so_far = s10_warnings(bars, bucket_ms, n - 1);
        let x = BarFinding { record: Some(i), issue };
        let all = with_s10_warnings(so_far, bars, bucket_ms, n - 1);
        let missing = missing_before(bars, bucket_ms, n - 1);
        if i == n - 1 && i > 0 && bucket_ms > 0 {
            let step = close_step(bars, n - 1);
            let w = bucket_ms as int;
            vstd::arithmetic::div_mod::lemma_fundamental_div_mod(step, w);
            let q = step / w;
            assert(w * q == q * w) by (nonlinear_arith);
            if step > 0 && step % w == 0 && step != w {
                assert(q > 1) by (nonlinear_arith)
                    requires
                        w > 0,
                        w * q == step,
                        step > 0,
                        step != w,
                ;
                assert(missing <= step) by (nonlinear_arith)
                    requires
                        missing == q - 1,
                        w > 0,
                        w * q == step,
                        q > 1,
                ;
            }
            if let BarIssue::MissingBuckets { missing: m } = issue {
                if m > 0 && step == (m + 1) * w {
                    vstd::arithmetic::div_mod::lemma_div_multiples_vanish(m + 1, w);
                    vstd::arithmetic::div_mod::lemma_mod_multiples_basic(m + 1, w);
                    assert(w * (m + 1) == (m + 1) * w) by (nonlinear_arith);
                    assert((m + 1) * w > w) by (nonlinear_arith)
                        requires
                            m > 0,
                            w > 0,
                    ;
                }
            }
        }
    } else {
        reveal(tally::among);
    }
}

/// Buckets missing before bar `i`, where the bar is sound.
pub open spec fn missing_at(bars: Seq<BarRecord>, bucket_ms: i64) -> spec_fn(int) -> int {
    |i: int|
        if finite_ohlc(bars[i]) && skips_buckets(bars, bucket_ms, i) {
            missing_before(bars, bucket_ms, i)
        } else {
            0
        }
}

struct Step {
    back: bool,
    skips: bool,
    spacing: bool,
    missing: u128,
}

fn read_step(bars: &Vec<BarRecord>, bucket_ms: i64, i: usize) -> (s: Step)
    requires
        i < bars.len(),
    ensures
        s.back == (i > 0 && close_step(bars@, i as int) < 0),
        s.skips == skips_buckets(bars@, bucket_ms, i as int),
        s.spacing == (i > 0 && close_step(bars@, i as int) >= 0 && close_step(bars@, i as int)
            != bucket_ms && !skips_buckets(bars@, bucket_ms, i as int)),
        s.skips ==> s.missing == missing_before(bars@, bucket_ms, i as int) && 0 < s.missing
            <= 0xffff_ffff_ffff_ffff,
{
    if i == 0 {
        return Step { back: false, skips: false, spacing: false, missing: 0 };
    }
    let delta: i128 = bars[i].close_ts_ms as i128 - bars[i - 1].close_ts_ms as i128;
    let back = delta < 0;
    let mut skips = false;
    let mut missing: u128 = 0;
    if bucket_ms > 0 && delta > 0 && delta != bucket_ms as i128 {
        let b: i128 = bucket_ms as i128;
        if delta % b == 0 {
            skips = true;
            proof {
                vstd::arithmetic::div_mod::lemma_fundamental_div_mod(delta as int, b as int);
                vstd::arithmetic::div_mod::lemma_div_is_ordered_by_denominator(
                    delta as int,
                    1,
                    b as int,
                );
                assert(delta as int / b as int >= 2) by (nonlinear_arith)
                    requires
                        delta as int == b as int * (delta as int / b as int) + delta as int
                            % b as int,
                        delta as int % b as int == 0,
                        delta > 0,
                        b > 0,
                        delta != b,
                ;
            }
            missing = (delta / b - 1) as u128;
        }
    }
    Step { back, skips, spacing: !back && delta != bucket_ms as i128 && !skips, missing }
}

fn grid_off(ts: i64, bucket_ms: i64) -> (b: bool)
    ensures
        b == (bucket_ms > 0 && ts as int % bucket_ms as int != 0),
{
    if bucket_ms <= 0 {
        return false;
    }
    match ts.checked_rem_euclid(bucket_ms) {
        Some(rest) => rest != 0,
        None => false,
    }
}

fn note_s10(errors: &mut Vec<BarFinding>, bars: &Vec<BarRecord>, bucket_ms: i64, i: usize, step: &Step)
    requires
        i < bars.len(),
        step.back == (i > 0 && close_step(bars@, i as int) < 0),
        step.spacing == (i > 0 && close_step(bars@, i as int) >= 0 && close_step(bars@, i as int)
            != bucket_ms && !skips_buckets(bars@, bucket_ms, i as int)),
    ensures
        final(errors)@ == with_s10(old(errors)@, bars@, bucket_ms, i as int),
{
    let b = &bars[i];
    let at = Some(i);
    note_when(errors, b.kind != KLINE, at, BarIssue::NotKline);
    let ok = check_bar_ohlc(i, b, errors);
    note_when(errors, grid_off(b.open_ts_ms, bucket_ms), at, BarIssue::OffGrid);
    note_when(errors, ok && b.imbalance_out, at, BarIssue::Imbalance);
    note_when(
        errors,
        ok && b.avg_spread_bps.is_finite() && is_negative(b.avg_spread_bps),
        at,
        BarIssue::NegativeSpread,
    );
    note_when(
        errors,
        ok && b.max_abs_return.is_finite() && is_negative(b.max_abs_return),
        at,
        BarIssue::NegativeReturn,
    );
    note_when(errors, ok && step.back, at, BarIssue::BackInTime);
    note_when(errors, ok && step.spacing, at, BarIssue::Spacing);
}

/// Result of a check on ten-second bars.
#[derive(Debug)]
pub struct S10Report {
    pub errors: Vec<BarFinding>,
    pub warnings: Vec<BarFinding>,
    pub n_kline: usize,
}

/// Errors and warnings of a file of ten-second bars. `coverage` is the number of
/// bars per day over the number expected; it counts where `bars_per_day` is
/// positive.
pub fn check_s10(
    bars: &Vec<BarRecord>,
    strict: bool,
    bucket_ms: i64,
    bars_per_day: Double,
    coverage: Double,
) -> (r: S10Report)
    ensures
        ({
            let n = bars.len() as int;
            let missing = tally::total(n, missing_at(bars@, bucket_ms));
            &&& r.errors@ == s10_errors(bars@, bucket_ms, n) + tally::when(
                strict && bars_per_day.positive() && !((Double { bits: COVERAGE_LO }).at_most(
                    coverage,
                ) && coverage.at_most(Double { bits: COVERAGE_HI })),
                BarFinding { record: None, issue: BarIssue::Coverage },
            )
            &&& r.warnings@ == s10_warnings(bars@, bucket_ms, n) + tally::when(
                missing > 0,
                BarFinding {
                    record: None,
                    issue: BarIssue::TotalMissing { missing: missing as u128 },
                },
            )
            &&& r.n_kline == tally::count(n, is_kline(bars@))
        }),
{
    let mut errors: Vec<BarFinding> = Vec::new();
    let mut warnings: Vec<BarFinding> = Vec::new();
    let mut n_kline: usize = 0;
    let mut missing: u128 = 0;
    let mut i: usize = 0;
    while i < bars.len()
        invariant
            i <= bars.len(),
            errors@ == s10_errors(bars@, bucket_ms, i as int),
            warnings@ == s10_warnings(bars@, bucket_ms, i as int),
            n_kline == tally::count(i as int, is_kline(bars@)),
            n_kline <= i,
            missing == tally::total(i as int, missing_at(bars@, bucket_ms)),
            missing <= i * 0xffff_ffff_ffff_ffff,
        decreases bars.len() - i,
    {
        let b = &bars[i];
        if b.kind == KLINE {
            n_kline = n_kline + 1;
        }
        let step = read_step(bars, bucket_ms, i);
        let ok = b.open.is_finite() && b.high.is_finite() && b.low.is_finite()
            && b.close.is_finite();
        note_s10(&mut errors, bars, bucket_ms, i, &step);
        note_when(
            &mut warnings,
            ok && b.abs_drift.is_finite() && (Double { bits: ONE }).lt(b.abs_drift),
            Some(i),
            BarIssue::WildDrift,
        );
        if ok && step.skips {
            missing = missing + step.missing;
        }
        note_when(
            &mut warnings,
            ok && step.skips,
            Some(i),
            BarIssue::MissingBuckets { missing: step.missing },
        );
        assert(warnings@ == with_s10_warnings(s10_warnings(bars@, bucket_ms, i as int), bars@, bucket_ms, i as int));
        i = i + 1;
    }
    let covered = (Double { bits: COVERAGE_LO }).le(coverage) && coverage.le(
        Double { bits: COVERAGE_HI },
    );
    note_when(
        &mut errors,
        strict && bars_per_day.is_positive() && !covered,
        None,
        BarIssue::Coverage,
    );
    note_when(&mut warnings, missing > 0, None, BarIssue::TotalMissing { missing });
    S10Report { errors, warnings, n_kline }
}

} // verus!
