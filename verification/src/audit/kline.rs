//! Checks on ten-second bars.

use vstd::prelude::*;
use crate::calendar;
use crate::calendar::Date;
use crate::ieee::Double;
use crate::tally;

verus! {

/// Width of a ten-second bucket.
pub const S10_BUCKET_MS: i64 = 10_000;

/// Timestamps are stored in 16 µs units; the round trip moves a grid point by
/// up to a millisecond. Real misalignment is off by seconds.
pub const GRID_TOL_MS: i64 = 2;

/// How two consecutive buckets follow one another.
#[derive(Clone, Copy, Debug, PartialEq, Eq, Structural)]
pub enum S10Boundary {
    /// The open does not advance.
    NonAdvancing,
    /// One bucket forward, within tolerance.
    Contiguous,
    /// Several whole buckets forward, within tolerance.
    Gap,
    /// No whole number of buckets forward.
    OffGrid,
}

/// `ms` is within tolerance of a bucket edge.
pub open spec fn on_grid(ms: int) -> bool {
    ms % (S10_BUCKET_MS as int) <= GRID_TOL_MS || ms % (S10_BUCKET_MS as int) >= S10_BUCKET_MS
        - GRID_TOL_MS
}

/// Reads a step from one bucket open to the next.
pub open spec fn boundary_of(delta: int) -> S10Boundary {
    if delta <= 0 {
        S10Boundary::NonAdvancing
    } else if S10_BUCKET_MS - GRID_TOL_MS <= delta <= S10_BUCKET_MS + GRID_TOL_MS {
        S10Boundary::Contiguous
    } else if delta > S10_BUCKET_MS && on_grid(delta) {
        S10Boundary::Gap
    } else {
        S10Boundary::OffGrid
    }
}

fn grid_rest(ms: i64) -> (r: i64)
    ensures
        r == ms as int % (S10_BUCKET_MS as int),
{
    match ms.checked_rem_euclid(S10_BUCKET_MS) {
        Some(r) => r,
        None => 0,
    }
}

/// Classifies the step between the opens of two buckets.
pub fn classify_s10_open_delta(prev_open_ms: i64, open_ms: i64) -> (b: S10Boundary)
    requires
        i64::MIN <= open_ms - prev_open_ms <= i64::MAX,
    ensures
        b == boundary_of(open_ms - prev_open_ms),
{
    let delta: i64 = open_ms - prev_open_ms;
    if delta <= 0 {
        return S10Boundary::NonAdvancing;
    }
    if delta >= S10_BUCKET_MS - GRID_TOL_MS && delta <= S10_BUCKET_MS + GRID_TOL_MS {
        return S10Boundary::Contiguous;
    }
    let rest = grid_rest(delta);
    let aligned = rest <= GRID_TOL_MS || rest >= S10_BUCKET_MS - GRID_TOL_MS;
    if delta > S10_BUCKET_MS && aligned {
        S10Boundary::Gap
    } else {
        S10Boundary::OffGrid
    }
}

/// Steps of whole buckets never read as off the grid; one bucket is contiguous
/// and more are a gap.
pub proof fn whole_buckets_stay_on_grid(k: int)
    requires
        k > 0,
    ensures
        boundary_of(k * S10_BUCKET_MS) == if k == 1 {
            S10Boundary::Contiguous
        } else {
            S10Boundary::Gap
        },
{
    assert((k * 10_000) % 10_000 == 0);
}

/// `ms` is within two milliseconds of a whole number of ten seconds.
pub open spec fn near_bucket(ms: int, k: int) -> bool {
    -2 <= ms - k * 10_000 <= 2
}

/// A step is read by the whole number of buckets it is near to: one is contiguous,
/// more are a gap, and a step forward near to none is off the grid.
pub proof fn steps_are_read_to_the_nearest_bucket(delta: int, k: int)
    ensures
        on_grid(delta) <==> exists|j: int| near_bucket(delta, j),
        boundary_of(delta) == S10Boundary::NonAdvancing <==> delta <= 0,
        delta > 0 && near_bucket(delta, k) && k == 1 ==> boundary_of(delta)
            == S10Boundary::Contiguous,
        near_bucket(delta, k) && k >= 2 ==> boundary_of(delta) == S10Boundary::Gap,
        boundary_of(delta) == S10Boundary::Contiguous ==> near_bucket(delta, 1),
        boundary_of(delta) == S10Boundary::Gap ==> exists|j: int| j >= 2 && near_bucket(delta, j),
        delta > 0 && boundary_of(delta) == S10Boundary::OffGrid ==> !(k >= 1 && near_bucket(
            delta,
            k,
        )),
{
    let q = delta / 10_000;
    let r = delta % 10_000;
    assert(delta == 10_000 * q + r && 0 <= r < 10_000);
    if r <= 2 {
        assert(near_bucket(delta, q));
    }
    if r >= 9_998 {
        assert(near_bucket(delta, q + 1));
    }
    assert forall|j: int| near_bucket(delta, j) implies on_grid(delta) by {
        lemma_near(delta, j);
    }
    if near_bucket(delta, k) {
        lemma_near(delta, k);
    }
}

proof fn lemma_near(delta: int, k: int)
    requires
        near_bucket(delta, k),
    ensures
        on_grid(delta),
{
    let d = delta - k * 10_000;
    if d >= 0 {
        assert(delta % 10_000 == d);
    } else {
        assert(delta % 10_000 == d + 10_000);
    }
}

/// A ten-second bar.
#[derive(Clone, Copy, Debug)]
pub struct S10Bar {
    pub open_ms: i64,
    pub close_ms: i64,
    pub open: Double,
    pub high: Double,
    pub low: Double,
    pub close: Double,
    /// The bar is the first of its shard.
    pub opens_shard: bool,
}

/// Closes a bucket apart may differ from that by a millisecond.
pub const SEAM_TOL_MS: i64 = 1;

/// The closes of two bars are not one bucket apart.
pub open spec fn seam_broken(prev_close_ms: i64, close_ms: i64) -> bool {
    let residual = close_ms - prev_close_ms - S10_BUCKET_MS;
    residual > SEAM_TOL_MS || residual < -SEAM_TOL_MS
}

/// Judges the closes on both sides of a seam between shards.
pub fn seam_violated(prev_close_ms: i64, close_ms: i64) -> (b: bool)
    ensures
        b == seam_broken(prev_close_ms, close_ms),
{
    let residual: i128 = close_ms as i128 - prev_close_ms as i128 - S10_BUCKET_MS as i128;
    residual > SEAM_TOL_MS as i128 || residual < -(SEAM_TOL_MS as i128)
}

/// What is wrong with a bar.
#[derive(Clone, Copy, Debug, PartialEq, Eq, Structural)]
pub enum BarDefect {
    NonFinite,
    LowAboveHigh,
    OpenOutside,
    CloseOutside,
    OpensAfterClose,
    Overlaps,
}

/// The first defect of a bar, given the close of the bar before it.
pub open spec fn bar_defect(bar: S10Bar, prev_close_ms: Option<i64>) -> Option<BarDefect> {
    if !(bar.open.finite() && bar.high.finite() && bar.low.finite() && bar.close.finite()) {
        Some(BarDefect::NonFinite)
    } else if bar.high.below(bar.low) {
        Some(BarDefect::LowAboveHigh)
    } else if bar.open.below(bar.low) || bar.high.below(bar.open) {
        Some(BarDefect::OpenOutside)
    } else if bar.close.below(bar.low) || bar.high.below(bar.close) {
        Some(BarDefect::CloseOutside)
    } else if bar.open_ms > bar.close_ms {
        Some(BarDefect::OpensAfterClose)
    } else if prev_close_ms is Some && bar.open_ms < prev_close_ms->Some_0 {
        Some(BarDefect::Overlaps)
    } else {
        None
    }
}

/// A bar has no defect exactly if its prices are finite, its low and high enclose the
/// open and the close, it does not open after it closes, and it does not open before
/// the bar before it closed. Closes on both sides of a seam are one bucket apart, to
/// the millisecond.
pub proof fn sound_bars_enclose_their_prices(bar: S10Bar, prev_close_ms: Option<i64>)
    ensures
        bar_defect(bar, prev_close_ms) is None <==> {
            &&& bar.open.finite() && bar.high.finite() && bar.low.finite() && bar.close.finite()
            &&& bar.low.at_most(bar.open) && bar.open.at_most(bar.high)
            &&& bar.low.at_most(bar.close) && bar.close.at_most(bar.high)
            &&& bar.open_ms <= bar.close_ms
            &&& prev_close_ms matches Some(c) ==> c <= bar.open_ms
        },
        bar_defect(bar, prev_close_ms) == Some(BarDefect::Overlaps) ==> prev_close_ms is Some
            && bar.open_ms < prev_close_ms->Some_0 && bar_defect(bar, None) is None,
        prev_close_ms matches Some(c) ==> (!seam_broken(c, bar.close_ms) <==> 9_999 <= bar.close_ms
            - c <= 10_001),
{
}

/// Checks one bar.
pub fn check_bar(bar: &S10Bar, prev_close_ms: Option<i64>) -> (d: Option<BarDefect>)
    ensures
        d == bar_defect(*bar, prev_close_ms),
{
    if !(bar.open.is_finite() && bar.high.is_finite() && bar.low.is_finite()
        && bar.close.is_finite()) {
        Some(BarDefect::NonFinite)
    } else if bar.high.lt(bar.low) {
        Some(BarDefect::LowAboveHigh)
    } else if bar.open.lt(bar.low) || bar.high.lt(bar.open) {
        Some(BarDefect::OpenOutside)
    } else if bar.close.lt(bar.low) || bar.high.lt(bar.close) {
        Some(BarDefect::CloseOutside)
    } else if bar.open_ms > bar.close_ms {
        Some(BarDefect::OpensAfterClose)
    } else {
        match prev_close_ms {
            Some(pc) if bar.open_ms < pc => Some(BarDefect::Overlaps),
            _ => None,
        }
    }
}

/// A finding on the bar with the given position.
#[derive(Clone, Copy, Debug, PartialEq, Eq, Structural)]
pub enum S10Event {
    Seam { at: usize },
    Broken { at: usize, defect: BarDefect },
    Misaligned { at: usize },
    OffGrid { at: usize },
}

/// Totals over the bars of a window.
#[derive(Debug)]
pub struct S10Tally {
    pub bars: u64,
    pub violations: u64,
    pub misaligned: u64,
    /// Steps off the open grid.
    pub off_grid: u64,
    /// Seams that only the close grid shows broken.
    pub seams: u64,
    /// Steps over several buckets.
    pub gaps: u64,
    /// The first findings, as far as there is room.
    pub samples: Vec<S10Event>,
}

pub open spec fn prev_close(bars: Seq<S10Bar>, i: int) -> Option<i64> {
    if i > 0 {
        Some(bars[i - 1].close_ms)
    } else {
        None
    }
}

pub open spec fn step(bars: Seq<S10Bar>, i: int) -> int {
    bars[i].open_ms - bars[i - 1].open_ms
}

pub open spec fn seam_at(bars: Seq<S10Bar>) -> spec_fn(int) -> bool {
    |i: int|
        i > 0 && bars[i].opens_shard && seam_broken(bars[i - 1].close_ms, bars[i].close_ms)
            && step(bars, i) == S10_BUCKET_MS
}

pub open spec fn broken_at(bars: Seq<S10Bar>) -> spec_fn(int) -> bool {
    |i: int| bar_defect(bars[i], prev_close(bars, i)) is Some
}

pub open spec fn misaligned_at(bars: Seq<S10Bar>) -> spec_fn(int) -> bool {
    |i: int| !on_grid(bars[i].open_ms as int)
}

pub open spec fn off_grid_at(bars: Seq<S10Bar>) -> spec_fn(int) -> bool {
    |i: int| i > 0 && boundary_of(step(bars, i)) == S10Boundary::OffGrid
}

pub open spec fn gap_at(bars: Seq<S10Bar>) -> spec_fn(int) -> bool {
    |i: int| i > 0 && boundary_of(step(bars, i)) == S10Boundary::Gap
}

/// `so_far` and the findings on bar `i`, in the order in which they are reported.
pub open spec fn with_events_at(so_far: Seq<S10Event>, bars: Seq<S10Bar>, i: int) -> Seq<S10Event> {
    so_far + tally::when(seam_at(bars)(i), S10Event::Seam { at: i as usize }) + tally::when(
        broken_at(bars)(i),
        S10Event::Broken {
            at: i as usize,
            defect: bar_defect(bars[i], prev_close(bars, i))->Some_0,
        },
    ) + tally::when(misaligned_at(bars)(i), S10Event::Misaligned { at: i as usize }) + tally::when(
        off_grid_at(bars)(i),
        S10Event::OffGrid { at: i as usize },
    )
}

/// The findings on the first `n` bars.
pub open spec fn events(bars: Seq<S10Bar>, n: int) -> Seq<S10Event>
    decreases n,
{
    if n <= 0 {
        Seq::empty()
    } else {
        with_events_at(events(bars, n - 1), bars, n - 1)
    }
}

/// A finding is reported exactly where it holds: a bar that has a defect with that
/// defect, an open away from the grid, a step off the grid, and a seam between shards
/// only where the opens are one bucket apart and the closes are not.
pub proof fn findings_are_reported_where_they_hold(bars: Seq<S10Bar>, n: int, i: usize)
    requires
        0 <= n <= bars.len() <= usize::MAX,
    ensures
        ({
            let found = events(bars, n);
            let at = i as int;
            &&& tally::among(found, S10Event::Seam { at: i }) <==> 0 < i < n && bars[at].opens_shard
                && bars[at].open_ms - bars[at - 1].open_ms == 10_000 && !(9_999 <= bars[at].close_ms
                - bars[at - 1].close_ms <= 10_001)
            &&& tally::among(found, S10Event::Misaligned { at: i }) <==> i < n && !on_grid(
                bars[at].open_ms as int,
            )
            &&& tally::among(found, S10Event::OffGrid { at: i }) <==> 0 < i < n && boundary_of(
                bars[at].open_ms - bars[at - 1].open_ms,
            ) == S10Boundary::OffGrid
            &&& forall|defect: BarDefect| #[trigger]
                tally::among(found, S10Event::Broken { at: i, defect }) <==> i < n && bar_defect(
                    bars[at],
                    if i > 0 {
                        Some(bars[at - 1].close_ms)
                    } else {
                        None
                    },
                ) == Some(defect)
        }),
    decreases n,
{
    broadcast use tally::lemma_when;

    if n > 0 {
        findings_are_reported_where_they_hold(bars, n - 1, i);
        assert(events(bars, n) == with_events_at(events(bars, n - 1), bars, n - 1));
    } else {
        reveal(tally::among);
    }
}

/// Steps between neighbouring opens fit a millisecond count.
pub open spec fn steps_fit(bars: Seq<S10Bar>) -> bool {
    forall|i: int| 0 < i < bars.len() ==> i64::MIN <= #[trigger] step(bars, i) <= i64::MAX
}

/// Which findings a bar has.
struct BarFlags {
    seam: bool,
    broken: bool,
    misaligned: bool,
    off_grid: bool,
    gap: bool,
}

fn note_when(samples: &mut Vec<S10Event>, room: usize, b: bool, e: S10Event, Ghost(s): Ghost<Seq<S10Event>>)
    requires
        old(samples)@ == tally::capped(s, room as int),
    ensures
        final(samples)@ == tally::capped(s + tally::when(b, e), room as int),
{
    if b && samples.len() < room {
        samples.push(e);
    }
    assert(samples@ =~= tally::capped(s + tally::when(b, e), room as int));
}

fn scan_bar(bars: &Vec<S10Bar>, i: usize, room: usize, samples: &mut Vec<S10Event>) -> (f: BarFlags)
    requires
        i < bars.len(),
        steps_fit(bars@),
        old(samples)@ == tally::capped(events(bars@, i as int), room as int),
    ensures
        final(samples)@ == tally::capped(events(bars@, i + 1), room as int),
        f.seam == seam_at(bars@)(i as int),
        f.broken == broken_at(bars@)(i as int),
        f.misaligned == misaligned_at(bars@)(i as int),
        f.off_grid == off_grid_at(bars@)(i as int),
        f.gap == gap_at(bars@)(i as int),
{
    let bar = &bars[i];
    let ghost at = i as int;
    assert(at > 0 ==> i64::MIN <= step(bars@, at) <= i64::MAX);
    let boundary = if i > 0 {
        classify_s10_open_delta(bars[i - 1].open_ms, bar.open_ms)
    } else {
        S10Boundary::NonAdvancing
    };
    let seam = i > 0 && bar.opens_shard && seam_violated(bars[i - 1].close_ms, bar.close_ms)
        && bar.open_ms - bars[i - 1].open_ms == S10_BUCKET_MS;
    let ghost e0 = events(bars@, at);
    note_when(samples, room, seam, S10Event::Seam { at: i }, Ghost(e0));
    let prev = if i > 0 {
        Some(bars[i - 1].close_ms)
    } else {
        None
    };
    let found = check_bar(bar, prev);
    let ghost e1 = e0 + tally::when(seam, S10Event::Seam { at: i });
    let defect = match found {
        Some(defect) => defect,
        None => BarDefect::NonFinite,
    };
    let broken = found.is_some();
    note_when(samples, room, broken, S10Event::Broken { at: i, defect }, Ghost(e1));
    let ghost e2 = e1 + tally::when(broken, S10Event::Broken { at: i, defect });
    let rest = grid_rest(bar.open_ms);
    let misaligned = rest > GRID_TOL_MS && rest < S10_BUCKET_MS - GRID_TOL_MS;
    note_when(samples, room, misaligned, S10Event::Misaligned { at: i }, Ghost(e2));
    let ghost e3 = e2 + tally::when(misaligned, S10Event::Misaligned { at: i });
    let off_grid = boundary == S10Boundary::OffGrid;
    note_when(samples, room, off_grid, S10Event::OffGrid { at: i }, Ghost(e3));
    assert(events(bars@, at + 1) == with_events_at(e0, bars@, at));
    BarFlags { seam, broken, misaligned, off_grid, gap: boundary == S10Boundary::Gap }
}

/// Checks the bars of a window, shards joined in date order. `room` bounds the
/// number of findings kept.
pub fn scan_s10(bars: &Vec<S10Bar>, room: usize) -> (t: S10Tally)
    requires
        steps_fit(bars@),
    ensures
        ({
            let n = bars.len() as int;
            &&& t.bars == n
            &&& t.violations == tally::count(n, broken_at(bars@))
            &&& t.misaligned == tally::count(n, misaligned_at(bars@))
            &&& t.off_grid == tally::count(n, off_grid_at(bars@))
            &&& t.seams == tally::count(n, seam_at(bars@))
            &&& t.gaps == tally::count(n, gap_at(bars@))
            &&& t.samples@ == tally::capped(events(bars@, n), room as int)
        }),
{
    let mut violations: u64 = 0;
    let mut misaligned: u64 = 0;
    let mut off_grid: u64 = 0;
    let mut seams: u64 = 0;
    let mut gaps: u64 = 0;
    let mut samples: Vec<S10Event> = Vec::new();
    let mut i: usize = 0;
    assert(tally::capped(events(bars@, 0), room as int) =~= Seq::<S10Event>::empty());
    while i < bars.len()
        invariant
            i <= bars.len(),
            steps_fit(bars@),
            violations == tally::count(i as int, broken_at(bars@)),
            misaligned == tally::count(i as int, misaligned_at(bars@)),
            off_grid == tally::count(i as int, off_grid_at(bars@)),
            seams == tally::count(i as int, seam_at(bars@)),
            gaps == tally::count(i as int, gap_at(bars@)),
            violations <= i,
            misaligned <= i,
            off_grid <= i,
            seams <= i,
            gaps <= i,
            samples@ == tally::capped(events(bars@, i as int), room as int),
        decreases bars.len() - i,
    {
        let f = scan_bar(bars, i, room, &mut samples);
        if f.seam {
            seams = seams + 1;
        }
        if f.broken {
            violations = violations + 1;
        }
        if f.misaligned {
            misaligned = misaligned + 1;
        }
        if f.off_grid {
            off_grid = off_grid + 1;
        }
        if f.gap {
            gaps = gaps + 1;
        }
        i = i + 1;
    }
    S10Tally {
        bars: bars.len() as u64,
        violations,
        misaligned,
        off_grid,
        seams,
        gaps,
        samples,
    }
}

/// Bars a full day holds.
pub const BARS_PER_DAY: u64 = 8640;

/// How full the days of a window are.
#[derive(Clone, Copy, Debug, PartialEq, Eq, Structural)]
pub enum Coverage {
    /// No bars at all.
    Unknown,
    /// Below half of the bars expected.
    Fail,
    /// Below four fifths.
    Warn,
    Full,
}

pub open spec fn coverage_of(bars: int, days: int) -> Coverage {
    if days == 0 {
        Coverage::Unknown
    } else if 10 * bars < 5 * (BARS_PER_DAY * days) {
        Coverage::Fail
    } else if 10 * bars < 8 * (BARS_PER_DAY * days) {
        Coverage::Warn
    } else {
        Coverage::Full
    }
}

/// Days are full from four fifths of six bars a minute on, and fail below half of them.
pub proof fn coverage_is_measured_in_bars_a_day(bars: int, days: int)
    requires
        bars >= 0,
        days > 0,
    ensures
        coverage_of(bars, days) == Coverage::Full <==> 5 * bars >= 4 * (8_640 * days),
        coverage_of(bars, days) == Coverage::Fail <==> 2 * bars < 8_640 * days,
        coverage_of(bars, days) != Coverage::Unknown,
        coverage_of(bars, 0) == Coverage::Unknown,
{
}

/// Epoch day of each bar's open.
pub open spec fn open_days(bars: Seq<S10Bar>) -> Seq<i64> {
    Seq::new(bars.len(), |i: int| (bars[i].open_ms as int / 86_400_000) as i64)
}

/// Mean bars per day against the bars a full day holds. Also gives the number
/// of days that have any.
pub fn s10_coverage(bars: &Vec<S10Bar>) -> (r: (Coverage, u64))
    ensures
        r.0 == coverage_of(bars.len() as int, r.1 as int),
        exists|counts: Seq<(i64, u64)>| #[trigger]
            tally::counts_keys(open_days(bars@), bars.len() as int, counts) && counts.len() == r.1,
{
    let mut days: Vec<i64> = Vec::new();
    let mut i: usize = 0;
    while i < bars.len()
        invariant
            i <= bars.len(),
            days@ == open_days(bars@).take(i as int),
        decreases bars.len() - i,
    {
        let day = match bars[i].open_ms.checked_div_euclid(86_400_000) {
            Some(day) => day,
            None => 0,
        };
        days.push(day);
        i = i + 1;
    }
    assert(days@ == open_days(bars@));
    let counts = tally::count_keys(&days);
    let n: u128 = counts.len() as u128;
    let total: u128 = bars.len() as u128;
    let full: u128 = 8640 * n;
    let level = if n == 0 {
        Coverage::Unknown
    } else if 10 * total < 5 * full {
        Coverage::Fail
    } else if 10 * total < 8 * full {
        Coverage::Warn
    } else {
        Coverage::Full
    };
    (level, counts.len() as u64)
}

/// A bar whose range counts towards a day's high and low.
pub open spec fn usable_range(bar: S10Bar) -> bool {
    bar.high.finite() && bar.low.finite() && bar.low.positive() && bar.high.positive()
}

/// Largest finite value.
pub const MAX_FINITE: u64 = 0x7fef_ffff_ffff_ffff;

/// `hi` is the highest high and `lo` the lowest low among the usable bars.
pub open spec fn spans_bars(bars: Seq<S10Bar>, hi: Double, lo: Double) -> bool {
    &&& exists|i: int| 0 <= i < bars.len() && usable_range(#[trigger] bars[i]) && bars[i].high == hi
    &&& exists|i: int| 0 <= i < bars.len() && usable_range(#[trigger] bars[i]) && bars[i].low == lo
    &&& forall|i: int|
        0 <= i < bars.len() && usable_range(#[trigger] bars[i]) ==> bars[i].high.at_most(hi)
            && lo.at_most(bars[i].low)
}

/// High and low of a day's bars, when some bar is usable, the high is not below
/// the low, and the low is a price at all.
pub fn day_range(bars: &Vec<S10Bar>) -> (r: Option<(Double, Double)>)
    ensures
        r matches Some((hi, lo)) ==> spans_bars(bars@, hi, lo) && lo.at_most(hi) && lo.bits
            != MAX_FINITE,
        r is None ==> forall|hi: Double, lo: Double| #[trigger]
            spans_bars(bars@, hi, lo) ==> hi.below(lo) || lo.bits == MAX_FINITE,
{
    let mut best: Option<(Double, Double)> = None;
    let mut i: usize = 0;
    while i < bars.len()
        invariant
            i <= bars.len(),
            best is None ==> forall|k: int| 0 <= k < i ==> !usable_range(#[trigger] bars@[k]),
            best matches Some((hi, lo)) ==> spans_bars(bars@.take(i as int), hi, lo) && hi.positive() && lo.positive(),
        decreases bars.len() - i,
    {
        let bar = &bars[i];
        let ghost head = bars@.take(i as int);
        let ghost grown = bars@.take(i + 1);
        if bar.high.is_finite() && bar.low.is_finite() && bar.low.is_positive()
            && bar.high.is_positive() {
            let (hi, lo) = match best {
                None => (bar.high, bar.low),
                Some((hi, lo)) => (
                    if hi.lt(bar.high) {
                        bar.high
                    } else {
                        hi
                    },
                    if bar.low.lt(lo) {
                        bar.low
                    } else {
                        lo
                    },
                ),
            };
            proof {
                assert(usable_range(grown[i as int]));
                if let Some((h0, l0)) = best {
                    let a = choose|a: int| 0 <= a < head.len() && usable_range(#[trigger] head[a]) && head[a].high == h0;
                    let b = choose|b: int| 0 <= b < head.len() && usable_range(#[trigger] head[b]) && head[b].low == l0;
                    assert(usable_range(grown[a]) && grown[a].high == h0);
                    assert(usable_range(grown[b]) && grown[b].low == l0);
                }
                assert forall|k: int| 0 <= k < grown.len() && usable_range(#[trigger] grown[k]) implies grown[k].high.at_most(hi) && lo.at_most(grown[k].low) by {
                    if k < i {
                        assert(grown[k] == bars@[k]);
                        assert(best is Some ==> head[k] == bars@[k]);
                    }
                }
            }
            best = Some((hi, lo));
        } else {
            proof {
                assert(!usable_range(bars@[i as int]));
                if let Some((h0, l0)) = best {
                    let a = choose|a: int| 0 <= a < head.len() && usable_range(#[trigger] head[a]) && head[a].high == h0;
                    let b = choose|b: int| 0 <= b < head.len() && usable_range(#[trigger] head[b]) && head[b].low == l0;
                    assert(usable_range(grown[a]) && grown[a].high == h0);
                    assert(usable_range(grown[b]) && grown[b].low == l0);
                    assert forall|k: int| 0 <= k < grown.len() && usable_range(#[trigger] grown[k]) implies grown[k].high.at_most(h0) && l0.at_most(grown[k].low) by {
                        assert(grown[k] == bars@[k]);
                        assert(head[k] == bars@[k]);
                    }
                }
            }
        }
        i = i + 1;
    }
    proof {
        assert(bars@.take(bars.len() as int) =~= bars@);
    }
    match best {
        Some((hi, lo)) if lo.le(hi) && lo.bits != MAX_FINITE => Some((hi, lo)),
        _ => {
            proof {
                assert forall|hi: Double, lo: Double| #[trigger] spans_bars(bars@, hi, lo) implies hi.below(lo) || lo.bits == MAX_FINITE by {
                    match best {
                        None => {
                            let a = choose|a: int| 0 <= a < bars@.len() && usable_range(#[trigger] bars@[a]) && bars@[a].high == hi;
                            assert(false);
                        },
                        Some((h0, l0)) => {
                            lemma_span_unique(bars@, hi, lo, h0, l0);
                        },
                    }
                }
            }
            None
        },
    }
}

proof fn lemma_span_unique(bars: Seq<S10Bar>, hi: Double, lo: Double, h0: Double, l0: Double)
    requires
        spans_bars(bars, hi, lo),
        spans_bars(bars, h0, l0),
    ensures
        hi == h0,
        lo == l0,
{
    let a = choose|a: int| 0 <= a < bars.len() && usable_range(#[trigger] bars[a]) && bars[a].high == hi;
    let b = choose|b: int| 0 <= b < bars.len() && usable_range(#[trigger] bars[b]) && bars[b].low == lo;
    let c = choose|c: int| 0 <= c < bars.len() && usable_range(#[trigger] bars[c]) && bars[c].high == h0;
    let d = choose|d: int| 0 <= d < bars.len() && usable_range(#[trigger] bars[d]) && bars[d].low == l0;
    assert(bars[a].high.at_most(h0));
    assert(bars[c].high.at_most(hi));
    assert(l0.at_most(bars[b].low));
    assert(lo.at_most(bars[d].low));
}

/// A bar of any timeframe, with the volumes a roll-up has to conserve.
#[derive(Clone, Copy, Debug)]
pub struct Ohlc {
    pub ts: i64,
    pub close_ts: i64,
    pub open: Double,
    pub high: Double,
    pub low: Double,
    pub close: Double,
    pub vbid: u64,
    pub vask: u64,
    pub tick_count: u32,
}

/// What is wrong with a rolled-up bar.
#[derive(Clone, Copy, Debug, PartialEq, Eq, Structural)]
pub enum RollupDefect {
    NonFinite,
    HighBelowLow,
    HighBelowBody,
    LowAboveBody,
    Unaligned,
    Ticks,
    BidVolume,
    AskVolume,
    Confidence,
    /// No source bar maps into the bucket.
    Phantom,
}

/// Start of the bucket that holds `ts`.
pub open spec fn bucket_start(ts: i64, tf_ms: i64) -> int {
    ts as int / tf_ms as int * tf_ms
}

/// A source bar counts, whole, in the bucket of its open and in that of its close.
pub open spec fn touches(src: Seq<Ohlc>, tf_ms: i64, bucket: i64) -> spec_fn(int) -> bool {
    |i: int|
        bucket_start(src[i].ts, tf_ms) == bucket || bucket_start(src[i].close_ts, tf_ms) == bucket
}

pub open spec fn ticks_in(src: Seq<Ohlc>, tf_ms: i64, bucket: i64) -> spec_fn(int) -> int {
    |i: int|
        if touches(src, tf_ms, bucket)(i) {
            src[i].tick_count as int
        } else {
            0
        }
}

pub open spec fn vbid_in(src: Seq<Ohlc>, tf_ms: i64, bucket: i64) -> spec_fn(int) -> int {
    |i: int|
        if touches(src, tf_ms, bucket)(i) {
            src[i].vbid as int
        } else {
            0
        }
}

pub open spec fn vask_in(src: Seq<Ohlc>, tf_ms: i64, bucket: i64) -> spec_fn(int) -> int {
    |i: int|
        if touches(src, tf_ms, bucket)(i) {
            src[i].vask as int
        } else {
            0
        }
}

/// The first defect of a rolled-up bar. `ci_off` says that its mean confidence
/// interval differs from the tick-weighted mean of its source bars.
pub open spec fn rollup_defect(
    src: Seq<Ohlc>,
    tf_ms: i64,
    bar: Ohlc,
    ci_off: bool,
) -> Option<RollupDefect> {
    let n = src.len() as int;
    let ticks = tally::total(n, ticks_in(src, tf_ms, bar.ts));
    if !(bar.open.finite() && bar.high.finite() && bar.low.finite() && bar.close.finite()) {
        Some(RollupDefect::NonFinite)
    } else if bar.high.below(bar.low) {
        Some(RollupDefect::HighBelowLow)
    } else if bar.high.below(bar.open) || bar.high.below(bar.close) {
        Some(RollupDefect::HighBelowBody)
    } else if bar.open.below(bar.low) || bar.close.below(bar.low) {
        Some(RollupDefect::LowAboveBody)
    } else if bar.ts as int % tf_ms as int != 0 {
        Some(RollupDefect::Unaligned)
    } else if tally::count(n, touches(src, tf_ms, bar.ts)) == 0 {
        Some(RollupDefect::Phantom)
    } else if ticks != bar.tick_count {
        Some(RollupDefect::Ticks)
    } else if tally::total(n, vbid_in(src, tf_ms, bar.ts)) != bar.vbid {
        Some(RollupDefect::BidVolume)
    } else if tally::total(n, vask_in(src, tf_ms, bar.ts)) != bar.vask {
        Some(RollupDefect::AskVolume)
    } else if ticks > 0 && ci_off {
        Some(RollupDefect::Confidence)
    } else {
        None
    }
}

/// A rolled-up bar has no defect exactly if its prices are finite and enclosed by its
/// low and high, it stands on its grid, some source bar belongs to it, and it conserves
/// the ticks and both volumes of the source bars that do; and, where there are ticks,
/// its confidence is theirs.
pub proof fn sound_rollups_conserve_their_source(
    src: Seq<Ohlc>,
    tf_ms: i64,
    bar: Ohlc,
    ci_off: bool,
)
    requires
        tf_ms > 0,
    ensures
        ({
            let n = src.len() as int;
            rollup_defect(src, tf_ms, bar, ci_off) is None <==> {
                &&& bar.open.finite() && bar.high.finite() && bar.low.finite() && bar.close.finite()
                &&& bar.low.at_most(bar.open) && bar.open.at_most(bar.high)
                &&& bar.low.at_most(bar.close) && bar.close.at_most(bar.high)
                &&& bar.ts as int % tf_ms as int == 0
                &&& exists|i: int| 0 <= i < n && #[trigger] touches(src, tf_ms, bar.ts)(i)
                &&& bar.tick_count == tally::total(n, ticks_in(src, tf_ms, bar.ts))
                &&& bar.vbid == tally::total(n, vbid_in(src, tf_ms, bar.ts))
                &&& bar.vask == tally::total(n, vask_in(src, tf_ms, bar.ts))
                &&& bar.tick_count > 0 ==> !ci_off
            }
        }),
{
    tally::lemma_count_zero(src.len() as int, touches(src, tf_ms, bar.ts));
}

/// A source bar belongs to a bucket exactly if it opens or closes within it, and then
/// counts with all its ticks and volumes.
pub proof fn source_bars_count_where_they_open_or_close(
    src: Seq<Ohlc>,
    tf_ms: i64,
    bucket: i64,
    i: int,
)
    requires
        tf_ms > 0,
        bucket as int % tf_ms as int == 0,
    ensures
        touches(src, tf_ms, bucket)(i) <==> bucket <= src[i].ts < bucket + tf_ms || bucket
            <= src[i].close_ts < bucket + tf_ms,
        touches(src, tf_ms, bucket)(i) ==> ticks_in(src, tf_ms, bucket)(i) == src[i].tick_count
            && vbid_in(src, tf_ms, bucket)(i) == src[i].vbid && vask_in(src, tf_ms, bucket)(i)
            == src[i].vask,
        !touches(src, tf_ms, bucket)(i) ==> ticks_in(src, tf_ms, bucket)(i) == 0 && vbid_in(
            src,
            tf_ms,
            bucket,
        )(i) == 0 && vask_in(src, tf_ms, bucket)(i) == 0,
{
    lemma_bucket_holds(src[i].ts, tf_ms, bucket);
    lemma_bucket_holds(src[i].close_ts, tf_ms, bucket);
}

proof fn lemma_bucket_holds(ts: i64, tf_ms: i64, bucket: i64)
    requires
        tf_ms > 0,
        bucket as int % tf_ms as int == 0,
    ensures
        bucket_start(ts, tf_ms) == bucket <==> bucket <= ts < bucket + tf_ms,
{
    let w = tf_ms as int;
    let q = ts as int / w;
    let k = bucket as int / w;
    vstd::arithmetic::div_mod::lemma_fundamental_div_mod(ts as int, w);
    vstd::arithmetic::div_mod::lemma_mod_bound(ts as int, w);
    vstd::arithmetic::div_mod::lemma_fundamental_div_mod(bucket as int, w);
    assert(w * q == q * w && w * k == k * w) by (nonlinear_arith);
    if bucket <= ts < bucket + tf_ms {
        assert(k == q) by (nonlinear_arith)
            requires
                w > 0,
                w * k <= ts < w * k + w,
                w * q <= ts < w * q + w,
        ;
    }
}

fn in_bucket(ts: i64, tf_ms: i64, bucket: i64) -> (b: bool)
    requires
        tf_ms > 0,
    ensures
        b == (bucket_start(ts, tf_ms) == bucket),
{
    let rest = match ts.checked_rem_euclid(tf_ms) {
        Some(rest) => rest,
        None => 0,
    };
    proof {
        vstd::arithmetic::div_mod::lemma_fundamental_div_mod(ts as int, tf_ms as int);
        assert(tf_ms as int * (ts as int / tf_ms as int) == ts as int / tf_ms as int * tf_ms)
            by (nonlinear_arith);
    }
    ts as i128 - rest as i128 == bucket as i128
}

pub(crate) struct BucketSums {
    pub(crate) sources: u64,
    pub(crate) ticks: u128,
    pub(crate) vbid: u128,
    pub(crate) vask: u128,
}

pub(crate) fn bucket_sums(src: &Vec<Ohlc>, tf_ms: i64, bucket: i64) -> (s: BucketSums)
    requires
        tf_ms > 0,
    ensures
        ({
            let n = src.len() as int;
            &&& s.sources == tally::count(n, touches(src@, tf_ms, bucket))
            &&& s.ticks == tally::total(n, ticks_in(src@, tf_ms, bucket))
            &&& s.vbid == tally::total(n, vbid_in(src@, tf_ms, bucket))
            &&& s.vask == tally::total(n, vask_in(src@, tf_ms, bucket))
        }),
{
    let mut s = BucketSums { sources: 0, ticks: 0, vbid: 0, vask: 0 };
    let mut i: usize = 0;
    while i < src.len()
        invariant
            i <= src.len(),
            tf_ms > 0,
            s.sources == tally::count(i as int, touches(src@, tf_ms, bucket)),
            s.ticks == tally::total(i as int, ticks_in(src@, tf_ms, bucket)),
            s.vbid == tally::total(i as int, vbid_in(src@, tf_ms, bucket)),
            s.vask == tally::total(i as int, vask_in(src@, tf_ms, bucket)),
            s.sources <= i,
            s.ticks <= i * 0xffff_ffff_ffff_ffff,
            s.vbid <= i * 0xffff_ffff_ffff_ffff,
            s.vask <= i * 0xffff_ffff_ffff_ffff,
        decreases src.len() - i,
    {
        let b = &src[i];
        if in_bucket(b.ts, tf_ms, bucket) || in_bucket(b.close_ts, tf_ms, bucket) {
            s.sources = s.sources + 1;
            s.ticks = s.ticks + b.tick_count as u128;
            s.vbid = s.vbid + b.vbid as u128;
            s.vask = s.vask + b.vask as u128;
        }
        i = i + 1;
    }
    s
}

fn check_rolled(src: &Vec<Ohlc>, tf_ms: i64, bar: &Ohlc, ci_off: bool) -> (d: Option<RollupDefect>)
    requires
        tf_ms > 0,
    ensures
        d == rollup_defect(src@, tf_ms, *bar, ci_off),
{
    if !(bar.open.is_finite() && bar.high.is_finite() && bar.low.is_finite()
        && bar.close.is_finite()) {
        return Some(RollupDefect::NonFinite);
    }
    if bar.high.lt(bar.low) {
        return Some(RollupDefect::HighBelowLow);
    }
    if bar.high.lt(bar.open) || bar.high.lt(bar.close) {
        return Some(RollupDefect::HighBelowBody);
    }
    if bar.open.lt(bar.low) || bar.close.lt(bar.low) {
        return Some(RollupDefect::LowAboveBody);
    }
    let rest = match bar.ts.checked_rem_euclid(tf_ms) {
        Some(rest) => rest,
        None => 0,
    };
    if rest != 0 {
        return Some(RollupDefect::Unaligned);
    }
    let s = bucket_sums(src, tf_ms, bar.ts);
    if s.sources == 0 {
        Some(RollupDefect::Phantom)
    } else if s.ticks != bar.tick_count as u128 {
        Some(RollupDefect::Ticks)
    } else if s.vbid != bar.vbid as u128 {
        Some(RollupDefect::BidVolume)
    } else if s.vask != bar.vask as u128 {
        Some(RollupDefect::AskVolume)
    } else if s.ticks > 0 && ci_off {
        Some(RollupDefect::Confidence)
    } else {
        None
    }
}

pub open spec fn rolled_badly(src: Seq<Ohlc>, tf_ms: i64, rolled: Seq<Ohlc>, ci_off: Seq<bool>) -> spec_fn(int) -> bool {
    |i: int| rollup_defect(src, tf_ms, rolled[i], ci_off[i]) is Some
}

pub open spec fn rollup_findings(
    src: Seq<Ohlc>,
    tf_ms: i64,
    rolled: Seq<Ohlc>,
    ci_off: Seq<bool>,
    n: int,
) -> Seq<(usize, RollupDefect)> {
    tally::hits(n, rolled_badly(src, tf_ms, rolled, ci_off)).map_values(
        |i: int| (i as usize, rollup_defect(src, tf_ms, rolled[i], ci_off[i])->Some_0),
    )
}

/// Holds a rolled-up series against the bars it was rolled from: each bar is
/// sane and aligned, and conserves ticks and volumes of its bucket.
pub fn check_rollup_parity(
    src: &Vec<Ohlc>,
    rolled: &Vec<Ohlc>,
    ci_off: &Vec<bool>,
    dst_tf_ms: i64,
    room: usize,
) -> (r: (u64, Vec<(usize, RollupDefect)>))
    requires
        dst_tf_ms > 0,
        ci_off.len() == rolled.len(),
    ensures
        r.0 == tally::count(rolled.len() as int, rolled_badly(src@, dst_tf_ms, rolled@, ci_off@)),
        r.1@ == tally::capped(
            rollup_findings(src@, dst_tf_ms, rolled@, ci_off@, rolled.len() as int),
            room as int,
        ),
{
    let mut bad: u64 = 0;
    let mut samples: Vec<(usize, RollupDefect)> = Vec::new();
    let mut i: usize = 0;
    assert(tally::capped(rollup_findings(src@, dst_tf_ms, rolled@, ci_off@, 0), room as int)
        =~= Seq::<(usize, RollupDefect)>::empty());
    while i < rolled.len()
        invariant
            i <= rolled.len(),
            dst_tf_ms > 0,
            ci_off.len() == rolled.len(),
            bad == tally::count(i as int, rolled_badly(src@, dst_tf_ms, rolled@, ci_off@)),
            bad <= i,
            samples@ == tally::capped(
                rollup_findings(src@, dst_tf_ms, rolled@, ci_off@, i as int),
                room as int,
            ),
        decreases rolled.len() - i,
    {
        let found = check_rolled(src, dst_tf_ms, &rolled[i], ci_off[i]);
        let ghost was = rollup_findings(src@, dst_tf_ms, rolled@, ci_off@, i as int);
        let ghost grown = rollup_findings(src@, dst_tf_ms, rolled@, ci_off@, i + 1);
        if let Some(defect) = found {
            assert(grown =~= was.push((i, defect)));
            bad = bad + 1;
            if samples.len() < room {
                samples.push((i, defect));
            }
        } else {
            assert(grown =~= was);
        }
        assert(samples@ =~= tally::capped(grown, room as int));
        i = i + 1;
    }
    (bad, samples)
}

/// The shards that a roll-up over a day seam draws on: the newest, and before it
/// the newest that is at least a day older.
pub fn seam_shards(dates: &Vec<Date>) -> (r: (Option<usize>, Option<usize>))
    requires
        forall|i: int| 0 <= i < dates.len() ==> (#[trigger] dates@[i]).valid(),
    ensures
        r.1 == if dates.len() == 0 {
            None
        } else {
            Some((dates.len() - 1) as usize)
        },
        r.0 matches Some(k) ==> k + 1 < dates.len() && day_older(dates@, k as int),
        forall|j: int|
            0 <= j < dates.len() - 1 && (r.0 is None || r.0->Some_0 < j) ==> !#[trigger] day_older(dates@, j),
{
    let n: usize = dates.len();
    if n == 0 {
        return (None, None);
    }
    let mut k: usize = n - 1;
    while k > 0
        invariant
            k < n,
            n == dates.len(),
            forall|i: int| 0 <= i < dates.len() ==> (#[trigger] dates@[i]).valid(),
            forall|j: int| k <= j < n - 1 ==> !#[trigger] day_older(dates@, j),
        decreases k,
    {
        k = k - 1;
        if calendar::days_since(dates[n - 1], dates[k]) >= 1 {
            return (Some(k), Some(n - 1));
        }
    }
    (None, Some(n - 1))
}

/// Shard `k` is at least a day older than the newest.
pub open spec fn day_older(dates: Seq<Date>, k: int) -> bool {
    dates[dates.len() - 1].ordinal() - dates[k].ordinal() >= 1
}

} // verus!
