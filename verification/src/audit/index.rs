//! Checks on the index stream of a ticker.

use vstd::prelude::*;
use crate::bucket;
use crate::calendar;
use crate::calendar::Date;
use crate::hlc;
use crate::ieee::Double;
use crate::tally;

verus! {

/// One record of an index stream.
#[derive(Clone, Copy, Debug)]
pub struct IdxRow {
    pub ts_ms: i64,
    /// A heartbeat beacon, written while quotes are unchanged.
    pub sentinel: bool,
    /// `confidence` is a freshness byte, not a provider count.
    pub freshness: bool,
    pub confidence: u8,
    pub accepted: u8,
    pub rejected: u8,
    pub vbid: u32,
    pub vask: u32,
    pub bid: Double,
    pub ask: Double,
    /// Midpoint of `bid` and `ask`.
    pub mid: Double,
    /// Quoted spread in basis points; NaN unless both sides are positive and finite.
    pub spread_bps: Double,
}

/// Structural defect of a quote.
#[derive(Clone, Copy, Debug, PartialEq, Eq, Structural)]
pub enum Defect {
    NonFinite,
    BidNotPositive,
    AskNotPositive,
    BelowFloor,
    Crossed,
    ConfidenceAboveAccepted,
}

impl Defect {
    /// The defect in words.
    pub fn text(self) -> (s: &'static str)
        ensures
            s@ == match self {
                Defect::NonFinite => "bid/ask non-finite"@,
                Defect::BidNotPositive => "bid <= 0"@,
                Defect::AskNotPositive => "ask <= 0"@,
                Defect::BelowFloor => "bid/ask below price floor (denormal)"@,
                Defect::Crossed => "crossed quote (ask < bid)"@,
                Defect::ConfidenceAboveAccepted => "confidence > accepted"@,
            },
    {
        match self {
            Defect::NonFinite => "bid/ask non-finite",
            Defect::BidNotPositive => "bid <= 0",
            Defect::AskNotPositive => "ask <= 0",
            Defect::BelowFloor => "bid/ask below price floor (denormal)",
            Defect::Crossed => "crossed quote (ask < bid)",
            Defect::ConfidenceAboveAccepted => "confidence > accepted",
        }
    }
}

/// What the invariant chain says of one record.
#[derive(Clone, Copy, Debug, PartialEq, Eq, Structural)]
pub struct InvariantOutcome {
    /// A hard failure.
    pub reason: Option<Defect>,
    /// Sound, but built from stale components. Advisory.
    pub conf_stale: bool,
    /// Neither side has size. A metric, never a failure.
    pub zero_depth: bool,
    /// Exactly one side has size. A metric, never a failure.
    pub depth_one_sided: bool,
    /// More provider quotes rejected than accepted. Advisory.
    pub reject_dominant: bool,
    /// Sound, but wider than the class envelope. A metric, never a failure.
    pub spread_out_of_band: bool,
}

/// Asset-class bucket of a ticker.
#[derive(Clone, Copy, Debug, PartialEq, Eq, Structural)]
pub enum AssetClass {
    CryptoMajor,
    CryptoStable,
    FxMajor,
    CryptoAlt,
    CryptoCross,
    FxCross,
    Default,
}

/// Spread and jump envelope of an asset class.
#[derive(Clone, Copy, Debug, PartialEq, Eq, Structural)]
pub struct ClassBand {
    /// Widest plausible spread, in basis points.
    pub spread_ceiling_bps: Double,
    /// Largest plausible move of the mid per tick, as a fraction.
    pub jump_frac: Double,
}

/// The envelope of a class: tight for deep books, widest for unknown pairs.
pub open spec fn band_of(class: AssetClass) -> ClassBand {
    match class {
        // 150 bps, 5 %
        AssetClass::CryptoMajor => ClassBand {
            spread_ceiling_bps: Double { bits: 0x4062_c000_0000_0000 },
            jump_frac: Double { bits: 0x3fa9_9999_9999_999a },
        },
        // 100 bps, 2 %
        AssetClass::CryptoStable => ClassBand {
            spread_ceiling_bps: Double { bits: 0x4059_0000_0000_0000 },
            jump_frac: Double { bits: 0x3f94_7ae1_47ae_147b },
        },
        // 50 bps, 3 %
        AssetClass::FxMajor => ClassBand {
            spread_ceiling_bps: Double { bits: 0x4049_0000_0000_0000 },
            jump_frac: Double { bits: 0x3f9e_b851_eb85_1eb8 },
        },
        // 800 bps, 15 %
        AssetClass::CryptoAlt | AssetClass::CryptoCross => ClassBand {
            spread_ceiling_bps: Double { bits: 0x4089_0000_0000_0000 },
            jump_frac: Double { bits: 0x3fc3_3333_3333_3333 },
        },
        // 300 bps, 8 %
        AssetClass::FxCross => ClassBand {
            spread_ceiling_bps: Double { bits: 0x4072_c000_0000_0000 },
            jump_frac: Double { bits: 0x3fb4_7ae1_47ae_147b },
        },
        // 2000 bps, 25 %
        AssetClass::Default => ClassBand {
            spread_ceiling_bps: Double { bits: 0x409f_4000_0000_0000 },
            jump_frac: Double { bits: 0x3fd0_0000_0000_0000 },
        },
    }
}

/// The envelope of a class.
pub fn class_band(class: AssetClass) -> (band: ClassBand)
    ensures
        band == band_of(class),
{
    match class {
        AssetClass::CryptoMajor => ClassBand {
            spread_ceiling_bps: Double { bits: 0x4062_c000_0000_0000 },
            jump_frac: Double { bits: 0x3fa9_9999_9999_999a },
        },
        AssetClass::CryptoStable => ClassBand {
            spread_ceiling_bps: Double { bits: 0x4059_0000_0000_0000 },
            jump_frac: Double { bits: 0x3f94_7ae1_47ae_147b },
        },
        AssetClass::FxMajor => ClassBand {
            spread_ceiling_bps: Double { bits: 0x4049_0000_0000_0000 },
            jump_frac: Double { bits: 0x3f9e_b851_eb85_1eb8 },
        },
        AssetClass::CryptoAlt | AssetClass::CryptoCross => ClassBand {
            spread_ceiling_bps: Double { bits: 0x4089_0000_0000_0000 },
            jump_frac: Double { bits: 0x3fc3_3333_3333_3333 },
        },
        AssetClass::FxCross => ClassBand {
            spread_ceiling_bps: Double { bits: 0x4072_c000_0000_0000 },
            jump_frac: Double { bits: 0x3fb4_7ae1_47ae_147b },
        },
        AssetClass::Default => ClassBand {
            spread_ceiling_bps: Double { bits: 0x409f_4000_0000_0000 },
            jump_frac: Double { bits: 0x3fd0_0000_0000_0000 },
        },
    }
}

/// The first structural defect of a quote, if it has one. The provider-count
/// rule does not apply to freshness bytes, which exceed the count routinely.
pub open spec fn defect_of(
    bid: Double,
    ask: Double,
    freshness: bool,
    confidence: u8,
    accepted: u8,
    min_px: Double,
) -> Option<Defect> {
    if !bid.finite() || !ask.finite() {
        Some(Defect::NonFinite)
    } else if !bid.positive() {
        Some(Defect::BidNotPositive)
    } else if !ask.positive() {
        Some(Defect::AskNotPositive)
    } else if bid.below(min_px) || ask.below(min_px) {
        Some(Defect::BelowFloor)
    } else if ask.below(bid) {
        Some(Defect::Crossed)
    } else if !freshness && confidence > accepted {
        Some(Defect::ConfidenceAboveAccepted)
    } else {
        None
    }
}

/// A freshness byte stands for `byte / 255`; it is stale below five percent.
pub open spec fn stale_freshness(confidence: u8) -> bool {
    confidence * 100 < 5 * 255
}

pub open spec fn outcome_of(row: IdxRow, band: ClassBand, min_px: Double) -> InvariantOutcome {
    let reason = defect_of(
        row.bid,
        row.ask,
        row.freshness,
        row.confidence,
        row.accepted,
        min_px,
    );
    InvariantOutcome {
        reason,
        conf_stale: row.freshness && reason is None && stale_freshness(row.confidence),
        zero_depth: row.vbid == 0 && row.vask == 0,
        depth_one_sided: (row.vbid == 0) != (row.vask == 0),
        reject_dominant: row.rejected > row.accepted,
        spread_out_of_band: row.spread_bps.finite() && band.spread_ceiling_bps.below(row.spread_bps)
            && reason is None,
    }
}

/// Evaluates the invariant chain on one record.
pub fn eval_invariant(row: &IdxRow, band: ClassBand, min_px: Double) -> (o: InvariantOutcome)
    ensures
        o == outcome_of(*row, band, min_px),
{
    let reason = if !row.bid.is_finite() || !row.ask.is_finite() {
        Some(Defect::NonFinite)
    } else if !row.bid.is_positive() {
        Some(Defect::BidNotPositive)
    } else if !row.ask.is_positive() {
        Some(Defect::AskNotPositive)
    } else if row.bid.lt(min_px) || row.ask.lt(min_px) {
        Some(Defect::BelowFloor)
    } else if row.ask.lt(row.bid) {
        Some(Defect::Crossed)
    } else if !row.freshness && row.confidence > row.accepted {
        Some(Defect::ConfidenceAboveAccepted)
    } else {
        None
    };
    let sound = reason.is_none();
    InvariantOutcome {
        reason,
        conf_stale: row.freshness && sound && (row.confidence as u32) * 100 < 1275,
        zero_depth: row.vbid == 0 && row.vask == 0,
        depth_one_sided: (row.vbid == 0) != (row.vask == 0),
        reject_dominant: row.rejected > row.accepted,
        spread_out_of_band: row.spread_bps.is_finite() && band.spread_ceiling_bps.lt(row.spread_bps)
            && sound,
    }
}

/// Depth never fails a record: whether it has a defect does not depend on the
/// sizes quoted, nor on how many provider quotes were rejected.
pub proof fn depth_and_rejects_never_fail(a: IdxRow, b: IdxRow, band: ClassBand, min_px: Double)
    requires
        b == (IdxRow { vbid: b.vbid, vask: b.vask, rejected: b.rejected, ..a }),
    ensures
        outcome_of(a, band, min_px).reason == outcome_of(b, band, min_px).reason,
        outcome_of(a, band, min_px).conf_stale == outcome_of(b, band, min_px).conf_stale,
{
}

/// A record is sound exactly if both its prices are finite numbers above zero, none
/// below the least price and the ask not below the bid, and its confidence is a
/// freshness byte or at most the number of providers. A defect is named by the first of
/// these that fails, and only a sound record is held against freshness and spread.
pub proof fn sound_records_are_quotes_in_order(row: IdxRow, band: ClassBand, min_px: Double)
    ensures
        ({
            let o = outcome_of(row, band, min_px);
            let finite = row.bid.finite() && row.ask.finite();
            let positive = row.bid.positive() && row.ask.positive();
            let floored = !row.bid.below(min_px) && !row.ask.below(min_px);
            let ordered = row.bid.at_most(row.ask);
            &&& o.reason is None <==> finite && positive && floored && ordered && (row.freshness
                || row.confidence <= row.accepted)
            &&& o.reason == Some(Defect::NonFinite) <==> !finite
            &&& o.reason == Some(Defect::BidNotPositive) <==> finite && !row.bid.positive()
            &&& o.reason == Some(Defect::AskNotPositive) <==> finite && row.bid.positive()
                && !row.ask.positive()
            &&& o.reason == Some(Defect::BelowFloor) <==> finite && positive && !floored
            &&& o.reason == Some(Defect::Crossed) <==> finite && positive && floored && !ordered
            &&& o.reason is Some ==> !o.conf_stale && !o.spread_out_of_band
            &&& o.reason is None ==> (o.spread_out_of_band <==> row.spread_bps.finite()
                && band.spread_ceiling_bps.below(row.spread_bps))
            &&& o.reason is None && row.freshness ==> (o.conf_stale <==> row.confidence <= 12)
            &&& !row.freshness ==> !o.conf_stale
        }),
{
}

/// The rows in time order, rows of one instant in the order given.
pub open spec fn time_ordered(rows: Seq<IdxRow>, out: Seq<IdxRow>) -> bool {
    exists|order: Seq<usize>| #[trigger]
        tally::stable_order(row_times(rows), order) && out == picked(rows, order)
}

pub open spec fn row_times(rows: Seq<IdxRow>) -> Seq<i64> {
    Seq::new(rows.len(), |i: int| rows[i].ts_ms)
}

pub open spec fn picked<T>(items: Seq<T>, order: Seq<usize>) -> Seq<T> {
    Seq::new(order.len(), |i: int| items[order[i] as int])
}

/// Timestamps ascend.
pub open spec fn ascending(rows: Seq<IdxRow>) -> bool {
    forall|i: int, j: int|
        0 <= i <= j < rows.len() ==> (#[trigger] rows[i]).ts_ms <= (#[trigger] rows[j]).ts_ms
}

/// Sorts rows by time.
pub fn sort_rows(rows: &Vec<IdxRow>) -> (out: Vec<IdxRow>)
    ensures
        time_ordered(rows@, out@),
        ascending(out@),
        out.len() == rows.len(),
{
    let mut keys: Vec<i64> = Vec::new();
    let mut i: usize = 0;
    while i < rows.len()
        invariant
            i <= rows.len(),
            keys@ == row_times(rows@).take(i as int),
        decreases rows.len() - i,
    {
        keys.push(rows[i].ts_ms);
        i = i + 1;
    }
    assert(keys@ == row_times(rows@));
    let order = tally::stable_sort_order(&keys);
    let mut out: Vec<IdxRow> = Vec::new();
    let mut i: usize = 0;
    while i < order.len()
        invariant
            i <= order.len(),
            order.len() == rows.len(),
            tally::stable_order(row_times(rows@), order@),
            out@ == picked(rows@, order@).take(i as int),
        decreases order.len() - i,
    {
        out.push(rows[order[i]]);
        i = i + 1;
    }
    assert(out@ == picked(rows@, order@));
    assert forall|i: int, j: int| 0 <= i <= j < out.len() implies (#[trigger] out@[i]).ts_ms
        <= (#[trigger] out@[j]).ts_ms by {
        if i < j {
            let a = order@[i] as int;
            let b = order@[j] as int;
            assert(row_times(rows@)[a] <= row_times(rows@)[b]);
        }
    }
    out
}

/// How a suspect gap is read.
#[derive(Clone, Copy, Debug, PartialEq, Eq, Structural)]
pub enum GapKind {
    /// Excused by a sentinel, within tolerance.
    Quiet,
    Outage,
}

#[derive(Clone, Copy, Debug, PartialEq, Eq, Structural)]
pub struct GapRecord {
    pub start_ts: i64,
    pub end_ts: i64,
    pub dt_ms: i64,
    pub kind: GapKind,
}

/// Suspect gaps of a stream.
#[derive(Debug)]
pub struct GapReport {
    pub suspect: u64,
    pub quiet: u64,
    pub outage: u64,
    /// The ten longest, longest first, earlier first among equals.
    pub worst: Vec<GapRecord>,
}

/// Neighbouring timestamps are no further apart than a millisecond count can say.
pub open spec fn spans_fit(rows: Seq<IdxRow>) -> bool {
    forall|i: int| 0 < i < rows.len() ==> #[trigger] span(rows, i) <= i64::MAX
}

/// Time from row `i - 1` to row `i`.
pub open spec fn span(rows: Seq<IdxRow>, i: int) -> int {
    rows[i].ts_ms - rows[i - 1].ts_ms
}

pub open spec fn some_sentinel(rows: Seq<IdxRow>) -> bool {
    exists|i: int| 0 <= i < rows.len() && (#[trigger] rows[i]).sentinel
}

/// A gap lies between rows `i` and `i + 1`.
pub open spec fn gap_at(rows: Seq<IdxRow>, max_gap_ms: i64) -> spec_fn(int) -> bool {
    |i: int| rows[i + 1].ts_ms - rows[i].ts_ms > max_gap_ms
}

/// The gap after row `i`. It is quiet when a sentinel stands at one of its ends,
/// or no stream of this age has sentinels, and it is within tolerance.
pub open spec fn gap_after(rows: Seq<IdxRow>, i: int, quiet_tol_ms: i64) -> GapRecord {
    let dt = rows[i + 1].ts_ms - rows[i].ts_ms;
    GapRecord {
        start_ts: rows[i].ts_ms,
        end_ts: rows[i + 1].ts_ms,
        dt_ms: dt as i64,
        kind: if (rows[i].sentinel || rows[i + 1].sentinel || !some_sentinel(rows)) && dt
            <= quiet_tol_ms {
            GapKind::Quiet
        } else {
            GapKind::Outage
        },
    }
}

/// All suspect gaps, in time order.
pub open spec fn gaps_of(rows: Seq<IdxRow>, max_gap_ms: i64, quiet_tol_ms: i64) -> Seq<GapRecord> {
    tally::hits(rows.len() - 1, gap_at(rows, max_gap_ms)).map_values(gap_reader(rows, quiet_tol_ms))
}

pub open spec fn gap_reader(rows: Seq<IdxRow>, quiet_tol_ms: i64) -> spec_fn(int) -> GapRecord {
    |i: int| gap_after(rows, i, quiet_tol_ms)
}

pub open spec fn is_quiet(gaps: Seq<GapRecord>) -> spec_fn(int) -> bool {
    |i: int| gaps[i].kind == GapKind::Quiet
}

pub open spec fn is_outage(gaps: Seq<GapRecord>) -> spec_fn(int) -> bool {
    |i: int| gaps[i].kind == GapKind::Outage
}

/// `worst` is the head, ten at most, of `gaps` sorted by length, longest first.
pub open spec fn ten_longest(gaps: Seq<GapRecord>, worst: Seq<GapRecord>) -> bool {
    exists|order: Seq<usize>| #[trigger]
        tally::stable_order(negated_lengths(gaps), order) && worst == tally::capped(
            picked(gaps, order),
            10,
        )
}

/// A report counts the gaps of a stream and lists the longest.
pub open spec fn reports_gaps(
    rows: Seq<IdxRow>,
    max_gap_ms: i64,
    quiet_tol_ms: i64,
    r: GapReport,
) -> bool {
    let gaps = gaps_of(rows, max_gap_ms, quiet_tol_ms);
    &&& r.suspect == gaps.len()
    &&& r.quiet == tally::count(gaps.len() as int, is_quiet(gaps))
    &&& r.outage == tally::count(gaps.len() as int, is_outage(gaps))
    &&& ten_longest(gaps, r.worst@)
}

pub open spec fn negated_lengths(gaps: Seq<GapRecord>) -> Seq<i64> {
    Seq::new(gaps.len(), |i: int| (-gaps[i].dt_ms) as i64)
}

proof fn lemma_hits_step(rows: Seq<IdxRow>, max_gap_ms: i64, quiet_tol_ms: i64, i: int)
    requires
        i >= 0,
    ensures
        ({
            let p = gap_at(rows, max_gap_ms);
            let f = gap_reader(rows, quiet_tol_ms);
            let a = tally::hits(i, p).map_values(f);
            let b = tally::hits(i + 1, p).map_values(f);
            b == if p(i) {
                a.push(gap_after(rows, i, quiet_tol_ms))
            } else {
                a
            }
        }),
{
    let p = gap_at(rows, max_gap_ms);
    let f = gap_reader(rows, quiet_tol_ms);
    let a = tally::hits(i, p).map_values(f);
    if p(i) {
        assert(tally::hits(i + 1, p).map_values(f) =~= a.push(gap_after(rows, i, quiet_tol_ms)));
    }
}

proof fn lemma_kind_push(gaps: Seq<GapRecord>, g: GapRecord)
    ensures
        tally::count(gaps.push(g).len() as int, is_quiet(gaps.push(g))) == tally::count(
            gaps.len() as int,
            is_quiet(gaps),
        ) + if g.kind == GapKind::Quiet {
            1nat
        } else {
            0
        },
        tally::count(gaps.push(g).len() as int, is_outage(gaps.push(g))) == tally::count(
            gaps.len() as int,
            is_outage(gaps),
        ) + if g.kind == GapKind::Outage {
            1nat
        } else {
            0
        },
{
    let n = gaps.len() as int;
    tally::lemma_count_same(n, is_quiet(gaps), is_quiet(gaps.push(g)));
    tally::lemma_count_same(n, is_outage(gaps), is_outage(gaps.push(g)));
}

/// Finds and classifies every gap longer than `max_gap_ms` in a time-ordered
/// stream.
pub fn scan_gaps(rows: &Vec<IdxRow>, max_gap_ms: i64, quiet_tol_ms: i64) -> (r: GapReport)
    requires
        ascending(rows@),
        spans_fit(rows@),
    ensures
        reports_gaps(rows@, max_gap_ms, quiet_tol_ms, r),
{
    let mut any_sentinel = false;
    let mut i: usize = 0;
    while i < rows.len()
        invariant
            i <= rows.len(),
            any_sentinel <==> exists|k: int| 0 <= k < i && (#[trigger] rows@[k]).sentinel,
        decreases rows.len() - i,
    {
        if rows[i].sentinel {
            any_sentinel = true;
        }
        i = i + 1;
    }
    let ghost p = gap_at(rows@, max_gap_ms);
    let ghost f = gap_reader(rows@, quiet_tol_ms);
    let mut all: Vec<GapRecord> = Vec::new();
    let mut keys: Vec<i64> = Vec::new();
    let mut quiet: u64 = 0;
    let mut outage: u64 = 0;
    let mut i: usize = 1;
    assert(tally::hits(0, p).map_values(f) =~= Seq::<GapRecord>::empty());
    while i < rows.len()
        invariant
            1 <= i,
            rows.len() > 0 ==> i <= rows.len(),
            rows.len() == 0 ==> i == 1,
            ascending(rows@),
            spans_fit(rows@),
            any_sentinel == some_sentinel(rows@),
            p == gap_at(rows@, max_gap_ms),
            f == gap_reader(rows@, quiet_tol_ms),
            all@ == tally::hits(i - 1, p).map_values(f),
            keys@ == negated_lengths(all@),
            all.len() < i,
            quiet == tally::count(all.len() as int, is_quiet(all@)),
            outage == tally::count(all.len() as int, is_outage(all@)),
            quiet <= all.len(),
            outage <= all.len(),
            forall|k: int| 0 <= k < all.len() ==> (#[trigger] all@[k]).dt_ms >= 0,
        decreases rows.len() - i,
    {
        let a = &rows[i - 1];
        let b = &rows[i];
        assert(0 <= span(rows@, i as int) <= i64::MAX);
        let dt: i64 = b.ts_ms - a.ts_ms;
        proof {
            lemma_hits_step(rows@, max_gap_ms, quiet_tol_ms, i - 1);
        }
        if dt > max_gap_ms {
            let excused = a.sentinel || b.sentinel || !any_sentinel;
            let kind = if excused && dt <= quiet_tol_ms {
                quiet = quiet + 1;
                GapKind::Quiet
            } else {
                outage = outage + 1;
                GapKind::Outage
            };
            let gap = GapRecord { start_ts: a.ts_ms, end_ts: b.ts_ms, dt_ms: dt, kind };
            proof {
                lemma_kind_push(all@, gap);
            }
            all.push(gap);
            keys.push(-dt);
            assert(keys@ =~= negated_lengths(all@));
        }
        i = i + 1;
    }
    proof {
        if rows.len() == 0 {
            assert(gaps_of(rows@, max_gap_ms, quiet_tol_ms) =~= Seq::<GapRecord>::empty());
        }
        assert(all@ == gaps_of(rows@, max_gap_ms, quiet_tol_ms));
    }
    let order = tally::stable_sort_order(&keys);
    let mut worst: Vec<GapRecord> = Vec::new();
    let mut k: usize = 0;
    while k < order.len() && k < 10
        invariant
            k <= order.len(),
            k <= 10,
            order.len() == all.len(),
            tally::stable_order(negated_lengths(all@), order@),
            worst@ == picked(all@, order@).take(k as int),
        decreases order.len() - k,
    {
        worst.push(all[order[k]]);
        k = k + 1;
    }
    assert(worst@ =~= tally::capped(picked(all@, order@), 10));
    GapReport { suspect: all.len() as u64, quiet, outage, worst }
}

/// Every suspect gap is read as quiet or as an outage.
pub proof fn gaps_are_quiet_or_outage(gaps: Seq<GapRecord>)
    ensures
        tally::count(gaps.len() as int, is_quiet(gaps)) + tally::count(
            gaps.len() as int,
            is_outage(gaps),
        ) == gaps.len(),
{
    lemma_kinds_partition(gaps, gaps.len() as int);
}

/// The gap lies between row `i` and the next.
pub open spec fn lies_after(rows: Seq<IdxRow>, g: GapRecord, i: int) -> bool {
    &&& 0 <= i < rows.len() - 1
    &&& g.start_ts == rows[i].ts_ms
    &&& g.end_ts == rows[i + 1].ts_ms
}

/// Gaps lie between neighbouring rows that are further apart than allowed, and every
/// such pair has one. A gap longer than the tolerance is an outage; a gap within it is
/// quiet exactly if a beacon stands at one of its ends or the stream has none at all.
pub proof fn gaps_lie_between_distant_rows(rows: Seq<IdxRow>, max_gap_ms: i64, quiet_tol_ms: i64)
    requires
        spans_fit(rows),
        rows.len() > 0,
        max_gap_ms >= 0,
    ensures
        ({
            let gaps = gaps_of(rows, max_gap_ms, quiet_tol_ms);
            &&& forall|k: int|
                0 <= k < gaps.len() ==> {
                    let g = #[trigger] gaps[k];
                    &&& g.dt_ms == g.end_ts - g.start_ts
                    &&& g.dt_ms > max_gap_ms
                    &&& exists|i: int| #[trigger] lies_after(rows, g, i)
                    &&& g.dt_ms > quiet_tol_ms ==> g.kind == GapKind::Outage
                    &&& g.dt_ms <= quiet_tol_ms && !some_sentinel(rows) ==> g.kind == GapKind::Quiet
                    &&& g.dt_ms <= quiet_tol_ms && some_sentinel(rows) ==> exists|i: int| #[trigger]
                        lies_after(rows, g, i) && (g.kind == GapKind::Quiet <==> rows[i].sentinel
                            || rows[i + 1].sentinel)
                }
            &&& forall|i: int|
                0 <= i < rows.len() - 1 && (#[trigger] rows[i + 1]).ts_ms - rows[i].ts_ms
                    > max_gap_ms ==> exists|k: int|
                    0 <= k < gaps.len() && lies_after(rows, #[trigger] gaps[k], i)
        }),
{
    let n = rows.len() - 1;
    let p = gap_at(rows, max_gap_ms);
    let at = tally::hits(n, p);
    let gaps = gaps_of(rows, max_gap_ms, quiet_tol_ms);
    tally::lemma_hits(n, p);
    assert forall|k: int| 0 <= k < gaps.len() implies {
        let g = #[trigger] gaps[k];
        &&& g.dt_ms == g.end_ts - g.start_ts
        &&& g.dt_ms > max_gap_ms
        &&& exists|i: int| #[trigger] lies_after(rows, g, i)
        &&& g.dt_ms > quiet_tol_ms ==> g.kind == GapKind::Outage
        &&& g.dt_ms <= quiet_tol_ms && !some_sentinel(rows) ==> g.kind == GapKind::Quiet
        &&& g.dt_ms <= quiet_tol_ms && some_sentinel(rows) ==> exists|i: int| #[trigger]
            lies_after(rows, g, i) && (g.kind == GapKind::Quiet <==> rows[i].sentinel || rows[i
                + 1].sentinel)
    } by {
        let i = at[k];
        assert(p(i));
        assert(span(rows, i + 1) <= i64::MAX);
        assert(lies_after(rows, gaps[k], i));
    }
    assert forall|i: int|
        0 <= i < rows.len() - 1 && (#[trigger] rows[i + 1]).ts_ms - rows[i].ts_ms > max_gap_ms implies exists|
        k: int,
    |
        0 <= k < gaps.len() && lies_after(rows, #[trigger] gaps[k], i) by {
        assert(p(i));
        assert(at.contains(i));
        let k = choose|k: int| 0 <= k < at.len() && at[k] == i;
        assert(lies_after(rows, gaps[k], i));
    }
}

/// The worst gaps are ten, or all if there are fewer; they come longest first, and no
/// gap that is left out is longer than one of them.
pub proof fn worst_gaps_are_the_longest(gaps: Seq<GapRecord>, worst: Seq<GapRecord>)
    requires
        ten_longest(gaps, worst),
        gaps.len() <= usize::MAX,
        forall|k: int| 0 <= k < gaps.len() ==> (#[trigger] gaps[k]).dt_ms > i64::MIN,
    ensures
        worst.len() == if gaps.len() < 10 {
            gaps.len()
        } else {
            10
        },
        forall|i: int, j: int|
            0 <= i < j < worst.len() ==> (#[trigger] worst[i]).dt_ms >= (#[trigger] worst[j]).dt_ms,
        forall|i: int| 0 <= i < worst.len() ==> gaps.contains(#[trigger] worst[i]),
        forall|k: int|
            0 <= k < gaps.len() ==> worst.contains(#[trigger] gaps[k]) || forall|i: int|
                0 <= i < worst.len() ==> (#[trigger] worst[i]).dt_ms >= gaps[k].dt_ms,
{
    let order = choose|order: Seq<usize>| #[trigger]
        tally::stable_order(negated_lengths(gaps), order) && worst == tally::capped(
            picked(gaps, order),
            10,
        );
    let keys = negated_lengths(gaps);
    tally::lemma_stable_order_covers(keys, order);
    assert forall|i: int, j: int| 0 <= i < j < order.len() implies gaps[order[i] as int].dt_ms
        >= gaps[order[j] as int].dt_ms by {
        let a = order[i] as int;
        let b = order[j] as int;
        assert(keys[a] < keys[b] || (keys[a] == keys[b] && a < b));
    }
    assert forall|i: int| 0 <= i < worst.len() implies gaps.contains(#[trigger] worst[i]) by {
        assert(worst[i] == gaps[order[i] as int]);
    }
    assert forall|k: int| 0 <= k < gaps.len() implies worst.contains(#[trigger] gaps[k]) || forall|
        i: int,
    |
        0 <= i < worst.len() ==> (#[trigger] worst[i]).dt_ms >= gaps[k].dt_ms by {
        assert(order.contains(k as usize));
        let j = choose|j: int| 0 <= j < order.len() && order[j] == k as usize;
        if j < worst.len() {
            assert(worst[j] == gaps[k]);
        }
    }
}

proof fn lemma_kinds_partition(gaps: Seq<GapRecord>, n: int)
    requires
        0 <= n <= gaps.len(),
    ensures
        tally::count(n, is_quiet(gaps)) + tally::count(n, is_outage(gaps)) == n,
    decreases n,
{
    if n > 0 {
        lemma_kinds_partition(gaps, n - 1);
    }
}

/// The instant falls on a day of the calendar.
pub open spec fn in_calendar(ts_ms: i64) -> bool {
    calendar::first_ordinal() <= calendar::EPOCH_ORDINAL + ts_ms as int
        / calendar::MS_PER_DAY as int <= calendar::last_ordinal()
}

/// `d` is the day that holds `ts_ms`.
pub open spec fn day_of(ts_ms: i64, d: Date) -> bool {
    d.valid() && d.ordinal() == calendar::EPOCH_ORDINAL + ts_ms as int / calendar::MS_PER_DAY as int
}

/// The later of two dates.
pub open spec fn later_of(a: Date, b: Date) -> Date {
    if a.precedes(b) {
        b
    } else {
        a
    }
}

/// The earlier of two dates.
pub open spec fn earlier_of(a: Date, b: Date) -> Date {
    if b.precedes(a) {
        b
    } else {
        a
    }
}

/// The days of the first and of the last record.
pub open spec fn spans_days(rows: Seq<IdxRow>, first: Date, last: Date) -> bool {
    day_of(rows[0].ts_ms, first) && day_of(rows.last().ts_ms, last)
}

/// The days without a shard between the first and the last record of a stream,
/// within a window.
pub open spec fn misses(
    rows: Seq<IdxRow>,
    present: Seq<Date>,
    from: Date,
    to: Date,
    missing: Seq<Date>,
) -> bool {
    if rows.len() == 0 {
        missing.len() == 0
    } else {
        exists|first: Date, last: Date| #[trigger]
            spans_days(rows, first, last) && calendar::lists_missing(
                missing,
                present,
                later_of(first, from),
                earlier_of(last, to),
            )
    }
}

/// Whole days without a shard between the first and the last record of a
/// time-ordered stream, within the window.
pub fn missing_days(
    rows: &Vec<IdxRow>,
    present: &Vec<Date>,
    win_start: Date,
    win_end: Date,
) -> (missing: Vec<Date>)
    requires
        win_start.valid(),
        win_end.valid(),
        rows.len() > 0 ==> in_calendar(rows@[0].ts_ms) && in_calendar(rows@.last().ts_ms),
    ensures
        misses(rows@, present@, win_start, win_end, missing@),
{
    let n: usize = rows.len();
    if n == 0 {
        return Vec::new();
    }
    match (calendar::utc_date(rows[0].ts_ms), calendar::utc_date(rows[n - 1].ts_ms)) {
        (Some(first), Some(last)) => {
            let from = first.later(win_start);
            let to = last.earlier(win_end);
            assert(spans_days(rows@, first, last));
            calendar::missing_dates(present, from, to)
        },
        _ => Vec::new(),
    }
}

/// Days that a report lists.
pub const LISTED_DAYS: usize = 30;

/// The labels of the first days, as far as a report lists them.
pub fn day_labels(days: &Vec<Date>) -> (labels: Vec<String>)
    requires
        forall|i: int| 0 <= i < days.len() ==> (#[trigger] days@[i]).valid(),
    ensures
        labels.len() == if days.len() < LISTED_DAYS {
            days.len()
        } else {
            LISTED_DAYS
        },
        forall|i: int|
            0 <= i < labels.len() ==> (#[trigger] labels@[i])@ == calendar::label(days@[i]),
{
    let mut labels: Vec<String> = Vec::new();
    let mut i: usize = 0;
    while i < days.len() && i < LISTED_DAYS
        invariant
            i <= days.len(),
            i <= LISTED_DAYS,
            labels.len() == i,
            forall|k: int| 0 <= k < days.len() ==> (#[trigger] days@[k]).valid(),
            forall|k: int| 0 <= k < i ==> (#[trigger] labels@[k])@ == calendar::label(days@[k]),
        decreases days.len() - i,
    {
        assert(days@[i as int].valid());
        labels.push(days[i].to_label());
        i = i + 1;
    }
    labels
}

/// Totals of the invariant chain over a stream.
#[derive(Debug)]
pub struct InvariantTotals {
    pub violations: u64,
    /// Row and defect of the first ten violations.
    pub samples: Vec<(usize, Defect)>,
    pub conf_stale: u64,
    pub zero_depth: u64,
    pub one_sided: u64,
    pub reject_dominant: u64,
    pub accepted: u128,
    pub rejected: u128,
    /// More than half of the provider quotes were rejected.
    pub reject_rate_warn: bool,
}

/// Context of the invariant chain.
pub struct Rules {
    pub band: ClassBand,
    pub min_px: Double,
}

pub open spec fn row_outcome(rows: Seq<IdxRow>, rules: Rules, i: int) -> InvariantOutcome {
    outcome_of(rows[i], rules.band, rules.min_px)
}

pub open spec fn violates(rows: Seq<IdxRow>, rules: Rules) -> spec_fn(int) -> bool {
    |i: int| row_outcome(rows, rules, i).reason is Some
}

pub open spec fn is_stale(rows: Seq<IdxRow>, rules: Rules) -> spec_fn(int) -> bool {
    |i: int| row_outcome(rows, rules, i).conf_stale
}

/// Beacons carry no size and no provider tally: they are exempt.
pub open spec fn lacks_depth(rows: Seq<IdxRow>) -> spec_fn(int) -> bool {
    |i: int| !rows[i].sentinel && rows[i].vbid == 0 && rows[i].vask == 0
}

pub open spec fn has_one_side(rows: Seq<IdxRow>) -> spec_fn(int) -> bool {
    |i: int| !rows[i].sentinel && (rows[i].vbid == 0) != (rows[i].vask == 0)
}

pub open spec fn rejects_dominate(rows: Seq<IdxRow>) -> spec_fn(int) -> bool {
    |i: int| !rows[i].sentinel && rows[i].rejected > rows[i].accepted
}

pub open spec fn accepted_by(rows: Seq<IdxRow>) -> spec_fn(int) -> int {
    |i: int|
        if rows[i].sentinel {
            0
        } else {
            rows[i].accepted as int
        }
}

pub open spec fn rejected_by(rows: Seq<IdxRow>) -> spec_fn(int) -> int {
    |i: int|
        if rows[i].sentinel {
            0
        } else {
            rows[i].rejected as int
        }
}

pub open spec fn violation_samples(rows: Seq<IdxRow>, rules: Rules, n: int) -> Seq<(usize, Defect)> {
    tally::hits(n, violates(rows, rules)).map_values(
        |i: int| (i as usize, row_outcome(rows, rules, i).reason->Some_0),
    )
}

/// Totals of the invariant chain over a stream.
pub open spec fn totals_of(rows: Seq<IdxRow>, rules: Rules, t: InvariantTotals) -> bool {
    let n = rows.len() as int;
    &&& t.violations == tally::count(n, violates(rows, rules))
    &&& t.samples@ == tally::capped(violation_samples(rows, rules, n), 10)
    &&& t.conf_stale == tally::count(n, is_stale(rows, rules))
    &&& t.zero_depth == tally::count(n, lacks_depth(rows))
    &&& t.one_sided == tally::count(n, has_one_side(rows))
    &&& t.reject_dominant == tally::count(n, rejects_dominate(rows))
    &&& t.accepted == tally::total(n, accepted_by(rows))
    &&& t.rejected == tally::total(n, rejected_by(rows))
    &&& t.reject_rate_warn <==> 2 * t.rejected > t.accepted + t.rejected
}

/// A beacon counts for nothing but the invariants of its quote: it adds to none of the
/// counts of depth, sides and rejects, nor to the provider tallies.
pub proof fn beacons_are_exempt(rows: Seq<IdxRow>, beacon: IdxRow)
    requires
        beacon.sentinel,
    ensures
        ({
            let n = rows.len() as int;
            let all = rows.push(beacon);
            &&& tally::count(n + 1, lacks_depth(all)) == tally::count(n, lacks_depth(rows))
            &&& tally::count(n + 1, has_one_side(all)) == tally::count(n, has_one_side(rows))
            &&& tally::count(n + 1, rejects_dominate(all)) == tally::count(n, rejects_dominate(rows))
            &&& tally::total(n + 1, accepted_by(all)) == tally::total(n, accepted_by(rows))
            &&& tally::total(n + 1, rejected_by(all)) == tally::total(n, rejected_by(rows))
        }),
{
    let n = rows.len() as int;
    let all = rows.push(beacon);
    tally::lemma_count_same(n, lacks_depth(all), lacks_depth(rows));
    tally::lemma_count_same(n, has_one_side(all), has_one_side(rows));
    tally::lemma_count_same(n, rejects_dominate(all), rejects_dominate(rows));
    tally::lemma_total_same(n, accepted_by(all), accepted_by(rows));
    tally::lemma_total_same(n, rejected_by(all), rejected_by(rows));
}

/// Applies the invariant chain to every row.
pub fn check_invariants(rows: &Vec<IdxRow>, rules: &Rules) -> (t: InvariantTotals)
    ensures
        totals_of(rows@, *rules, t),
{
    let mut t = InvariantTotals {
        violations: 0,
        samples: Vec::new(),
        conf_stale: 0,
        zero_depth: 0,
        one_sided: 0,
        reject_dominant: 0,
        accepted: 0,
        rejected: 0,
        reject_rate_warn: false,
    };
    assert(violation_samples(rows@, *rules, 0) =~= Seq::<(usize, Defect)>::empty());
    let mut i: usize = 0;
    while i < rows.len()
        invariant
            i <= rows.len(),
            t.violations == tally::count(i as int, violates(rows@, *rules)),
            t.samples@ == tally::capped(violation_samples(rows@, *rules, i as int), 10),
            t.conf_stale == tally::count(i as int, is_stale(rows@, *rules)),
            t.zero_depth == tally::count(i as int, lacks_depth(rows@)),
            t.one_sided == tally::count(i as int, has_one_side(rows@)),
            t.reject_dominant == tally::count(i as int, rejects_dominate(rows@)),
            t.accepted == tally::total(i as int, accepted_by(rows@)),
            t.rejected == tally::total(i as int, rejected_by(rows@)),
            t.violations <= i,
            t.conf_stale <= i,
            t.zero_depth <= i,
            t.one_sided <= i,
            t.reject_dominant <= i,
            t.accepted <= 255 * i,
            t.rejected <= 255 * i,
        decreases rows.len() - i,
    {
        let row = &rows[i];
        let outcome = eval_invariant(row, rules.band, rules.min_px);
        let ghost n = i as int;
        let ghost all = violation_samples(rows@, *rules, n);
        proof {
            let grown = violation_samples(rows@, *rules, n + 1);
            if outcome.reason is Some {
                assert(grown =~= all.push((i, outcome.reason->Some_0)));
            } else {
                assert(grown =~= all);
            }
        }
        if outcome.conf_stale {
            t.conf_stale = t.conf_stale + 1;
        }
        if !row.sentinel {
            if outcome.zero_depth {
                t.zero_depth = t.zero_depth + 1;
            }
            if outcome.depth_one_sided {
                t.one_sided = t.one_sided + 1;
            }
            if outcome.reject_dominant {
                t.reject_dominant = t.reject_dominant + 1;
            }
            t.accepted = t.accepted + row.accepted as u128;
            t.rejected = t.rejected + row.rejected as u128;
        }
        if let Some(defect) = outcome.reason {
            t.violations = t.violations + 1;
            if t.samples.len() < 10 {
                t.samples.push((i, defect));
            }
        }
        proof {
            assert(t.samples@ =~= tally::capped(violation_samples(rows@, *rules, n + 1), 10));
        }
        i = i + 1;
    }
    t.reject_rate_warn = 2 * t.rejected > t.accepted + t.rejected;
    t
}

/// A row that enters the mid series: no beacon, with a positive finite mid.
pub open spec fn has_mid(rows: Seq<IdxRow>) -> spec_fn(int) -> bool {
    |i: int| !rows[i].sentinel && rows[i].mid.finite() && rows[i].mid.positive()
}

pub open spec fn mids_of(rows: Seq<IdxRow>, n: int) -> Seq<(i64, Double)> {
    tally::hits(n, has_mid(rows)).map_values(|i: int| (rows[i].ts_ms, rows[i].mid))
}

/// The mid series of a stream, beacons left out.
pub fn mid_series(rows: &Vec<IdxRow>) -> (mids: Vec<(i64, Double)>)
    ensures
        mids@ == mids_of(rows@, rows.len() as int),
{
    let mut mids: Vec<(i64, Double)> = Vec::new();
    assert(mids_of(rows@, 0) =~= Seq::<(i64, Double)>::empty());
    let mut i: usize = 0;
    while i < rows.len()
        invariant
            i <= rows.len(),
            mids@ == mids_of(rows@, i as int),
        decreases rows.len() - i,
    {
        let row = &rows[i];
        let ghost was = mids@;
        if !row.sentinel && row.mid.is_finite() && row.mid.is_positive() {
            mids.push((row.ts_ms, row.mid));
            assert(mids_of(rows@, i + 1) =~= was.push((row.ts_ms, row.mid)));
        } else {
            assert(mids_of(rows@, i + 1) =~= was);
        }
        i = i + 1;
    }
    mids
}

/// The mid does not move from `i` to `i + 1`.
pub open spec fn unmoved(mids: Seq<(i64, Double)>) -> spec_fn(int) -> bool {
    |i: int| mids[i].1.equals(mids[i + 1].1)
}

pub open spec fn is_zero(moves: Seq<Double>) -> spec_fn(int) -> bool {
    |i: int| moves[i].equals(Double { bits: 0 })
}

/// Zeros among the logarithmic moves of a series.
pub fn zero_returns(moves: &Vec<Double>) -> (zeros: u64)
    ensures
        zeros == tally::count(moves.len() as int, is_zero(moves@)),
        zeros <= moves.len(),
{
    let mut zeros: u64 = 0;
    let mut i: usize = 0;
    while i < moves.len()
        invariant
            i <= moves.len(),
            zeros == tally::count(i as int, is_zero(moves@)),
            zeros <= i,
        decreases moves.len() - i,
    {
        if moves[i].num_eq(Double::from_bits(0)) {
            zeros = zeros + 1;
        }
        i = i + 1;
    }
    zeros
}

/// The mids at `from..to` are all equal to their neighbours.
pub open spec fn flat(mids: Seq<(i64, Double)>, from: int, to: int) -> bool {
    forall|k: int| from <= k < to - 1 ==> #[trigger] unmoved(mids)(k)
}

/// `n` is the length of the longest flat stretch.
pub open spec fn longest_flat(mids: Seq<(i64, Double)>, n: int) -> bool {
    &&& exists|from: int, to: int|
        0 <= from <= to <= mids.len() && to - from == n && #[trigger] flat(mids, from, to)
    &&& forall|from: int, to: int|
        0 <= from <= to <= mids.len() && #[trigger] flat(mids, from, to) ==> to - from <= n
}

/// Longest run of identical consecutive mids.
pub fn longest_flat_run(mids: &Vec<(i64, Double)>) -> (n: u64)
    ensures
        longest_flat(mids@, n as int),
{
    let mut run: u64 = 0;
    let mut longest: u64 = 0;
    let mut i: usize = 0;
    let ghost mut at: (int, int) = (0, 0);
    assert(flat(mids@, 0, 0));
    while i < mids.len()
        invariant
            i <= mids.len(),
            run <= i,
            longest <= i,
            run <= longest,
            i > 0 ==> run > 0,
            flat(mids@, i - run, i as int),
            0 < run < i ==> !unmoved(mids@)(i - run - 1),
            0 <= at.0 <= at.1 <= i,
            at.1 - at.0 == longest,
            flat(mids@, at.0, at.1),
            forall|from: int, to: int|
                0 <= from <= to <= i && #[trigger] flat(mids@, from, to) ==> to - from <= longest,
        decreases mids.len() - i,
    {
        let same = i > 0 && mids[i - 1].1.num_eq(mids[i].1);
        let ghost i0 = i as int;
        let ghost run0 = run as int;
        if same {
            assert(unmoved(mids@)(i - 1));
            run = run + 1;
        } else {
            run = 1;
        }
        proof {
            assert forall|from: int, to: int| 0 <= from <= to <= i0 + 1 && #[trigger] flat(mids@, from, to)
                implies to - from <= longest || (to - from <= run) by {
                if to == i0 + 1 && from < i0 {
                    if same {
                        assert(flat(mids@, from, i0)) by {
                            assert forall|k: int| from <= k < i0 - 1 implies #[trigger] unmoved(mids@)(k) by {}
                        }
                        if from < i0 - run0 {
                            assert(unmoved(mids@)(i0 - run0 - 1));
                        }
                    } else {
                        assert(unmoved(mids@)(i0 - 1));
                    }
                }
            }
        }
        if run > longest {
            longest = run;
            proof {
                at = (i0 + 1 - run, i0 + 1);
            }
        }
        i = i + 1;
    }
    longest
}

/// Half a percent a year, as a fraction.
pub const STABLE_SIGMA: u64 = 0x3f74_7ae1_47ae_147b;

/// A series is taken for a pegged pair when its annual range volatility is
/// below half a percent, or more than 95 % of its returns are zero.
pub open spec fn looks_stable(sigma_park_ann: Double, zeros: int, returns: int) -> bool {
    (sigma_park_ann.finite() && sigma_park_ann.below(Double { bits: STABLE_SIGMA })) || 100 * zeros
        > 95 * returns
}

/// Infers whether a pair is pegged.
pub fn infer_stable(sigma_park_ann: Double, zeros: u64, returns: u64) -> (b: bool)
    ensures
        b == looks_stable(sigma_park_ann, zeros as int, returns as int),
{
    (sigma_park_ann.is_finite() && sigma_park_ann.lt(Double { bits: STABLE_SIGMA })) || 100
        * (zeros as u128) > 95 * (returns as u128)
}

/// A feed is stuck when more than 99 % of its returns are zero and its pair is
/// not pegged by identity. The inferred peg does not count: a flat line would
/// excuse itself.
pub open spec fn frozen(zeros: int, returns: int, known_stable: bool) -> bool {
    returns > 0 && 100 * zeros > 99 * returns && !known_stable
}

/// A feed with returns is stuck if none of them moves, unless its pair is pegged by
/// identity; it is not while one in a hundred moves. More that move never make it stuck.
pub proof fn stuck_feeds_hardly_move(zeros: int, fewer: int, all: int)
    requires
        0 <= fewer <= zeros <= all,
    ensures
        all > 0 ==> frozen(all, all, false),
        100 * (all - zeros) >= all ==> !frozen(zeros, all, false),
        100 * (all - zeros) < all ==> frozen(zeros, all, false),
        frozen(fewer, all, false) ==> frozen(zeros, all, false),
        !frozen(zeros, all, true),
{
}

/// A pair looks pegged if fewer than one in twenty returns moves, or its yearly range is
/// a number below half a percent; and not for any other reason.
pub proof fn pegged_pairs_hardly_move(sigma: Double, zeros: int, all: int)
    requires
        0 <= zeros <= all,
    ensures
        20 * (all - zeros) < all ==> looks_stable(sigma, zeros, all),
        sigma.finite() && sigma.below(Double { bits: 0x3f74_7ae1_47ae_147b }) ==> looks_stable(
            sigma,
            zeros,
            all,
        ),
        20 * (all - zeros) >= all && !(sigma.finite() && sigma.below(
            Double { bits: 0x3f74_7ae1_47ae_147b },
        )) ==> !looks_stable(sigma, zeros, all),
{
}

/// Tells a dead forwarder from a quiet pair.
pub fn stuck_feed(zeros: u64, returns: u64, known_stable: bool) -> (b: bool)
    ensures
        b == frozen(zeros as int, returns as int, known_stable),
{
    returns > 0 && 100 * (zeros as u128) > 99 * (returns as u128) && !known_stable
}

/// 0.33 and 3.
pub const VOL_RATIO_LO: u64 = 0x3fd5_1eb8_51eb_851f;

pub const VOL_RATIO_HI: u64 = 0x4008_0000_0000_0000;

/// Stored and derived volatility diverge when both are usable and their ratio
/// lies outside 0.33 to 3.
pub fn vol_diverges(derived: Double, stored: Double, ratio: Double) -> (b: bool)
    ensures
        b == (derived.finite() && derived.positive() && stored.positive() && !((Double {
            bits: VOL_RATIO_LO,
        }).at_most(ratio) && ratio.at_most(Double { bits: VOL_RATIO_HI }))),
{
    derived.is_finite() && derived.is_positive() && stored.is_positive() && !((Double {
        bits: VOL_RATIO_LO,
    }).le(ratio) && ratio.le(Double { bits: VOL_RATIO_HI }))
}

/// The greatest and the least finite number.
pub const MOST_BITS: u64 = 0x7fef_ffff_ffff_ffff;

pub const LEAST_BITS: u64 = 0xffef_ffff_ffff_ffff;

/// Number of the UTC day that holds an instant.
pub open spec fn epoch_day(ts: i64) -> int {
    ts as int / calendar::MS_PER_DAY as int
}

/// A day's high and low after one more price.
pub open spec fn day_on(seen: Option<(Double, Double)>, mid: Double) -> (Double, Double) {
    let (hi, lo) = match seen {
        Some(r) => r,
        None => (Double { bits: LEAST_BITS }, Double { bits: MOST_BITS }),
    };
    (
        if hi.below(mid) {
            mid
        } else {
            hi
        },
        if mid.below(lo) {
            mid
        } else {
            lo
        },
    )
}

/// High and low of the first `n` prices by UTC day.
pub open spec fn day_highs_and_lows(m: Seq<(i64, Double)>, n: int) -> Map<i64, (Double, Double)>
    decreases n,
{
    if n <= 0 {
        Map::empty()
    } else {
        let before = day_highs_and_lows(m, n - 1);
        let k = epoch_day(m[n - 1].0) as i64;
        before.insert(k, day_on(hlc::at(before, k), m[n - 1].1))
    }
}

/// Price `i` is of a UTC day.
pub open spec fn on_day(m: Seq<(i64, Double)>, day: i64, i: int) -> bool {
    day * 86_400_000 <= m[i].0 < (day + 1) * 86_400_000
}

/// A price is one of a day.
pub open spec fn priced_on(m: Seq<(i64, Double)>, n: int, day: i64, p: Double) -> bool {
    exists|i: int| 0 <= i < n && #[trigger] on_day(m, day, i) && m[i].1 == p
}

/// There is a range exactly for the days with a price. No price of a day is above its
/// high or below its low; and if any of its prices is a finite number above zero, both
/// are prices of that day.
pub proof fn daily_ranges_hold_their_prices(m: Seq<(i64, Double)>, n: int, day: i64)
    requires
        0 <= n <= m.len(),
    ensures
        day_highs_and_lows(m, n).contains_key(day) <==> exists|i: int|
            0 <= i < n && #[trigger] on_day(m, day, i),
        day_highs_and_lows(m, n).contains_key(day) ==> {
            let (hi, lo) = day_highs_and_lows(m, n)[day];
            &&& forall|i: int|
                0 <= i < n && #[trigger] on_day(m, day, i) ==> !hi.below(m[i].1) && !m[i].1.below(lo)
            &&& !hi.nan() && !lo.nan()
            &&& priced_on(m, n, day, hi) || hi.bits == LEAST_BITS
            &&& priced_on(m, n, day, lo) || lo.bits == MOST_BITS
            &&& forall|i: int|
                0 <= i < n && #[trigger] on_day(m, day, i) && hlc::usable(m[i].1) ==> priced_on(
                    m,
                    n,
                    day,
                    hi,
                ) && priced_on(m, n, day, lo)
        },
    decreases n,
{
    if n > 0 {
        daily_ranges_hold_their_prices(m, n - 1, day);
        let k = epoch_day(m[n - 1].0);
        assert(on_day(m, day, n - 1) <==> k == day);
        let before = day_highs_and_lows(m, n - 1);
        let after = day_highs_and_lows(m, n);
        if on_day(m, day, n - 1) {
            let (hi, lo) = after[day];
            let p = m[n - 1].1;
            assert(p == hi ==> priced_on(m, n, day, hi));
            assert(p == lo ==> priced_on(m, n, day, lo));
            if before.contains_key(day) {
                let (h, l) = before[day];
                assert(priced_on(m, n - 1, day, h) ==> priced_on(m, n, day, h));
                assert(priced_on(m, n - 1, day, l) ==> priced_on(m, n, day, l));
            }
            assert forall|i: int| 0 <= i < n && #[trigger] on_day(m, day, i) && hlc::usable(
                m[i].1,
            ) implies priced_on(m, n, day, hi) && priced_on(m, n, day, lo) by {
                assert(!hi.below(m[i].1) && !m[i].1.below(lo));
                assert(hi.bits != LEAST_BITS);
                if lo.bits == MOST_BITS {
                    assert(m[i].1 == lo);
                }
            }
        }
    }
}

/// High and low by UTC day, by ascending day.
pub fn daily_ranges(mids: &Vec<(i64, Double)>) -> (rows: Vec<(i64, (Double, Double))>)
    ensures
        bucket::lists(rows@, day_highs_and_lows(mids@, mids.len() as int)),
{
    let mut rows: Vec<(i64, (Double, Double))> = Vec::new();
    let mut i: usize = 0;
    while i < mids.len()
        invariant
            i <= mids.len(),
            bucket::lists(rows@, day_highs_and_lows(mids@, i as int)),
        decreases mids.len() - i,
    {
        let (ts, mid) = mids[i];
        let ghost m = day_highs_and_lows(mids@, i as int);
        let k: i64 = match ts.checked_div_euclid(calendar::MS_PER_DAY) {
            Some(d) => d,
            None => 0,
        };
        let seen = bucket::look(&rows, k);
        assert(seen == hlc::at(m, k));
        let (hi, lo) = match seen {
            Some(r) => r,
            None => (Double::from_bits(LEAST_BITS), Double::from_bits(MOST_BITS)),
        };
        let top = if hi.lt(mid) {
            mid
        } else {
            hi
        };
        let bottom = if mid.lt(lo) {
            mid
        } else {
            lo
        };
        bucket::put(&mut rows, k, (top, bottom));
        i = i + 1;
    }
    rows
}

/// Whether a day's range says anything about volatility.
pub fn is_ranged(hi: Double, lo: Double) -> (b: bool)
    ensures
        b == (hi.positive() && lo.positive() && lo.at_most(hi)),
{
    hi.is_positive() && lo.is_positive() && lo.le(hi)
}

/// 8.0: robust deviations above it are outliers.
pub const OUTLIER_BITS: u64 = 0x4020_0000_0000_0000;

pub open spec fn outlier(z: Seq<Double>) -> spec_fn(int) -> bool {
    |i: int| (Double { bits: OUTLIER_BITS }).below(z[i])
}

/// The largest of the first `n` deviations, at least 0.
pub open spec fn worst(z: Seq<Double>, n: int) -> Double
    decreases n,
{
    if n <= 0 {
        Double { bits: 0 }
    } else {
        let before = worst(z, n - 1);
        if before.below(z[n - 1]) {
            z[n - 1]
        } else {
            before
        }
    }
}

/// No deviation is above the worst, which is one of them or zero.
pub proof fn no_deviation_is_worse(z: Seq<Double>, n: int)
    requires
        0 <= n <= z.len(),
    ensures
        forall|i: int| 0 <= i < n ==> !worst(z, n).below(#[trigger] z[i]),
        worst(z, n).bits == 0 || exists|i: int| 0 <= i < n && (#[trigger] z[i]) == worst(z, n),
        !worst(z, n).nan(),
    decreases n,
{
    if n > 0 {
        no_deviation_is_worse(z, n - 1);
        assert(z[n - 1] == z[n - 1]);
    }
}

/// Number of outliers among robust deviations, and the largest deviation.
pub fn count_outliers(z: &Vec<Double>) -> (r: (u64, Double))
    ensures
        r.0 == tally::count(z.len() as int, outlier(z@)),
        r.1 == worst(z@, z.len() as int),
{
    let limit = Double::from_bits(OUTLIER_BITS);
    let mut n: u64 = 0;
    let mut top = Double::from_bits(0);
    let mut i: usize = 0;
    while i < z.len()
        invariant
            i <= z.len(),
            limit.bits == OUTLIER_BITS,
            n <= i,
            n == tally::count(i as int, outlier(z@)),
            top == worst(z@, i as int),
        decreases z.len() - i,
    {
        if limit.lt(z[i]) {
            n = n + 1;
        }
        if top.lt(z[i]) {
            top = z[i];
        }
        i = i + 1;
    }
    (n, top)
}

} // verus!
