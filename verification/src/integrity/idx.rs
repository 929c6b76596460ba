//! Checks on a file of index records.

use vstd::prelude::*;
use std::collections::HashSet;
use crate::ieee::Double;
use crate::integrity;
use crate::tally;

verus! {

/// More providers than this is corrupt metadata.
pub const MAX_ACCEPTED_PROVIDERS: u8 = 64;

/// A tenth: the largest move between records that passes without notice.
pub const JUMP_FRAC: u64 = 0x3fb9_9999_9999_999a;

/// Five hundred basis points.
pub const WIDE_SPREAD_BPS: u64 = 0x407f_4000_0000_0000;

/// One percent, that is a hundred basis points.
pub const MEAN_CI_MAX: u64 = 0x3f84_7ae1_47ae_147b;

/// So many identical mids in a row are a frozen feed.
pub const STUCK_RUN: usize = 600;

/// Fewer mids than this say nothing about how many are distinct.
pub const STUCK_MIN_SAMPLE: usize = 2000;

/// One index record, with the quantities derived from it.
#[derive(Clone, Copy, Debug)]
pub struct IdxRecord {
    /// The header names an index message.
    pub is_index: bool,
    pub ts_ms: i64,
    pub sentinel: bool,
    /// `confidence` is a freshness byte.
    pub freshness: bool,
    pub confidence: u8,
    pub accepted: u8,
    pub bid: Double,
    pub ask: Double,
    /// The body passes its own validation.
    pub valid: bool,
    pub mid: Double,
    pub spread_bps: Double,
    /// The spread recomputed from bid and ask is unusable or disagrees.
    pub spread_inconsistent: bool,
    pub ci_price: Double,
    /// One percent of the mid.
    pub ci_limit: Double,
    /// `ci_price / mid`.
    pub ci_ratio: Double,
}

#[derive(Clone, Copy, Debug, PartialEq, Eq, Structural)]
pub enum IdxIssue {
    NotIndex,
    OutsideEpoch,
    BackInTime,
    Gap,
    BidBelowFloor,
    AskBelowFloor,
    Crossed,
    TooManyProviders,
    Invalid,
    SpreadInconsistent,
    WideInterval,
    Jump,
    StaleConfidence,
    StuckRun,
    FewDistinctMids,
    MeanInterval,
    WideSpreads,
}

/// An issue, with the record it is about, or the whole file.
#[derive(Clone, Copy, Debug, PartialEq, Eq, Structural)]
pub struct Finding {
    pub record: Option<usize>,
    pub issue: IdxIssue,
}

/// Not a price: not finite, or below the floor.
pub open spec fn no_price(px: Double, min_px: Double) -> bool {
    !px.finite() || px.below(min_px)
}

/// A record whose body is sound and whose mid is a price. Only these enter the
/// heuristics.
pub open spec fn usable(r: IdxRecord, min_px: Double) -> bool {
    r.valid && !no_price(r.bid, min_px) && !no_price(r.ask, min_px) && r.mid.positive()
        && r.mid.finite()
}

/// A usable record that is no heartbeat.
pub open spec fn real_quote(r: IdxRecord, min_px: Double) -> bool {
    usable(r, min_px) && !r.sentinel
}

/// Tells a usable record.
pub fn is_usable(r: &IdxRecord, min_px: Double) -> (b: bool)
    ensures
        b == usable(*r, min_px),
{
    r.valid && r.bid.is_finite() && !r.bid.lt(min_px) && r.ask.is_finite() && !r.ask.lt(min_px)
        && r.mid.is_positive() && r.mid.is_finite()
}

/// The latest real quote before record `i`: what a move is measured from.
pub open spec fn baseline(records: Seq<IdxRecord>, min_px: Double, i: int) -> Option<int>
    decreases i,
{
    if i <= 0 {
        None
    } else if real_quote(records[i - 1], min_px) {
        Some(i - 1)
    } else {
        baseline(records, min_px, i - 1)
    }
}

/// Record `i` comes after a step too long for its move to be a jump.
pub open spec fn after_gap(records: Seq<IdxRecord>, i: int) -> bool {
    i > 0 && records[i].ts_ms - records[i - 1].ts_ms > integrity::IDX_MAX_GAP_MS
}

/// The record that the move into record `i` is measured from, if that move is
/// checked: `i` is a real quote, one came before, and no gap lies between.
pub open spec fn jump_from(records: Seq<IdxRecord>, min_px: Double, i: int) -> Option<int> {
    if real_quote(records[i], min_px) && !after_gap(records, i) {
        baseline(records, min_px, i)
    } else {
        None
    }
}

fn step_exceeds(prev: i64, ts: i64) -> (b: bool)
    ensures
        b == (ts - prev > integrity::IDX_MAX_GAP_MS),
{
    (ts as i128) - (prev as i128) > (integrity::IDX_MAX_GAP_MS as i128)
}

/// For each record, the record that its move is measured from, if any.
pub fn jump_baselines(records: &Vec<IdxRecord>, min_px: Double) -> (from: Vec<Option<usize>>)
    ensures
        from.len() == records.len(),
        forall|i: int|
            0 <= i < records.len() ==> match #[trigger] from@[i] {
                Some(j) => jump_from(records@, min_px, i) == Some(j as int),
                None => jump_from(records@, min_px, i) is None,
            },
{
    let mut from: Vec<Option<usize>> = Vec::new();
    let mut last: Option<usize> = None;
    let mut i: usize = 0;
    while i < records.len()
        invariant
            i <= records.len(),
            from.len() == i,
            match last {
                Some(j) => baseline(records@, min_px, i as int) == Some(j as int),
                None => baseline(records@, min_px, i as int) is None,
            },
            forall|k: int|
                0 <= k < i ==> match #[trigger] from@[k] {
                    Some(j) => jump_from(records@, min_px, k) == Some(j as int),
                    None => jump_from(records@, min_px, k) is None,
                },
        decreases records.len() - i,
    {
        let r = &records[i];
        let quoted = is_usable(r, min_px) && !r.sentinel;
        let gapped = i > 0 && step_exceeds(records[i - 1].ts_ms, r.ts_ms);
        if quoted && !gapped {
            from.push(last);
        } else {
            from.push(None);
        }
        if quoted {
            last = Some(i);
        }
        i = i + 1;
    }
    from
}

/// The move into record `i` is a jump. `jumps[i]` is its relative size.
pub open spec fn jumped(records: Seq<IdxRecord>, jumps: Seq<Double>, min_px: Double, i: int) -> bool {
    jump_from(records, min_px, i) is Some && (Double { bits: JUMP_FRAC }).below(jumps[i])
}

pub open spec fn wide_interval(r: IdxRecord, min_px: Double) -> bool {
    usable(r, min_px) && r.ci_price.finite() && r.ci_limit.below(r.ci_price)
}

/// A freshness byte stands for `byte / 255`; it is stale below five percent.
pub open spec fn stale(r: IdxRecord, min_px: Double) -> bool {
    usable(r, min_px) && r.freshness && r.confidence * 100 < 5 * 255
}

pub open spec fn about(i: int, issue: IdxIssue) -> Finding {
    Finding { record: Some(i as usize), issue }
}

/// What a check depends on besides the records.
#[derive(Clone, Copy, Debug)]
pub struct IdxRules {
    pub min_px: Double,
    pub now_ms: i64,
    pub strict: bool,
}

/// `so_far` and the structural errors of record `i`.
pub open spec fn with_structural(
    so_far: Seq<Finding>,
    records: Seq<IdxRecord>,
    rules: IdxRules,
    i: int,
) -> Seq<Finding> {
    let r = records[i];
    so_far + tally::when(!r.is_index, about(i, IdxIssue::NotIndex)) + tally::when(
        integrity::outside_epoch(r.ts_ms, rules.now_ms),
        about(i, IdxIssue::OutsideEpoch),
    ) + tally::when(i > 0 && r.ts_ms < records[i - 1].ts_ms, about(i, IdxIssue::BackInTime))
        + tally::when(no_price(r.bid, rules.min_px), about(i, IdxIssue::BidBelowFloor))
        + tally::when(no_price(r.ask, rules.min_px), about(i, IdxIssue::AskBelowFloor))
        + tally::when(
        r.bid.finite() && r.ask.finite() && r.ask.below(r.bid),
        about(i, IdxIssue::Crossed),
    ) + tally::when(r.accepted > MAX_ACCEPTED_PROVIDERS, about(i, IdxIssue::TooManyProviders))
        + tally::when(!r.valid, about(i, IdxIssue::Invalid)) + tally::when(
        usable(r, rules.min_px) && r.spread_inconsistent,
        about(i, IdxIssue::SpreadInconsistent),
    )
}

/// `so_far` and the anomalies of record `i`, when they count on this side.
pub open spec fn with_anomalies(
    so_far: Seq<Finding>,
    records: Seq<IdxRecord>,
    jumps: Seq<Double>,
    min_px: Double,
    here: bool,
    i: int,
) -> Seq<Finding> {
    so_far + tally::when(here && wide_interval(records[i], min_px), about(i, IdxIssue::WideInterval))
        + tally::when(here && jumped(records, jumps, min_px, i), about(i, IdxIssue::Jump))
        + tally::when(here && stale(records[i], min_px), about(i, IdxIssue::StaleConfidence))
}

/// The latest real quote before a record is one, and none lies between.
pub proof fn baselines_are_the_latest_quotes(records: Seq<IdxRecord>, min_px: Double, i: int)
    requires
        0 <= i <= records.len(),
    ensures
        baseline(records, min_px, i) is None <==> forall|j: int|
            0 <= j < i ==> !real_quote(#[trigger] records[j], min_px),
        baseline(records, min_px, i) matches Some(k) ==> 0 <= k < i && real_quote(
            records[k],
            min_px,
        ) && forall|j: int| k < j < i ==> !real_quote(#[trigger] records[j], min_px),
    decreases i,
{
    if i > 0 {
        baselines_are_the_latest_quotes(records, min_px, i - 1);
        if real_quote(records[i - 1], min_px) {
            assert(!(forall|j: int| 0 <= j < i ==> !real_quote(#[trigger] records[j], min_px)));
        }
    }
}

/// A record with a sound body whose prices are finite and not below the floor, with a
/// middle price that is a finite number above zero.
pub open spec fn priced(r: IdxRecord, min_px: Double) -> bool {
    &&& r.valid
    &&& r.bid.finite() && !r.bid.below(min_px)
    &&& r.ask.finite() && !r.ask.below(min_px)
    &&& r.mid.finite() && (Double { bits: 0 }).below(r.mid)
}

/// What is wrong with record `i` itself.
pub open spec fn structural_fault(
    records: Seq<IdxRecord>,
    rules: IdxRules,
    i: int,
    issue: IdxIssue,
) -> bool {
    let r = records[i];
    match issue {
        IdxIssue::NotIndex => !r.is_index,
        IdxIssue::OutsideEpoch => r.ts_ms < 946_684_800_000 || r.ts_ms > rules.now_ms + 300_000,
        IdxIssue::BackInTime => i > 0 && r.ts_ms < records[i - 1].ts_ms,
        IdxIssue::BidBelowFloor => !(r.bid.finite() && !r.bid.below(rules.min_px)),
        IdxIssue::AskBelowFloor => !(r.ask.finite() && !r.ask.below(rules.min_px)),
        IdxIssue::Crossed => r.bid.finite() && r.ask.finite() && !r.bid.at_most(r.ask),
        IdxIssue::TooManyProviders => r.accepted > 64,
        IdxIssue::Invalid => !r.valid,
        IdxIssue::SpreadInconsistent => priced(r, rules.min_px) && r.spread_inconsistent,
        _ => false,
    }
}

/// What is odd about record `i`: a wide interval, a jump from the latest real quote
/// before it with no gap between, or a confidence that is stale.
pub open spec fn oddity(
    records: Seq<IdxRecord>,
    jumps: Seq<Double>,
    min_px: Double,
    i: int,
    issue: IdxIssue,
) -> bool {
    let r = records[i];
    match issue {
        IdxIssue::WideInterval => priced(r, min_px) && r.ci_price.finite() && r.ci_limit.below(
            r.ci_price,
        ),
        IdxIssue::Jump => priced(r, min_px) && !r.sentinel && (i == 0 || r.ts_ms - records[i
            - 1].ts_ms <= integrity::IDX_MAX_GAP_MS) && (Double { bits: 0x3fb9_9999_9999_999a }).below(
            jumps[i],
        ) && exists|j: int|
            0 <= j < i && priced(#[trigger] records[j], min_px) && !records[j].sentinel,
        IdxIssue::StaleConfidence => priced(r, min_px) && r.freshness && r.confidence <= 12,
        _ => false,
    }
}

proof fn lemma_oddities(
    records: Seq<IdxRecord>,
    jumps: Seq<Double>,
    min_px: Double,
    here: bool,
    so_far: Seq<Finding>,
    n: int,
    i: usize,
    issue: IdxIssue,
)
    requires
        0 <= n < records.len() <= usize::MAX,
    ensures
        tally::among(with_anomalies(so_far, records, jumps, min_px, here, n), Finding { record: Some(i), issue }) <==> tally::among(so_far, Finding { record: Some(i), issue }) || (i == n && here && oddity(
            records,
            jumps,
            min_px,
            n,
            issue,
        )),
{
    broadcast use tally::lemma_when;

    baselines_are_the_latest_quotes(records, min_px, n);
    if jump_from(records, min_px, n) is Some {
        let k = jump_from(records, min_px, n)->Some_0;
        assert(priced(records[k], min_px) && !records[k].sentinel);
    }
    if exists|j: int| 0 <= j < n && priced(#[trigger] records[j], min_px) && !records[j].sentinel {
        let j = choose|j: int|
            0 <= j < n && priced(#[trigger] records[j], min_px) && !records[j].sentinel;
        assert(real_quote(records[j], min_px));
    }
}

proof fn lemma_structural_step(
    so_far: Seq<Finding>,
    records: Seq<IdxRecord>,
    rules: IdxRules,
    m: int,
    x: Finding,
)
    requires
        0 <= m < records.len() <= usize::MAX,
    ensures
        tally::among(with_structural(so_far, records, rules, m), x) <==> tally::among(so_far, x) || (
        x.record == Some(m as usize) && structural_fault(records, rules, m, x.issue)),
{
    let r = records[m];
    let early = integrity::outside_epoch(r.ts_ms, rules.now_ms);
    let back = m > 0 && r.ts_ms < records[m - 1].ts_ms;
    let crossed = r.bid.finite() && r.ask.finite() && r.ask.below(r.bid);
    let bid = no_price(r.bid, rules.min_px);
    let ask = no_price(r.ask, rules.min_px);
    let many = r.accepted > MAX_ACCEPTED_PROVIDERS;
    let spread = usable(r, rules.min_px) && r.spread_inconsistent;
    let s1 = so_far + tally::when(!r.is_index, about(m, IdxIssue::NotIndex));
    let s2 = s1 + tally::when(early, about(m, IdxIssue::OutsideEpoch));
    let s3 = s2 + tally::when(back, about(m, IdxIssue::BackInTime));
    let s4 = s3 + tally::when(bid, about(m, IdxIssue::BidBelowFloor));
    let s5 = s4 + tally::when(ask, about(m, IdxIssue::AskBelowFloor));
    let s6 = s5 + tally::when(crossed, about(m, IdxIssue::Crossed));
    let s7 = s6 + tally::when(many, about(m, IdxIssue::TooManyProviders));
    let s8 = s7 + tally::when(!r.valid, about(m, IdxIssue::Invalid));
    tally::lemma_when(so_far, !r.is_index, about(m, IdxIssue::NotIndex), x);
    tally::lemma_when(s1, early, about(m, IdxIssue::OutsideEpoch), x);
    tally::lemma_when(s2, back, about(m, IdxIssue::BackInTime), x);
    tally::lemma_when(s3, bid, about(m, IdxIssue::BidBelowFloor), x);
    tally::lemma_when(s4, ask, about(m, IdxIssue::AskBelowFloor), x);
    tally::lemma_when(s5, crossed, about(m, IdxIssue::Crossed), x);
    tally::lemma_when(s6, many, about(m, IdxIssue::TooManyProviders), x);
    tally::lemma_when(s7, !r.valid, about(m, IdxIssue::Invalid), x);
    tally::lemma_when(s8, spread, about(m, IdxIssue::SpreadInconsistent), x);
    assert(with_structural(so_far, records, rules, m) == s8 + tally::when(
        spread,
        about(m, IdxIssue::SpreadInconsistent),
    ));
}

/// The errors on records are what is wrong with them, and in a strict check also what is
/// odd about them.
pub proof fn record_errors_are_faults(
    records: Seq<IdxRecord>,
    jumps: Seq<Double>,
    rules: IdxRules,
    n: int,
    i: usize,
    issue: IdxIssue,
)
    requires
        0 <= n <= records.len() <= usize::MAX,
    ensures
        tally::among(record_errors(records, jumps, rules, n), Finding { record: Some(i), issue }) <==> i
            < n && (structural_fault(records, rules, i as int, issue) || (rules.strict && oddity(
            records,
            jumps,
            rules.min_px,
            i as int,
            issue,
        ))),
    decreases n,
{
    if n > 0 {
        record_errors_are_faults(records, jumps, rules, n - 1, i, issue);
        let so_far = record_errors(records, jumps, rules, n - 1);
        let x = Finding { record: Some(i), issue };
        let sound = with_structural(so_far, records, rules, n - 1);
        lemma_structural_step(so_far, records, rules, n - 1, x);
        lemma_oddities(records, jumps, rules.min_px, rules.strict, sound, n - 1, i, issue);
    } else {
        reveal(tally::among);
    }
}

/// Warnings on records tell of every gap before them and, unless the check is strict, of
/// what is odd about them.
pub proof fn record_warnings_are_gaps_and_oddities(
    records: Seq<IdxRecord>,
    jumps: Seq<Double>,
    rules: IdxRules,
    n: int,
    i: usize,
    issue: IdxIssue,
)
    requires
        0 <= n <= records.len() <= usize::MAX,
    ensures
        tally::among(record_warnings(records, jumps, rules, n), Finding { record: Some(i), issue }) <==> i
            < n && ((issue == IdxIssue::Gap && i > 0 && records[i as int].ts_ms - records[i
            - 1].ts_ms > integrity::IDX_MAX_GAP_MS) || (!rules.strict && oddity(
            records,
            jumps,
            rules.min_px,
            i as int,
            issue,
        ))),
    decreases n,
{
    broadcast use tally::lemma_when;

    if n > 0 {
        record_warnings_are_gaps_and_oddities(records, jumps, rules, n - 1, i, issue);
        let so_far = record_warnings(records, jumps, rules, n - 1);
        let gapped = so_far + tally::when(
            after_gap(records, n - 1),
            about(n - 1, IdxIssue::Gap),
        );
        lemma_oddities(records, jumps, rules.min_px, !rules.strict, gapped, n - 1, i, issue);
    } else {
        reveal(tally::among);
    }
}

/// Errors on the first `n` records.
pub open spec fn record_errors(
    records: Seq<IdxRecord>,
    jumps: Seq<Double>,
    rules: IdxRules,
    n: int,
) -> Seq<Finding>
    decreases n,
{
    if n <= 0 {
        Seq::empty()
    } else {
        with_anomalies(
            with_structural(record_errors(records, jumps, rules, n - 1), records, rules, n - 1),
            records,
            jumps,
            rules.min_px,
            rules.strict,
            n - 1,
        )
    }
}

/// Warnings on the first `n` records.
pub open spec fn record_warnings(
    records: Seq<IdxRecord>,
    jumps: Seq<Double>,
    rules: IdxRules,
    n: int,
) -> Seq<Finding>
    decreases n,
{
    if n <= 0 {
        Seq::empty()
    } else {
        with_anomalies(
            record_warnings(records, jumps, rules, n - 1) + tally::when(
                after_gap(records, n - 1),
                about(n - 1, IdxIssue::Gap),
            ),
            records,
            jumps,
            rules.min_px,
            !rules.strict,
            n - 1,
        )
    }
}

fn note_when(out: &mut Vec<Finding>, b: bool, record: Option<usize>, issue: IdxIssue)
    ensures
        final(out)@ == old(out)@ + tally::when(b, Finding { record, issue }),
{
    tally::push_when(out, b, Finding { record, issue });
}

fn note_structural(errors: &mut Vec<Finding>, records: &Vec<IdxRecord>, rules: &IdxRules, i: usize)
    requires
        i < records.len(),
    ensures
        final(errors)@ == with_structural(old(errors)@, records@, *rules, i as int),
{
    let r = &records[i];
    let at = Some(i);
    let back = i > 0 && r.ts_ms < records[i - 1].ts_ms;
    note_when(errors, !r.is_index, at, IdxIssue::NotIndex);
    note_when(
        errors,
        integrity::is_outside_epoch(r.ts_ms, rules.now_ms),
        at,
        IdxIssue::OutsideEpoch,
    );
    note_when(errors, back, at, IdxIssue::BackInTime);
    note_when(
        errors,
        !r.bid.is_finite() || r.bid.lt(rules.min_px),
        at,
        IdxIssue::BidBelowFloor,
    );
    note_when(
        errors,
        !r.ask.is_finite() || r.ask.lt(rules.min_px),
        at,
        IdxIssue::AskBelowFloor,
    );
    note_when(
        errors,
        r.bid.is_finite() && r.ask.is_finite() && r.ask.lt(r.bid),
        at,
        IdxIssue::Crossed,
    );
    note_when(errors, r.accepted > MAX_ACCEPTED_PROVIDERS, at, IdxIssue::TooManyProviders);
    note_when(errors, !r.valid, at, IdxIssue::Invalid);
    note_when(
        errors,
        is_usable(r, rules.min_px) && r.spread_inconsistent,
        at,
        IdxIssue::SpreadInconsistent,
    );
}

fn note_anomalies(
    out: &mut Vec<Finding>,
    records: &Vec<IdxRecord>,
    jumps: &Vec<Double>,
    from: &Vec<Option<usize>>,
    min_px: Double,
    here: bool,
    i: usize,
)
    requires
        i < records.len(),
        jumps.len() == records.len(),
        from.len() == records.len(),
        from@[i as int] is Some <==> jump_from(records@, min_px, i as int) is Some,
    ensures
        final(out)@ == with_anomalies(old(out)@, records@, jumps@, min_px, here, i as int),
{
    let r = &records[i];
    let at = Some(i);
    let ok = is_usable(r, min_px);
    note_when(
        out,
        here && (ok && r.ci_price.is_finite() && r.ci_limit.lt(r.ci_price)),
        at,
        IdxIssue::WideInterval,
    );
    note_when(
        out,
        here && (from[i].is_some() && (Double { bits: JUMP_FRAC }).lt(jumps[i])),
        at,
        IdxIssue::Jump,
    );
    note_when(
        out,
        here && (ok && r.freshness && (r.confidence as u32) * 100 < 1275),
        at,
        IdxIssue::StaleConfidence,
    );
}

pub open spec fn is_real(records: Seq<IdxRecord>, min_px: Double) -> spec_fn(int) -> bool {
    |i: int| real_quote(records[i], min_px)
}

/// Bit patterns of the mids of the first `n` records that are real quotes.
pub open spec fn mid_bits(records: Seq<IdxRecord>, min_px: Double, n: int) -> Seq<u64> {
    tally::hits(n, is_real(records, min_px)).map_values(|i: int| records[i].mid.bits)
}

/// `from..to` holds one value.
pub open spec fn constant(s: Seq<u64>, from: int, to: int) -> bool {
    forall|k: int| #![trigger s[k]] from <= k < to ==> s[k] == s[from]
}

/// `n` is the length of the longest run of one value.
pub open spec fn longest_run(s: Seq<u64>, n: int) -> bool {
    &&& exists|from: int, to: int|
        0 <= from <= to <= s.len() && to - from == n && #[trigger] constant(s, from, to)
    &&& forall|from: int, to: int|
        0 <= from <= to <= s.len() && #[trigger] constant(s, from, to) ==> to - from <= n
}

fn real_mid_bits(records: &Vec<IdxRecord>, min_px: Double) -> (bits: Vec<u64>)
    ensures
        bits@ == mid_bits(records@, min_px, records.len() as int),
{
    let mut bits: Vec<u64> = Vec::new();
    assert(mid_bits(records@, min_px, 0) =~= Seq::<u64>::empty());
    let mut i: usize = 0;
    while i < records.len()
        invariant
            i <= records.len(),
            bits@ == mid_bits(records@, min_px, i as int),
        decreases records.len() - i,
    {
        let r = &records[i];
        let ghost was = bits@;
        if is_usable(r, min_px) && !r.sentinel {
            bits.push(r.mid.bits);
            assert(mid_bits(records@, min_px, i + 1) =~= was.push(r.mid.bits));
        } else {
            assert(mid_bits(records@, min_px, i + 1) =~= was);
        }
        i = i + 1;
    }
    bits
}

/// Length of the longest run of identical values.
pub fn longest_identical_run(s: &Vec<u64>) -> (n: usize)
    ensures
        longest_run(s@, n as int),
{
    let mut run: usize = 0;
    let mut longest: usize = 0;
    let mut i: usize = 0;
    let ghost mut at: (int, int) = (0, 0);
    assert(constant(s@, 0, 0));
    while i < s.len()
        invariant
            i <= s.len(),
            run <= i,
            run <= longest <= i,
            i > 0 ==> run > 0,
            constant(s@, i - run, i as int),
            0 < run < i ==> s@[i - run - 1] != s@[i - run],
            0 <= at.0 <= at.1 <= i,
            at.1 - at.0 == longest,
            constant(s@, at.0, at.1),
            forall|from: int, to: int|
                0 <= from <= to <= i && #[trigger] constant(s@, from, to) ==> to - from <= longest,
        decreases s.len() - i,
    {
        let ghost i0 = i as int;
        let ghost run0 = run as int;
        let same = i > 0 && s[i - 1] == s[i];
        if same {
            run = run + 1;
        } else {
            run = 1;
        }
        proof {
            if same {
                assert(s@[i0 - run0] == s@[i0 - 1]);
            }
            assert forall|from: int, to: int| 0 <= from <= to <= i0 + 1 && #[trigger] constant(s@, from, to)
                implies to - from <= longest || to - from <= run by {
                if to == i0 + 1 && from < i0 {
                    assert(s@[i0] == s@[from]);
                    assert(s@[i0 - 1] == s@[from]);
                    if from < i0 - run0 {
                        assert(s@[i0 - run0 - 1] == s@[from]);
                        assert(s@[i0 - run0] == s@[from]);
                    }
                }
            }
        }
        if run > longest {
            longest = run;
            proof {
                at = (i0 + 1 - run, i0 + 1);
            }
        }
        i = i + 1;
    }
    longest
}

/// Number of distinct values.
pub fn distinct_values(s: &Vec<u64>) -> (n: usize)
    ensures
        n == s@.to_set().len(),
{
    broadcast use vstd::std_specs::hash::group_hash_axioms;

    let mut seen: HashSet<u64> = HashSet::new();
    let mut i: usize = 0;
    assert(s@.take(0).to_set() =~= Set::<u64>::empty());
    while i < s.len()
        invariant
            i <= s.len(),
            seen@ == s@.take(i as int).to_set(),
        decreases s.len() - i,
    {
        seen.insert(s[i]);
        proof {
            let grown = s@.take(i + 1);
            let head = s@.take(i as int);
            assert(grown =~= head.push(s@[i as int]));
            assert(grown.to_set() =~= head.to_set().insert(s@[i as int])) by {
                assert forall|x: u64| grown.to_set().contains(x) <==> head.to_set().insert(s@[i as int]).contains(x) by {
                    if head.contains(x) {
                        let k = choose|k: int| 0 <= k < head.len() && head[k] == x;
                        assert(grown[k] == x);
                    }
                    if x == s@[i as int] {
                        assert(grown[i as int] == x);
                    }
                    if grown.contains(x) && x != s@[i as int] {
                        let k = choose|k: int| 0 <= k < grown.len() && grown[k] == x;
                        assert(head[k] == x);
                    }
                }
            }
        }
        i = i + 1;
    }
    assert(s@.take(s.len() as int) =~= s@);
    seen.len()
}

pub open spec fn has_ratio(records: Seq<IdxRecord>, min_px: Double) -> spec_fn(int) -> bool {
    |i: int| usable(records[i], min_px) && records[i].ci_ratio.finite()
}

pub open spec fn has_wide_spread(records: Seq<IdxRecord>, min_px: Double) -> spec_fn(int) -> bool {
    |i: int| usable(records[i], min_px) && (Double { bits: WIDE_SPREAD_BPS }).below(records[i].spread_bps)
}

/// Half a percent of the records or more have a spread above 500 bps.
pub open spec fn spreads_too_wide(records: Seq<IdxRecord>, min_px: Double) -> bool {
    let n = records.len() as int;
    let finite = tally::count(n, has_ratio(records, min_px));
    finite > 0 && 1000 * tally::count(n, has_wide_spread(records, min_px)) >= 5 * finite
}

/// The feed is frozen: the longest run of identical mids reaches the limit.
pub open spec fn frozen(bits: Seq<u64>) -> bool {
    exists|n: int| n >= STUCK_RUN && #[trigger] longest_run(bits, n)
}

/// The sample is large and fewer than two in a thousand of its mids are distinct.
pub open spec fn too_few_distinct(bits: Seq<u64>) -> bool {
    bits.len() >= STUCK_MIN_SAMPLE && 1000 * bits.to_set().len() < 2 * bits.len()
}

/// `so_far` and the findings on the feed as a whole, when they count on this side.
pub open spec fn with_stuck(so_far: Seq<Finding>, bits: Seq<u64>, here: bool) -> Seq<Finding> {
    so_far + tally::when(
        here && frozen(bits),
        Finding { record: None, issue: IdxIssue::StuckRun },
    ) + tally::when(
        here && too_few_distinct(bits),
        Finding { record: None, issue: IdxIssue::FewDistinctMids },
    )
}

/// `mean_ci` is the mean of `ci_ratio` over the usable records that have one.
pub open spec fn file_errors(
    records: Seq<IdxRecord>,
    jumps: Seq<Double>,
    rules: IdxRules,
    mean_ci: Double,
) -> Seq<Finding> {
    let n = records.len() as int;
    with_stuck(
        record_errors(records, jumps, rules, n),
        mid_bits(records, rules.min_px, n),
        rules.strict,
    ) + tally::when(
        rules.strict && (Double { bits: MEAN_CI_MAX }).at_most(mean_ci),
        Finding { record: None, issue: IdxIssue::MeanInterval },
    ) + tally::when(
        rules.strict && spreads_too_wide(records, rules.min_px),
        Finding { record: None, issue: IdxIssue::WideSpreads },
    )
}

pub open spec fn file_warnings(
    records: Seq<IdxRecord>,
    jumps: Seq<Double>,
    rules: IdxRules,
) -> Seq<Finding> {
    let n = records.len() as int;
    with_stuck(
        record_warnings(records, jumps, rules, n),
        mid_bits(records, rules.min_px, n),
        !rules.strict,
    )
}

/// The widest spread of the first `n` records that are usable, and 0.0 at least.
pub open spec fn widest(records: Seq<IdxRecord>, min_px: Double, n: int) -> Double
    decreases n,
{
    if n <= 0 {
        Double { bits: 0 }
    } else {
        let before = widest(records, min_px, n - 1);
        let r = records[n - 1];
        if usable(r, min_px) && before.below(r.spread_bps) {
            r.spread_bps
        } else {
            before
        }
    }
}

/// No spread of a usable record is above the widest, which is one of them or zero.
pub proof fn no_spread_is_wider(records: Seq<IdxRecord>, min_px: Double, n: int)
    requires
        0 <= n <= records.len(),
    ensures
        forall|i: int|
            0 <= i < n && usable(#[trigger] records[i], min_px) ==> !widest(records, min_px, n).below(
                records[i].spread_bps,
            ),
        widest(records, min_px, n).bits == 0 || exists|i: int|
            0 <= i < n && usable(#[trigger] records[i], min_px) && records[i].spread_bps == widest(
                records,
                min_px,
                n,
            ),
        !widest(records, min_px, n).nan(),
    decreases n,
{
    if n > 0 {
        no_spread_is_wider(records, min_px, n - 1);
        assert(records[n - 1] == records[n - 1]);
    }
}

/// Statistics of a file of index records.
#[derive(Clone, Copy, Debug)]
pub struct IdxStats {
    /// Usable records whose `ci_ratio` is finite: what means and shares are over.
    pub finite: usize,
    /// Usable records with a spread above 500 bps.
    pub wide: usize,
    /// The widest spread; 0.0 without such records.
    pub max_spread_bps: Double,
    /// Real quotes.
    pub real: usize,
    /// The longest run of identical mids among them.
    pub longest_run: usize,
    /// Distinct mids among them.
    pub distinct: usize,
}

/// The statistics are those of some records.
pub open spec fn stats_of(records: Seq<IdxRecord>, min_px: Double, s: IdxStats) -> bool {
    let n = records.len() as int;
    let bits = mid_bits(records, min_px, n);
    &&& s.finite == tally::count(n, has_ratio(records, min_px))
    &&& s.wide == tally::count(n, has_wide_spread(records, min_px))
    &&& s.max_spread_bps == (if s.finite > 0 {
        widest(records, min_px, n)
    } else {
        Double { bits: 0 }
    })
    &&& s.real == bits.len()
    &&& longest_run(bits, s.longest_run as int)
    &&& s.distinct == bits.to_set().len()
}

/// Statistics of a file of index records.
pub fn idx_stats(records: &Vec<IdxRecord>, min_px: Double) -> (s: IdxStats)
    ensures
        stats_of(records@, min_px, s),
{
    let mut finite: usize = 0;
    let mut wide: usize = 0;
    let mut top = Double { bits: 0 };
    let mut i: usize = 0;
    while i < records.len()
        invariant
            i <= records.len(),
            finite == tally::count(i as int, has_ratio(records@, min_px)),
            wide == tally::count(i as int, has_wide_spread(records@, min_px)),
            top == widest(records@, min_px, i as int),
            finite <= i,
            wide <= i,
        decreases records.len() - i,
    {
        let r = &records[i];
        if is_usable(r, min_px) {
            if r.ci_ratio.is_finite() {
                finite = finite + 1;
            }
            if (Double { bits: WIDE_SPREAD_BPS }).lt(r.spread_bps) {
                wide = wide + 1;
            }
            if top.lt(r.spread_bps) {
                top = r.spread_bps;
            }
        }
        i = i + 1;
    }
    let bits = real_mid_bits(records, min_px);
    IdxStats {
        finite,
        wide,
        max_spread_bps: if finite > 0 {
            top
        } else {
            Double { bits: 0 }
        },
        real: bits.len(),
        longest_run: longest_identical_run(&bits),
        distinct: distinct_values(&bits),
    }
}

proof fn lemma_run_unique(s: Seq<u64>, a: int, b: int)
    requires
        longest_run(s, a),
        longest_run(s, b),
    ensures
        a == b,
{
}

/// Errors and warnings of a file of index records. `jumps[i]` is the relative
/// size of the move into record `i`; only those with a baseline are read.
pub fn check_idx(
    records: &Vec<IdxRecord>,
    jumps: &Vec<Double>,
    rules: &IdxRules,
    mean_ci: Double,
) -> (r: (Vec<Finding>, Vec<Finding>))
    requires
        jumps.len() == records.len(),
    ensures
        r.0@ == file_errors(records@, jumps@, *rules, mean_ci),
        r.1@ == file_warnings(records@, jumps@, *rules),
{
    let from = jump_baselines(records, rules.min_px);
    let mut errors: Vec<Finding> = Vec::new();
    let mut warnings: Vec<Finding> = Vec::new();
    let mut i: usize = 0;
    while i < records.len()
        invariant
            i <= records.len(),
            jumps.len() == records.len(),
            from.len() == records.len(),
            forall|k: int|
                0 <= k < records.len() ==> ((#[trigger] from@[k]) is Some <==> jump_from(
                    records@,
                    rules.min_px,
                    k,
                ) is Some),
            errors@ == record_errors(records@, jumps@, *rules, i as int),
            warnings@ == record_warnings(records@, jumps@, *rules, i as int),
        decreases records.len() - i,
    {
        let gapped = i > 0 && step_exceeds(records[i - 1].ts_ms, records[i].ts_ms);
        note_structural(&mut errors, records, rules, i);
        note_anomalies(&mut errors, records, jumps, &from, rules.min_px, rules.strict, i);
        note_when(&mut warnings, gapped, Some(i), IdxIssue::Gap);
        note_anomalies(&mut warnings, records, jumps, &from, rules.min_px, !rules.strict, i);
        i = i + 1;
    }
    let s = idx_stats(records, rules.min_px);
    let ghost bits = mid_bits(records@, rules.min_px, records.len() as int);
    let stuck = s.longest_run >= STUCK_RUN;
    assert(stuck == frozen(bits)) by {
        assert(longest_run(bits, s.longest_run as int));
        assert forall|n: int| #[trigger] longest_run(bits, n) implies n == s.longest_run by {
            lemma_run_unique(bits, n, s.longest_run as int);
        }
    }
    let few = s.real >= STUCK_MIN_SAMPLE && 1000 * (s.distinct as u128) < 2 * (s.real as u128);
    note_when(&mut errors, rules.strict && stuck, None, IdxIssue::StuckRun);
    note_when(&mut errors, rules.strict && few, None, IdxIssue::FewDistinctMids);
    note_when(&mut warnings, !rules.strict && stuck, None, IdxIssue::StuckRun);
    note_when(&mut warnings, !rules.strict && few, None, IdxIssue::FewDistinctMids);
    note_when(
        &mut errors,
        rules.strict && (Double { bits: MEAN_CI_MAX }).le(mean_ci),
        None,
        IdxIssue::MeanInterval,
    );
    let wide = s.finite > 0 && 1000 * (s.wide as u128) >= 5 * (s.finite as u128);
    note_when(&mut errors, rules.strict && wide, None, IdxIssue::WideSpreads);
    (errors, warnings)
}

} // verus!
