//! How far the newest index record, bar and brick of a pair lag the clock.

use vstd::prelude::*;
use crate::ieee::{Double, Single};
use crate::tally;
use crate::text;

verus! {

pub const IDX_FAIL_MS: i64 = 10_000;

pub const IDX_WARN_MS: i64 = 2_000;

pub const S10_FAIL_MS: i64 = 30_000;

pub const S10_WARN_MS: i64 = 15_000;

pub const RENKO_STALE_FAIL_MS: i64 = 600_000;

pub const RENKO_STALE_WARN_MS: i64 = 300_000;

/// The index may run ahead of the bars by this much.
pub const AHEAD_FAIL_MS: i64 = 20_000;

pub const AHEAD_WARN_MS: i64 = 12_000;

/// Fifty basis points between the mid and the newest brick.
pub const RENKO_PRICE_DRIFT_BPS: u64 = 0x4049_0000_0000_0000;

#[derive(Clone, Copy, Debug, PartialEq, Eq, Structural)]
pub enum Level {
    Good,
    Warn,
    Fail,
}

pub open spec fn worse(a: Level, b: Level) -> Level {
    if a == Level::Fail || b == Level::Fail {
        Level::Fail
    } else if a == Level::Warn || b == Level::Warn {
        Level::Warn
    } else {
        Level::Good
    }
}

/// The worse of two levels.
pub fn level_max(a: Level, b: Level) -> (l: Level)
    ensures
        l == worse(a, b),
{
    match (a, b) {
        (Level::Fail, _) | (_, Level::Fail) => Level::Fail,
        (Level::Warn, _) | (_, Level::Warn) => Level::Warn,
        _ => Level::Good,
    }
}

/// Taking the worse of two levels is a join: order and repetition do not matter.
pub proof fn worse_is_a_join(a: Level, b: Level, c: Level)
    ensures
        worse(a, b) == worse(b, a),
        worse(worse(a, b), c) == worse(a, worse(b, c)),
        worse(a, a) == a,
        worse(Level::Good, a) == a,
        worse(Level::Fail, a) == Level::Fail,
{
}

/// Saturating difference of two instants.
pub open spec fn clamped_sub(a: int, b: int) -> int {
    if a - b > i64::MAX {
        i64::MAX as int
    } else if a - b < i64::MIN {
        i64::MIN as int
    } else {
        a - b
    }
}

/// `a - b`, saturating.
pub fn lag(a: i64, b: i64) -> (d: i64)
    ensures
        d == clamped_sub(a as int, b as int),
{
    let d: i128 = a as i128 - b as i128;
    if d > i64::MAX as i128 {
        i64::MAX
    } else if d < i64::MIN as i128 {
        i64::MIN
    } else {
        d as i64
    }
}

/// What the newest records of a pair say.
#[derive(Clone, Copy, Debug)]
pub struct Tips {
    pub now_ms: i64,
    pub idx_tip_ms: Option<i64>,
    pub s10_close_ms: Option<i64>,
    pub s10_spread_bps: Option<Single>,
    pub renko_close_ms: Option<i64>,
    /// Distance of mid and newest brick in basis points, where both are positive.
    pub drift_bps: Option<Double>,
}

#[derive(Clone, Copy, Debug, PartialEq, Eq, Structural)]
pub enum Note {
    NoIdx,
    IdxLagFail,
    IdxLagWarn,
    NoS10,
    S10LagFail,
    S10LagWarn,
    S10Spread,
    NoRenko,
    RenkoStaleFail,
    RenkoStaleWarn,
    PriceDrift,
    AheadFail,
    AheadWarn,
}

/// The level a note stands for.
pub open spec fn note_level(n: Note) -> Level {
    match n {
        Note::IdxLagWarn | Note::S10LagWarn | Note::RenkoStaleWarn | Note::PriceDrift
        | Note::AheadWarn => Level::Warn,
        _ => Level::Fail,
    }
}

/// Lag of a tip behind now.
pub open spec fn lag_of(now_ms: i64, tip: Option<i64>) -> Option<int> {
    match tip {
        Some(t) => Some(clamped_sub(now_ms as int, t as int)),
        None => None,
    }
}

/// `so_far` and the note on one tip: missing, over the failure limit, or over
/// the warning limit.
pub open spec fn with_tip(
    so_far: Seq<Note>,
    lag: Option<int>,
    fail_ms: i64,
    warn_ms: i64,
    none: Note,
    fail: Note,
    warn: Note,
) -> Seq<Note> {
    match lag {
        None => so_far.push(none),
        Some(l) => if l > fail_ms {
            so_far.push(fail)
        } else if l > warn_ms {
            so_far.push(warn)
        } else {
            so_far
        },
    }
}

/// An average spread that no book has.
pub open spec fn bad_spread(s: Single) -> bool {
    !s.finite() || !s.positive()
}

/// How far the index is ahead of the bars.
pub open spec fn ahead(t: Tips) -> Option<int> {
    match (t.idx_tip_ms, t.s10_close_ms) {
        (Some(i), Some(s)) => Some(clamped_sub(i as int, s as int)),
        _ => None,
    }
}

/// The index is fresh, and its mid is far from the newest brick.
pub open spec fn drifts(t: Tips) -> bool {
    t.drift_bps is Some && t.idx_tip_ms is Some && lag_of(t.now_ms, t.idx_tip_ms)->Some_0
        < IDX_WARN_MS && (Double { bits: RENKO_PRICE_DRIFT_BPS }).below(t.drift_bps->Some_0)
}

/// The notes on a pair, in the order of the report.
pub open spec fn notes_of(t: Tips) -> Seq<Note> {
    let a = with_tip(
        Seq::empty(),
        lag_of(t.now_ms, t.idx_tip_ms),
        IDX_FAIL_MS,
        IDX_WARN_MS,
        Note::NoIdx,
        Note::IdxLagFail,
        Note::IdxLagWarn,
    );
    let b = with_tip(
        a,
        lag_of(t.now_ms, t.s10_close_ms),
        S10_FAIL_MS,
        S10_WARN_MS,
        Note::NoS10,
        Note::S10LagFail,
        Note::S10LagWarn,
    );
    let c = b + tally::when(
        t.s10_spread_bps is Some && bad_spread(t.s10_spread_bps->Some_0),
        Note::S10Spread,
    );
    let d = with_tip(
        c,
        lag_of(t.now_ms, t.renko_close_ms),
        RENKO_STALE_FAIL_MS,
        RENKO_STALE_WARN_MS,
        Note::NoRenko,
        Note::RenkoStaleFail,
        Note::RenkoStaleWarn,
    );
    let e = d + tally::when(drifts(t), Note::PriceDrift);
    match ahead(t) {
        Some(l) => if l > AHEAD_FAIL_MS {
            e.push(Note::AheadFail)
        } else if l > AHEAD_WARN_MS {
            e.push(Note::AheadWarn)
        } else {
            e
        },
        None => e,
    }
}

/// The worst level among the notes.
pub open spec fn worst_of(notes: Seq<Note>) -> Level
    decreases notes.len(),
{
    if notes.len() == 0 {
        Level::Good
    } else {
        worse(worst_of(notes.drop_last()), note_level(notes.last()))
    }
}

proof fn lemma_worst_push(notes: Seq<Note>, n: Note)
    ensures
        worst_of(notes.push(n)) == worse(worst_of(notes), note_level(n)),
{
    assert(notes.push(n).drop_last() =~= notes);
}

fn level_of(n: Note) -> (l: Level)
    ensures
        l == note_level(n),
{
    match n {
        Note::IdxLagWarn | Note::S10LagWarn | Note::RenkoStaleWarn | Note::PriceDrift
        | Note::AheadWarn => Level::Warn,
        _ => Level::Fail,
    }
}

fn note_tip(
    notes: &mut Vec<Note>,
    now_ms: i64,
    tip: Option<i64>,
    fail_ms: i64,
    warn_ms: i64,
    none: Note,
    fail: Note,
    warn: Note,
)
    ensures
        final(notes)@ == with_tip(
            old(notes)@,
            lag_of(now_ms, tip),
            fail_ms,
            warn_ms,
            none,
            fail,
            warn,
        ),
{
    match tip {
        None => notes.push(none),
        Some(t) => {
            let l = lag(now_ms, t);
            if l > fail_ms {
                notes.push(fail);
            } else if l > warn_ms {
                notes.push(warn);
            }
        },
    }
}

/// Judges the tips of a pair. The status is the worst level among the notes.
pub fn audit_pair(t: &Tips) -> (r: (Level, Vec<Note>))
    ensures
        r.1@ == notes_of(*t),
        r.0 == worst_of(notes_of(*t)),
{
    let mut notes: Vec<Note> = Vec::new();
    note_tip(
        &mut notes,
        t.now_ms,
        t.idx_tip_ms,
        IDX_FAIL_MS,
        IDX_WARN_MS,
        Note::NoIdx,
        Note::IdxLagFail,
        Note::IdxLagWarn,
    );
    note_tip(
        &mut notes,
        t.now_ms,
        t.s10_close_ms,
        S10_FAIL_MS,
        S10_WARN_MS,
        Note::NoS10,
        Note::S10LagFail,
        Note::S10LagWarn,
    );
    let ghost b = notes@;
    let spread_bad = match t.s10_spread_bps {
        Some(s) => !s.is_finite() || !s.is_positive(),
        None => false,
    };
    if spread_bad {
        notes.push(Note::S10Spread);
    }
    assert(notes@ =~= b + tally::when(spread_bad, Note::S10Spread));
    note_tip(
        &mut notes,
        t.now_ms,
        t.renko_close_ms,
        RENKO_STALE_FAIL_MS,
        RENKO_STALE_WARN_MS,
        Note::NoRenko,
        Note::RenkoStaleFail,
        Note::RenkoStaleWarn,
    );
    let ghost d = notes@;
    let drifted = match (t.drift_bps, t.idx_tip_ms) {
        (Some(drift), Some(tip)) => lag(t.now_ms, tip) < IDX_WARN_MS && (Double {
            bits: RENKO_PRICE_DRIFT_BPS,
        }).lt(drift),
        _ => false,
    };
    if drifted {
        notes.push(Note::PriceDrift);
    }
    assert(notes@ =~= d + tally::when(drifted, Note::PriceDrift));
    if let (Some(i), Some(s)) = (t.idx_tip_ms, t.s10_close_ms) {
        let l = lag(i, s);
        if l > AHEAD_FAIL_MS {
            notes.push(Note::AheadFail);
        } else if l > AHEAD_WARN_MS {
            notes.push(Note::AheadWarn);
        }
    }
    let mut status = Level::Good;
    let mut k: usize = 0;
    assert(notes@.take(0) =~= Seq::<Note>::empty());
    while k < notes.len()
        invariant
            k <= notes.len(),
            status == worst_of(notes@.take(k as int)),
        decreases notes.len() - k,
    {
        proof {
            assert(notes@.take(k + 1) =~= notes@.take(k as int).push(notes@[k as int]));
            lemma_worst_push(notes@.take(k as int), notes@[k as int]);
        }
        status = level_max(status, level_of(notes[k]));
        k = k + 1;
    }
    assert(notes@.take(notes.len() as int) =~= notes@);
    (status, notes)
}

/// `x` is among the notes after one more.
proof fn lemma_noted(notes: Seq<Note>, n: Note, x: Note)
    ensures
        tally::among(notes.push(n), x) <==> tally::among(notes, x) || x == n,
{
    assert(notes.push(n) =~= notes + tally::when(true, n));
    tally::lemma_when(notes, true, n, x);
}

proof fn lemma_tip_noted(
    so_far: Seq<Note>,
    lag: Option<int>,
    fail_ms: i64,
    warn_ms: i64,
    none: Note,
    fail: Note,
    warn: Note,
    x: Note,
)
    requires
        warn_ms <= fail_ms,
    ensures
        tally::among(with_tip(so_far, lag, fail_ms, warn_ms, none, fail, warn), x) <==> tally::among(
            so_far,
            x,
        ) || (match lag {
            None => x == none,
            Some(l) => (x == fail && l > fail_ms) || (x == warn && warn_ms < l <= fail_ms),
        }),
{
    lemma_noted(so_far, none, x);
    lemma_noted(so_far, fail, x);
    lemma_noted(so_far, warn, x);
}

/// A tip is older than a limit.
pub open spec fn older(now_ms: i64, tip: Option<i64>, limit: int) -> bool {
    match tip {
        Some(t) => now_ms - t > limit,
        None => false,
    }
}

/// Something is noted exactly if it is so: a tip that is missing or older than its
/// limits, an average spread that is no number above zero, a fresh mid more than fifty
/// basis points from the newest brick, and an index too far ahead of its bars.
pub proof fn notes_tell_what_is_so(t: Tips, x: Note)
    ensures
        tally::among(notes_of(t), x) <==> (match x {
            Note::NoIdx => t.idx_tip_ms is None,
            Note::IdxLagFail => older(t.now_ms, t.idx_tip_ms, 10_000),
            Note::IdxLagWarn => older(t.now_ms, t.idx_tip_ms, 2_000) && !older(
                t.now_ms,
                t.idx_tip_ms,
                10_000,
            ),
            Note::NoS10 => t.s10_close_ms is None,
            Note::S10LagFail => older(t.now_ms, t.s10_close_ms, 30_000),
            Note::S10LagWarn => older(t.now_ms, t.s10_close_ms, 15_000) && !older(
                t.now_ms,
                t.s10_close_ms,
                30_000,
            ),
            Note::S10Spread => t.s10_spread_bps matches Some(s) && !(s.finite() && s.positive()),
            Note::NoRenko => t.renko_close_ms is None,
            Note::RenkoStaleFail => older(t.now_ms, t.renko_close_ms, 600_000),
            Note::RenkoStaleWarn => older(t.now_ms, t.renko_close_ms, 300_000)
                && !older(t.now_ms, t.renko_close_ms, 600_000),
            Note::PriceDrift => t.idx_tip_ms is Some && !older(
                t.now_ms,
                t.idx_tip_ms,
                1_999,
            ) && (t.drift_bps matches Some(d) && (Double { bits: 0x4049_0000_0000_0000 }).below(d)),
            Note::AheadFail => t.s10_close_ms matches Some(s) && (t.idx_tip_ms matches Some(i) && i
                - s > 20_000),
            Note::AheadWarn => t.s10_close_ms matches Some(s) && (t.idx_tip_ms matches Some(i)
                && 12_000 < i - s <= 20_000),
        }),
{
    let none = Seq::<Note>::empty();
    assert(!tally::among(none, x)) by {
        reveal(tally::among);
    }
    let a = with_tip(
        none,
        lag_of(t.now_ms, t.idx_tip_ms),
        IDX_FAIL_MS,
        IDX_WARN_MS,
        Note::NoIdx,
        Note::IdxLagFail,
        Note::IdxLagWarn,
    );
    lemma_tip_noted(
        none,
        lag_of(t.now_ms, t.idx_tip_ms),
        IDX_FAIL_MS,
        IDX_WARN_MS,
        Note::NoIdx,
        Note::IdxLagFail,
        Note::IdxLagWarn,
        x,
    );
    let b = with_tip(
        a,
        lag_of(t.now_ms, t.s10_close_ms),
        S10_FAIL_MS,
        S10_WARN_MS,
        Note::NoS10,
        Note::S10LagFail,
        Note::S10LagWarn,
    );
    lemma_tip_noted(
        a,
        lag_of(t.now_ms, t.s10_close_ms),
        S10_FAIL_MS,
        S10_WARN_MS,
        Note::NoS10,
        Note::S10LagFail,
        Note::S10LagWarn,
        x,
    );
    let spread = t.s10_spread_bps is Some && bad_spread(t.s10_spread_bps->Some_0);
    let c = b + tally::when(spread, Note::S10Spread);
    tally::lemma_when(b, spread, Note::S10Spread, x);
    let d = with_tip(
        c,
        lag_of(t.now_ms, t.renko_close_ms),
        RENKO_STALE_FAIL_MS,
        RENKO_STALE_WARN_MS,
        Note::NoRenko,
        Note::RenkoStaleFail,
        Note::RenkoStaleWarn,
    );
    lemma_tip_noted(
        c,
        lag_of(t.now_ms, t.renko_close_ms),
        RENKO_STALE_FAIL_MS,
        RENKO_STALE_WARN_MS,
        Note::NoRenko,
        Note::RenkoStaleFail,
        Note::RenkoStaleWarn,
        x,
    );
    let e = d + tally::when(drifts(t), Note::PriceDrift);
    tally::lemma_when(d, drifts(t), Note::PriceDrift, x);
    lemma_noted(e, Note::AheadFail, x);
    lemma_noted(e, Note::AheadWarn, x);
}

/// The worst level of notes is that of one of them, and none is worse.
pub proof fn no_note_is_worse(notes: Seq<Note>)
    ensures
        worst_of(notes) == Level::Fail <==> exists|i: int|
            0 <= i < notes.len() && note_level(#[trigger] notes[i]) == Level::Fail,
        worst_of(notes) == Level::Good <==> forall|i: int|
            0 <= i < notes.len() ==> note_level(#[trigger] notes[i]) == Level::Good,
    decreases notes.len(),
{
    if notes.len() > 0 {
        let head = notes.drop_last();
        no_note_is_worse(head);
        let n = notes.len() - 1;
        assert(notes[n] == notes.last());
        if exists|i: int| 0 <= i < head.len() && note_level(#[trigger] head[i]) == Level::Fail {
            let i = choose|i: int| 0 <= i < head.len() && note_level(#[trigger] head[i]) == Level::Fail;
            assert(notes[i] == head[i]);
        }
        assert forall|i: int| 0 <= i < head.len() implies #[trigger] head[i] == notes[i] by {}
        if exists|i: int| 0 <= i < notes.len() && note_level(#[trigger] notes[i]) == Level::Fail {
            let i = choose|i: int|
                0 <= i < notes.len() && note_level(#[trigger] notes[i]) == Level::Fail;
            assert(i < n ==> note_level(head[i]) == Level::Fail);
        }
        if forall|i: int| 0 <= i < notes.len() ==> note_level(#[trigger] notes[i]) == Level::Good {
            assert forall|i: int| 0 <= i < head.len() implies note_level(#[trigger] head[i])
                == Level::Good by {
                assert(notes[i] == head[i]);
            }
        }
    }
}

/// A pair is in order exactly when there is nothing to note.
pub proof fn ok_means_no_notes(t: Tips)
    ensures
        worst_of(notes_of(t)) == Level::Good <==> notes_of(t).len() == 0,
{
    lemma_ok_empty(notes_of(t));
}

proof fn lemma_ok_empty(notes: Seq<Note>)
    ensures
        worst_of(notes) == Level::Good <==> notes.len() == 0,
{
}

/// The newest index record counts as a tip unless it is a heartbeat or its mid is
/// no price.
pub fn idx_tip(ts_ms: i64, sentinel: bool, mid: Double) -> (tip: Option<(i64, Double)>)
    ensures
        tip == if !sentinel && mid.finite() && mid.positive() {
            Some((ts_ms, mid))
        } else {
            None
        },
{
    if !sentinel && mid.is_finite() && mid.is_positive() {
        Some((ts_ms, mid))
    } else {
        None
    }
}

/// Process exit status of an audit.
pub fn exit_status(worst: Level) -> (code: i32)
    ensures
        code == match worst {
            Level::Good => 0i32,
            Level::Warn => 1,
            Level::Fail => 2,
        },
{
    match worst {
        Level::Good => 0,
        Level::Warn => 1,
        Level::Fail => 2,
    }
}

/// How far a tip lags the clock; 0 where there is none.
pub open spec fn behind(now_ms: i64, tip: Option<i64>) -> int {
    match lag_of(now_ms, tip) {
        Some(ms) => ms,
        None => 0,
    }
}

fn behind_ms(now_ms: i64, tip: Option<i64>) -> (d: i64)
    ensures
        d == behind(now_ms, tip),
{
    match tip {
        Some(ts) => lag(now_ms, ts),
        None => 0,
    }
}

/// How far the newest index record is ahead of the newest bar; 0 without either.
pub open spec fn lead(t: Tips) -> int {
    match ahead(t) {
        Some(ms) => ms,
        None => 0,
    }
}

/// A span of time beyond a bound.
pub open spec fn over(what: Seq<char>, ms: int, bound: Seq<char>, limit: int) -> Seq<char> {
    what + text::signed_decimal(ms) + bound + text::signed_decimal(limit) + "ms"@
}

fn over_text(what: &str, ms: i64, bound: &str, limit: i64) -> (s: String)
    ensures
        s@ == over(what@, ms as int, bound@, limit as int),
{
    let mut s: String = what.to_owned();
    s.append(text::signed_i64(ms).as_str());
    s.append(bound);
    s.append(text::signed_i64(limit).as_str());
    s.append("ms");
    s
}

/// How a note is put, with spread and drift as text.
pub open spec fn note_said(n: Note, t: Tips, spread: Seq<char>, drift: Seq<char>) -> Seq<char> {
    let idx = behind(t.now_ms, t.idx_tip_ms);
    let s10 = behind(t.now_ms, t.s10_close_ms);
    let renko = behind(t.now_ms, t.renko_close_ms);
    match n {
        Note::NoIdx => "no idx tip today"@,
        Note::IdxLagFail => over("idx lag "@, idx, "ms > fail "@, IDX_FAIL_MS as int),
        Note::IdxLagWarn => over("idx lag "@, idx, "ms > warn "@, IDX_WARN_MS as int),
        Note::NoS10 => "no s10 tip today"@,
        Note::S10LagFail => over("s10 lag "@, s10, "ms > fail "@, S10_FAIL_MS as int),
        Note::S10LagWarn => over("s10 lag "@, s10, "ms > warn "@, S10_WARN_MS as int),
        Note::S10Spread => "s10 avg_spread_bps invalid ("@ + spread + ")"@,
        Note::NoRenko => "no renko tip today"@,
        Note::RenkoStaleFail => over(
            "renko tip stale "@,
            renko,
            "ms > fail "@,
            RENKO_STALE_FAIL_MS as int,
        ),
        Note::RenkoStaleWarn => over(
            "renko tip stale "@,
            renko,
            "ms > warn "@,
            RENKO_STALE_WARN_MS as int,
        ),
        Note::PriceDrift => "mid vs last renko close "@ + drift
            + "bps > 50bps (awaiting brick cross)"@,
        Note::AheadFail => "idx ahead of s10 by "@ + text::signed_decimal(lead(t))
            + "ms (>20s)"@,
        Note::AheadWarn => "idx ahead of s10 by "@ + text::signed_decimal(lead(t))
            + "ms (>12s)"@,
    }
}

/// How a note is put, with spread and drift as text.
pub fn note_message(n: Note, t: &Tips, spread: &str, drift: &str) -> (s: String)
    ensures
        s@ == note_said(n, *t, spread@, drift@),
{
    let idx: i64 = behind_ms(t.now_ms, t.idx_tip_ms);
    let s10: i64 = behind_ms(t.now_ms, t.s10_close_ms);
    let renko: i64 = behind_ms(t.now_ms, t.renko_close_ms);
    let lead: i64 = match (t.idx_tip_ms, t.s10_close_ms) {
        (Some(a), Some(b)) => lag(a, b),
        _ => 0,
    };
    match n {
        Note::NoIdx => "no idx tip today".to_owned(),
        Note::IdxLagFail => over_text("idx lag ", idx, "ms > fail ", IDX_FAIL_MS),
        Note::IdxLagWarn => over_text("idx lag ", idx, "ms > warn ", IDX_WARN_MS),
        Note::NoS10 => "no s10 tip today".to_owned(),
        Note::S10LagFail => over_text("s10 lag ", s10, "ms > fail ", S10_FAIL_MS),
        Note::S10LagWarn => over_text("s10 lag ", s10, "ms > warn ", S10_WARN_MS),
        Note::S10Spread => {
            let mut s: String = "s10 avg_spread_bps invalid (".to_owned();
            s.append(spread);
            s.append(")");
            s
        },
        Note::NoRenko => "no renko tip today".to_owned(),
        Note::RenkoStaleFail => over_text(
            "renko tip stale ",
            renko,
            "ms > fail ",
            RENKO_STALE_FAIL_MS,
        ),
        Note::RenkoStaleWarn => over_text(
            "renko tip stale ",
            renko,
            "ms > warn ",
            RENKO_STALE_WARN_MS,
        ),
        Note::PriceDrift => {
            let mut s: String = "mid vs last renko close ".to_owned();
            s.append(drift);
            s.append("bps > 50bps (awaiting brick cross)");
            s
        },
        Note::AheadFail => {
            let mut s: String = "idx ahead of s10 by ".to_owned();
            s.append(text::signed_i64(lead).as_str());
            s.append("ms (>20s)");
            s
        },
        Note::AheadWarn => {
            let mut s: String = "idx ahead of s10 by ".to_owned();
            s.append(text::signed_i64(lead).as_str());
            s.append("ms (>12s)");
            s
        },
    }
}

} // verus!
