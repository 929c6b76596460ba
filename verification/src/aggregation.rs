//! Aggregation of provider ticks into bars.
//!
//! Ticks are accumulated by provider. Every cycle the providers with new ticks
//! are flushed, a composite is formed, and bars are cut from the stream of
//! composites: at the ends of time buckets, or where the price leaves a band.
//! The [`Aggregator`] decides what happens when; accumulators and prices are its
//! caller's ([`Ask`]).

use vstd::prelude::*;
use crate::bucket;
use crate::ieee::Double;

verus! {

/// How bars are cut.
#[derive(Clone, Copy, Debug, PartialEq, Eq, Structural)]
pub enum Mode {
    /// At the ends of time buckets; a step that is not positive cuts none.
    Time { step: i64 },
    /// Where the price leaves a band around the last close.
    Band,
}

/// What a cycle belongs to.
#[derive(Clone, Copy, Debug, PartialEq, Eq, Structural)]
pub enum After {
    /// A tick that comes after the cycle.
    Tick { ts: i64, provider: u16 },
    /// The end of the data.
    End,
}

/// What the aggregator is doing.
#[derive(Clone, Copy, Debug, PartialEq, Eq, Structural)]
pub enum Stage {
    Idle,
    /// Providers with new ticks are flushed.
    Flush { now: i64, after: After },
    /// The composite is formed.
    Compose { now: i64, after: After },
    /// The price is held against the band.
    Measure { now: i64, mid: Double, after: After },
    /// The bar of a time bucket is cut.
    CutBucket { now: i64, after: After },
    /// A bar is cut where the price left the band.
    CutBand { now: i64, after: After },
    /// The composite is added to the current bar.
    Ingest { now: i64, after: After },
    /// A tick is held against its provider's other ticks, and accumulated.
    Gate { slot: usize },
    /// The last bar is cut.
    CutTail,
}

/// A question to the caller.
#[derive(Clone, Copy, Debug)]
pub enum Ask {
    /// Flush the providers that are marked; say whether any gave an index.
    FlushSlots { now: i64 },
    /// Form the composite; give its middle price if it is valid.
    Compose { now: i64 },
    /// Say whether the current bar has observations and the price left the band
    /// around the last close.
    Measure { mid: Double, last_close: Double },
    /// Cut the current bar; give its close if it has observations.
    CutBar,
    /// Add the composite to the current bar.
    Ingest { now: i64 },
    /// Accumulate the tick unless it is an outlier; say whether it was taken.
    Gate { slot: usize },
    Nothing,
}

/// The caller's answer.
#[derive(Clone, Copy, Debug)]
pub enum Answer {
    Flushed { any: bool },
    Composed { mid: Option<Double> },
    Measured { left_band: bool },
    Cut { close: Option<Double> },
    Ingested,
    Gated { taken: bool },
}

/// What becomes of a bar that was cut.
#[derive(Clone, Copy, Debug)]
pub struct Verdict {
    pub keep: bool,
    /// Times that the bar is to carry, where they are snapped to the buckets.
    pub span: Option<(i64, i64)>,
}

/// An aggregation, as mathematical values.
pub struct Aggregation {
    pub mode: Mode,
    pub cycle_ms: int,
    /// Providers by ascending number, each with whether it has new ticks.
    pub slots: Seq<(u16, bool)>,
    /// Time of the first tick.
    pub anchor: Option<i64>,
    pub next_cycle: int,
    pub last_tick: int,
    pub bucket_start: int,
    pub last_close: Double,
    pub stage: Stage,
}

pub open spec fn at(a: Aggregation, stage: Stage) -> Aggregation {
    Aggregation { stage, ..a }
}

pub open spec fn any_dirty(slots: Seq<(u16, bool)>) -> bool {
    exists|i: int| 0 <= i < slots.len() && (#[trigger] slots[i]).1
}

/// The slots without marks.
pub open spec fn cleaned(slots: Seq<(u16, bool)>) -> Seq<(u16, bool)> {
    Seq::new(slots.len(), |i: int| (slots[i].0, false))
}

/// Position of a provider among the slots, or where it belongs.
pub open spec fn place(slots: Seq<(u16, bool)>, id: u16) -> int
    decreases slots.len(),
{
    if slots.len() == 0 || slots.last().0 < id {
        slots.len() as int
    } else {
        place(slots.drop_last(), id)
    }
}

pub open spec fn holds(slots: Seq<(u16, bool)>, id: u16) -> bool {
    exists|i: int| 0 <= i < slots.len() && (#[trigger] slots[i]).0 == id
}

/// The slots with a provider among them.
pub open spec fn with_slot(slots: Seq<(u16, bool)>, id: u16) -> Seq<(u16, bool)> {
    if holds(slots, id) {
        slots
    } else {
        slots.insert(place(slots, id), (id, false))
    }
}

/// The first cycle end after a time, counted on from a cycle end at or before it.
pub open spec fn skipped(next_cycle: int, ts: int, cycle_ms: int) -> int {
    next_cycle + ((ts - next_cycle) / cycle_ms + 1) * cycle_ms
}

/// The aggregation at the cycles that end up to a tick: one with new ticks is
/// run; without any, the quiet cycles are skipped at once.
pub open spec fn cycles(a: Aggregation, ts: i64, provider: u16) -> Aggregation {
    if ts >= a.next_cycle && any_dirty(a.slots) {
        at(a, Stage::Flush { now: a.next_cycle as i64, after: After::Tick { ts, provider } })
    } else {
        let slots = with_slot(a.slots, provider);
        Aggregation {
            next_cycle: if ts >= a.next_cycle {
                skipped(a.next_cycle, ts as int, a.cycle_ms)
            } else {
                a.next_cycle
            },
            slots,
            stage: Stage::Gate { slot: place(slots, provider) as usize },
            ..a
        }
    }
}

/// The aggregation once a cycle is over.
pub open spec fn resumed(a: Aggregation, after: After) -> Aggregation {
    match after {
        After::Tick { ts, provider } => cycles(
            Aggregation { next_cycle: a.next_cycle + a.cycle_ms, ..a },
            ts,
            provider,
        ),
        After::End => at(a, Stage::CutTail),
    }
}

/// The aggregation after a valid tick comes in.
pub open spec fn ticked(a: Aggregation, ts: i64, provider: u16) -> Aggregation {
    let anchored = if a.anchor is None {
        Aggregation {
            anchor: Some(ts),
            next_cycle: ts + a.cycle_ms,
            bucket_start: match a.mode {
                Mode::Time { step } => if step > 0 {
                    bucket::start_of(ts, step)
                } else {
                    ts as int
                },
                Mode::Band => a.bucket_start,
            },
            ..a
        }
    } else {
        a
    };
    cycles(Aggregation { last_tick: ts as int, ..anchored }, ts, provider)
}

/// The aggregation once the data ends.
pub open spec fn finished(a: Aggregation) -> Aggregation {
    at(
        a,
        if a.anchor is Some {
            Stage::Flush { now: a.last_tick as i64, after: After::End }
        } else {
            Stage::CutTail
        },
    )
}

/// Whether a bucket ends at or before a time.
pub open spec fn bucket_due(a: Aggregation, now: int) -> bool {
    match a.mode {
        Mode::Time { step } => step > 0 && now >= a.bucket_start + step,
        Mode::Band => false,
    }
}

/// The times of the current bucket.
pub open spec fn bucket_span(a: Aggregation) -> Option<(i64, i64)> {
    match a.mode {
        Mode::Time { step } => if step > 0 {
            Some((a.bucket_start as i64, (a.bucket_start + step) as i64))
        } else {
            None
        },
        Mode::Band => None,
    }
}

/// The aggregation after an answer.
pub open spec fn next(a: Aggregation, e: Answer) -> Aggregation {
    match (a.stage, e) {
        (Stage::Flush { now, after }, Answer::Flushed { any }) => {
            let b = Aggregation { slots: cleaned(a.slots), ..a };
            if any {
                at(b, Stage::Compose { now, after })
            } else {
                resumed(b, after)
            }
        },
        (Stage::Compose { now, after }, Answer::Composed { mid }) => match mid {
            None => resumed(a, after),
            Some(m) => match a.mode {
                Mode::Time { .. } => at(
                    a,
                    if bucket_due(a, now as int) {
                        Stage::CutBucket { now, after }
                    } else {
                        Stage::Ingest { now, after }
                    },
                ),
                Mode::Band => if a.last_close.equals(Double { bits: 0 }) {
                    Aggregation { last_close: m, stage: Stage::Ingest { now, after }, ..a }
                } else {
                    at(a, Stage::Measure { now, mid: m, after })
                },
            },
        },
        (Stage::Measure { now, after, .. }, Answer::Measured { left_band }) => at(
            a,
            if left_band {
                Stage::CutBand { now, after }
            } else {
                Stage::Ingest { now, after }
            },
        ),
        (Stage::CutBucket { now, after }, Answer::Cut { close }) => {
            let b = Aggregation {
                last_close: match close {
                    Some(c) => c,
                    None => a.last_close,
                },
                bucket_start: match a.mode {
                    Mode::Time { step } => a.bucket_start + step,
                    Mode::Band => a.bucket_start,
                },
                ..a
            };
            at(
                b,
                if bucket_due(b, now as int) {
                    Stage::CutBucket { now, after }
                } else {
                    Stage::Ingest { now, after }
                },
            )
        },
        (Stage::CutBand { now, after }, Answer::Cut { close }) => Aggregation {
            last_close: match close {
                Some(c) => if c.positive() {
                    c
                } else {
                    a.last_close
                },
                None => a.last_close,
            },
            stage: Stage::Ingest { now, after },
            ..a
        },
        (Stage::Ingest { after, .. }, Answer::Ingested) => resumed(a, after),
        (Stage::Gate { slot }, Answer::Gated { taken }) => Aggregation {
            slots: if taken {
                a.slots.update(slot as int, (a.slots[slot as int].0, true))
            } else {
                a.slots
            },
            stage: Stage::Idle,
            ..a
        },
        (Stage::CutTail, Answer::Cut { close }) => Aggregation {
            last_close: match close {
                Some(c) => c,
                None => a.last_close,
            },
            stage: Stage::Idle,
            ..a
        },
        _ => a,
    }
}

/// What becomes of a bar that an answer cut.
pub open spec fn verdict(a: Aggregation, e: Answer) -> Verdict {
    match (a.stage, e) {
        (Stage::CutBucket { .. }, Answer::Cut { close }) => Verdict {
            keep: close is Some,
            span: bucket_span(a),
        },
        (Stage::CutBand { .. }, Answer::Cut { close }) => Verdict {
            keep: close matches Some(c) && c.positive(),
            span: None,
        },
        (Stage::CutTail, Answer::Cut { close }) => Verdict {
            keep: close is Some,
            span: bucket_span(a),
        },
        _ => Verdict { keep: false, span: None },
    }
}

/// What is asked.
pub open spec fn question(a: Aggregation) -> Ask {
    match a.stage {
        Stage::Idle => Ask::Nothing,
        Stage::Flush { now, .. } => Ask::FlushSlots { now },
        Stage::Compose { now, .. } => Ask::Compose { now },
        Stage::Measure { mid, .. } => Ask::Measure { mid, last_close: a.last_close },
        Stage::CutBucket { .. } => Ask::CutBar,
        Stage::CutBand { .. } => Ask::CutBar,
        Stage::Ingest { now, .. } => Ask::Ingest { now },
        Stage::Gate { slot } => Ask::Gate { slot },
        Stage::CutTail => Ask::CutBar,
    }
}

pub open spec fn fits(ask: Ask, e: Answer) -> bool {
    match ask {
        Ask::FlushSlots { .. } => e is Flushed,
        Ask::Compose { .. } => e is Composed,
        Ask::Measure { .. } => e is Measured,
        Ask::CutBar => e is Cut,
        Ask::Ingest { .. } => e is Ingested,
        Ask::Gate { .. } => e is Gated,
        Ask::Nothing => false,
    }
}

pub open spec fn in_i64(t: int) -> bool {
    i64::MIN <= t <= i64::MAX
}

/// The end of the first cycle after a tick.
pub open spec fn cycle_end_after(a: Aggregation, ts: i64) -> int {
    if a.anchor is None {
        ts + a.cycle_ms
    } else if ts < a.next_cycle {
        a.next_cycle
    } else {
        skipped(a.next_cycle, ts as int, a.cycle_ms)
    }
}

/// The end of the time bucket of an instant can be told.
pub open spec fn bucket_fits(mode: Mode, ts: int) -> bool {
    mode matches Mode::Time { step } ==> step > 0 ==> bucket::start_of(ts as i64, step) + step
        <= i64::MAX
}

/// The cycle and the bucket of a tick end at times that can be told.
pub open spec fn tick_fits(a: Aggregation, ts: i64) -> bool {
    cycle_end_after(a, ts) <= i64::MAX && bucket_fits(a.mode, ts as int)
}

pub open spec fn ascending(slots: Seq<(u16, bool)>) -> bool {
    forall|i: int, j: int|
        0 <= i < j < slots.len() ==> (#[trigger] slots[i]).0 < (#[trigger] slots[j]).0
}

/// A stage within a cycle: its time, and what it belongs to.
pub open spec fn cycle_of(s: Stage) -> Option<(i64, After)> {
    match s {
        Stage::Flush { now, after } => Some((now, after)),
        Stage::Compose { now, after } => Some((now, after)),
        Stage::Measure { now, after, .. } => Some((now, after)),
        Stage::CutBucket { now, after } => Some((now, after)),
        Stage::CutBand { now, after } => Some((now, after)),
        Stage::Ingest { now, after } => Some((now, after)),
        _ => None,
    }
}

/// Times that can be told, with room for the end of the current bucket and of
/// the cycles up to a tick.
pub open spec fn roomy(a: Aggregation) -> bool {
    &&& told(a)
    &&& cycle_of(a.stage) matches Some(c) ==> {
        &&& a.anchor is Some
        &&& c.0 <= a.last_tick
        &&& c.1 matches After::Tick { ts, .. } ==> a.next_cycle <= ts && a.last_tick == ts
            && skipped(a.next_cycle, ts as int, a.cycle_ms) <= i64::MAX
    }
}

pub open spec fn told(a: Aggregation) -> bool {
    &&& 0 < a.cycle_ms <= i64::MAX
    &&& in_i64(a.next_cycle)
    &&& in_i64(a.last_tick)
    &&& in_i64(a.bucket_start)
    &&& a.mode matches Mode::Time { step } ==> step > 0 ==> a.bucket_start + step <= i64::MAX
    &&& a.anchor is Some ==> bucket_fits(a.mode, a.last_tick)
}

/// Cycles end a whole number of cycles after the first tick.
pub open spec fn on_cycle(a: Aggregation) -> bool {
    a.anchor matches Some(t) ==> (a.next_cycle - t) % a.cycle_ms == 0
}

/// Time buckets start at whole multiples of the step.
pub open spec fn on_step(a: Aggregation) -> bool {
    a.anchor is Some ==> (a.mode matches Mode::Time { step } ==> step > 0 ==> a.bucket_start
        % step as int == 0)
}

/// What holds of every aggregation.
pub open spec fn sound(a: Aggregation) -> bool {
    &&& roomy(a)
    &&& ascending(a.slots)
    &&& on_cycle(a)
    &&& on_step(a)
    &&& a.stage matches Stage::Gate { slot } ==> slot < a.slots.len()
    &&& a.stage matches Stage::CutBucket { now, .. } ==> bucket_due(a, now as int)
    &&& a.anchor is Some && !for_tick(a.stage) ==> a.last_tick < a.next_cycle
}

/// A stage of a cycle that a tick waits for.
pub open spec fn for_tick(s: Stage) -> bool {
    cycle_of(s) matches Some(c) && c.1 is Tick
}

proof fn lemma_place(slots: Seq<(u16, bool)>, id: u16)
    requires
        ascending(slots),
    ensures
        0 <= place(slots, id) <= slots.len(),
        forall|i: int| 0 <= i < place(slots, id) ==> (#[trigger] slots[i]).0 < id,
        forall|i: int| place(slots, id) <= i < slots.len() ==> (#[trigger] slots[i]).0 >= id,
    decreases slots.len(),
{
    if slots.len() > 0 {
        let d = slots.drop_last();
        if slots.last().0 < id {
            assert forall|i: int| 0 <= i < slots.len() implies (#[trigger] slots[i]).0 < id by {
                if i < slots.len() - 1 {
                    assert(slots[i].0 < slots[slots.len() - 1].0);
                }
            }
        } else {
            assert(ascending(d)) by {
                assert forall|i: int, j: int| 0 <= i < j < d.len() implies (#[trigger] d[i]).0 < (
                #[trigger] d[j]).0 by {
                    assert(slots[i].0 < slots[j].0);
                }
            }
            lemma_place(d, id);
            assert forall|i: int| place(d, id) <= i < slots.len() implies (#[trigger] slots[i]).0
                >= id by {
                if i < d.len() {
                    assert(d[i] == slots[i]);
                }
            }
            assert forall|i: int| 0 <= i < place(d, id) implies (#[trigger] slots[i]).0 < id by {
                assert(d[i] == slots[i]);
            }
        }
    }
}

proof fn lemma_with_slot(slots: Seq<(u16, bool)>, id: u16)
    requires
        ascending(slots),
    ensures
        ascending(with_slot(slots, id)),
        0 <= place(with_slot(slots, id), id) < with_slot(slots, id).len(),
        with_slot(slots, id)[place(with_slot(slots, id), id)].0 == id,
{
    lemma_place(slots, id);
    let p = place(slots, id);
    let after = with_slot(slots, id);
    if holds(slots, id) {
        let i = choose|i: int| 0 <= i < slots.len() && (#[trigger] slots[i]).0 == id;
        assert(slots[i].0 == id);
        assert(p <= i);
        if p < i {
            assert(slots[p].0 < slots[i].0);
        }
    } else {
        assert forall|i: int, j: int| 0 <= i < j < after.len() implies (#[trigger] after[i]).0 < (
        #[trigger] after[j]).0 by {
            if i < p && j > p {
                assert(slots[i].0 < slots[j - 1].0);
            } else if j < p {
                assert(slots[i].0 < slots[j].0);
            } else if i > p {
                assert(slots[i - 1].0 < slots[j - 1].0);
            } else if i == p {
                assert(after[j] == slots[j - 1]);
                assert(slots[j - 1].0 >= id);
                assert(slots[j - 1].0 != id);
            } else {
                assert(after[i] == slots[i]);
            }
        }
        lemma_place(after, id);
        let q = place(after, id);
        assert(after[p].0 == id);
        if q < p {
            assert(after[q].0 < after[p].0);
        } else if q > p {
            assert(after[p].0 < id);
        }
    }
}

proof fn lemma_skipped(next_cycle: int, ts: int, cycle_ms: int, anchor: int)
    requires
        cycle_ms > 0,
        ts >= next_cycle,
        (next_cycle - anchor) % cycle_ms == 0,
    ensures
        ts < skipped(next_cycle, ts, cycle_ms) <= ts + cycle_ms,
        (skipped(next_cycle, ts, cycle_ms) - anchor) % cycle_ms == 0,
        next_cycle + cycle_ms <= skipped(next_cycle, ts, cycle_ms),
        next_cycle + cycle_ms <= ts ==> skipped(next_cycle + cycle_ms, ts, cycle_ms) == skipped(
            next_cycle,
            ts,
            cycle_ms,
        ),
{
    let d = ts - next_cycle;
    let q = d / cycle_ms;
    vstd::arithmetic::div_mod::lemma_fundamental_div_mod(d, cycle_ms);
    vstd::arithmetic::div_mod::lemma_mod_bound(d, cycle_ms);
    assert((q + 1) * cycle_ms == cycle_ms * q + cycle_ms) by (nonlinear_arith);
    vstd::arithmetic::div_mod::lemma_mod_multiples_vanish(q + 1, next_cycle - anchor, cycle_ms);
    assert(cycle_ms * (q + 1) == (q + 1) * cycle_ms) by (nonlinear_arith);
    vstd::arithmetic::div_mod::lemma_div_pos_is_pos(d, cycle_ms);
    assert(cycle_ms <= (q + 1) * cycle_ms) by (nonlinear_arith)
        requires
            0 <= q,
            0 < cycle_ms,
    ;
    if next_cycle + cycle_ms <= ts {
        vstd::arithmetic::div_mod::lemma_div_minus_one(d, cycle_ms);
        assert((d - cycle_ms) / cycle_ms == q - 1) by {
            vstd::arithmetic::div_mod::lemma_div_multiples_vanish_fancy(
                q - 1,
                d % cycle_ms,
                cycle_ms,
            );
            assert(cycle_ms * (q - 1) == cycle_ms * q - cycle_ms) by (nonlinear_arith);
        }
        assert(q * cycle_ms + cycle_ms == (q + 1) * cycle_ms) by (nonlinear_arith);
    }
}

proof fn lemma_next_cycle(next_cycle: int, cycle_ms: int, anchor: int)
    requires
        cycle_ms > 0,
        (next_cycle - anchor) % cycle_ms == 0,
    ensures
        (next_cycle + cycle_ms - anchor) % cycle_ms == 0,
{
    vstd::arithmetic::div_mod::lemma_mod_multiples_vanish(1, next_cycle - anchor, cycle_ms);
}

/// Sound but for the stage, which is about to be set.
spec fn sound_but_stage(a: Aggregation) -> bool {
    &&& told(a)
    &&& ascending(a.slots)
    &&& on_cycle(a)
    &&& on_step(a)
    &&& a.anchor is Some
}

proof fn lemma_cycles(a: Aggregation, ts: i64, provider: u16)
    requires
        sound_but_stage(a),
        a.last_tick == ts,
        cycle_end_after(a, ts) <= i64::MAX,
    ensures
        sound(cycles(a, ts, provider)),
{
    if ts >= a.next_cycle {
        lemma_skipped(a.next_cycle, ts as int, a.cycle_ms, a.anchor->0 as int);
    }
    if !(ts >= a.next_cycle && any_dirty(a.slots)) {
        lemma_with_slot(a.slots, provider);
    }
}

proof fn lemma_resumed(a: Aggregation, after: After)
    requires
        sound_but_stage(a),
        after matches After::Tick { ts, .. } ==> a.next_cycle <= ts && a.last_tick == ts && skipped(
            a.next_cycle,
            ts as int,
            a.cycle_ms,
        ) <= i64::MAX,
        after is End ==> a.last_tick < a.next_cycle,
    ensures
        sound(resumed(a, after)),
{
    match after {
        After::Tick { ts, provider } => {
            lemma_next_cycle(a.next_cycle, a.cycle_ms, a.anchor->0 as int);
            lemma_skipped(a.next_cycle, ts as int, a.cycle_ms, a.anchor->0 as int);
            lemma_cycles(
                Aggregation { next_cycle: a.next_cycle + a.cycle_ms, ..a },
                ts,
                provider,
            );
        },
        After::End => {},
    }
}

proof fn lemma_start(ts: i64, step: i64)
    requires
        step > 0,
    ensures
        bucket::start_of(ts, step) % step as int == 0,
        in_i64(bucket::start_of(ts, step)),
{
    let m = if ts >= 0 {
        ts as int
    } else {
        -ts as int
    };
    let q = m / step as int;
    vstd::arithmetic::div_mod::lemma_fundamental_div_mod(m, step as int);
    vstd::arithmetic::div_mod::lemma_mod_bound(m, step as int);
    vstd::arithmetic::div_mod::lemma_div_pos_is_pos(m, step as int);
    assert(0 <= q * step <= m) by (nonlinear_arith)
        requires
            m == step * q + m % step as int,
            0 <= m % step as int,
            0 <= q,
            step > 0,
    ;
    vstd::arithmetic::div_mod::lemma_mod_multiples_basic(q, step as int);
    vstd::arithmetic::div_mod::lemma_mod_multiples_basic(-q, step as int);
    assert((-q) * step == -(q * step)) by (nonlinear_arith);
}

/// The bucket of an instant starts at or after every grid time up to it.
proof fn lemma_grid(x: int, ts: i64, step: i64)
    requires
        step > 0,
        x % step as int == 0,
        x <= ts,
    ensures
        x <= bucket::start_of(ts, step),
{
    let s = step as int;
    let m = if ts >= 0 {
        ts as int
    } else {
        -ts as int
    };
    let q = m / s;
    vstd::arithmetic::div_mod::lemma_fundamental_div_mod(m, s);
    vstd::arithmetic::div_mod::lemma_mod_bound(m, s);
    assert(s * q == q * s) by (nonlinear_arith);
    if ts >= 0 {
        let k = x / s;
        vstd::arithmetic::div_mod::lemma_fundamental_div_mod(x, s);
        assert(k <= q) by (nonlinear_arith)
            requires
                s * k <= m,
                m < s * q + s,
                s > 0,
        ;
        assert(s * k <= q * s) by (nonlinear_arith)
            requires
                k <= q,
                s > 0,
        ;
    }
}

/// A tick keeps an aggregation sound.
pub proof fn ticks_keep_aggregations_sound(a: Aggregation, ts: i64, provider: u16)
    requires
        sound(a),
        a.stage is Idle,
        tick_fits(a, ts),
    ensures
        sound(ticked(a, ts, provider)),
{
    if a.anchor is None {
        match a.mode {
            Mode::Time { step } => {
                if step > 0 {
                    lemma_start(ts, step);
                }
            },
            Mode::Band => {},
        }
        assert((ts + a.cycle_ms - ts) % a.cycle_ms == 0) by {
            vstd::arithmetic::div_mod::lemma_mod_self_0(a.cycle_ms);
        }
    }
    let anchored = if a.anchor is None {
        Aggregation {
            anchor: Some(ts),
            next_cycle: ts + a.cycle_ms,
            bucket_start: match a.mode {
                Mode::Time { step } => if step > 0 {
                    bucket::start_of(ts, step)
                } else {
                    ts as int
                },
                Mode::Band => a.bucket_start,
            },
            ..a
        }
    } else {
        a
    };
    lemma_cycles(Aggregation { last_tick: ts as int, ..anchored }, ts, provider);
}

proof fn lemma_cleaned(slots: Seq<(u16, bool)>)
    requires
        ascending(slots),
    ensures
        ascending(cleaned(slots)),
{
    let c = cleaned(slots);
    assert forall|i: int, j: int| 0 <= i < j < c.len() implies (#[trigger] c[i]).0 < (
    #[trigger] c[j]).0 by {
        assert(slots[i].0 < slots[j].0);
    }
}

proof fn lemma_cut_bucket(a: Aggregation, now: i64, after: After, close: Option<Double>)
    requires
        sound(a),
        a.stage == (Stage::CutBucket { now, after }),
    ensures
        sound(next(a, Answer::Cut { close })),
{
    match a.mode {
        Mode::Time { step } => {
            vstd::arithmetic::div_mod::lemma_mod_multiples_vanish(1, a.bucket_start, step as int);
            lemma_grid(a.bucket_start + step, a.last_tick as i64, step);
        },
        Mode::Band => {},
    }
}

/// An answer keeps an aggregation sound.
pub proof fn answers_keep_aggregations_sound(a: Aggregation, e: Answer)
    requires
        sound(a),
    ensures
        sound(next(a, e)),
{
    match (a.stage, e) {
        (Stage::Flush { after, .. }, Answer::Flushed { any }) => {
            lemma_cleaned(a.slots);
            let b = Aggregation { slots: cleaned(a.slots), ..a };
            if !any {
                lemma_resumed(b, after);
            }
        },
        (Stage::Compose { after, .. }, Answer::Composed { mid }) => {
            if mid is None {
                lemma_resumed(a, after);
            }
        },
        (Stage::CutBucket { now, after }, Answer::Cut { close }) => {
            lemma_cut_bucket(a, now, after, close);
        },
        (Stage::Ingest { after, .. }, Answer::Ingested) => {
            lemma_resumed(a, after);
        },
        (Stage::Gate { slot }, Answer::Gated { taken }) => {
            let b = next(a, e).slots;
            assert forall|i: int, j: int| 0 <= i < j < b.len() implies (#[trigger] b[i]).0 < (
            #[trigger] b[j]).0 by {
                assert(a.slots[i].0 < a.slots[j].0);
            }
        },
        _ => {},
    }
}

fn skip_end(next_cycle: i64, ts: i64, cycle_ms: i64) -> (end: i128)
    requires
        cycle_ms > 0,
        ts >= next_cycle,
    ensures
        end == skipped(next_cycle as int, ts as int, cycle_ms as int),
{
    proof {
        vstd::arithmetic::div_mod::lemma_small_mod(0, cycle_ms as nat);
        lemma_skipped(next_cycle as int, ts as int, cycle_ms as int, next_cycle as int);
        let d = ts - next_cycle;
        vstd::arithmetic::div_mod::lemma_div_pos_is_pos(d, cycle_ms as int);
        vstd::arithmetic::div_mod::lemma_div_is_ordered_by_denominator(d, 1, cycle_ms as int);
        vstd::arithmetic::div_mod::lemma_div_basics(d);
    }
    let over: i128 = (ts as i128 - next_cycle as i128) / (cycle_ms as i128) + 1;
    next_cycle as i128 + over * (cycle_ms as i128)
}

fn skip_to(next_cycle: i64, ts: i64, cycle_ms: i64) -> (end: i64)
    requires
        cycle_ms > 0,
        ts >= next_cycle,
        skipped(next_cycle as int, ts as int, cycle_ms as int) <= i64::MAX,
    ensures
        end == skipped(next_cycle as int, ts as int, cycle_ms as int),
{
    proof {
        vstd::arithmetic::div_mod::lemma_small_mod(0, cycle_ms as nat);
        lemma_skipped(next_cycle as int, ts as int, cycle_ms as int, next_cycle as int);
    }
    skip_end(next_cycle, ts, cycle_ms) as i64
}

/// Aggregates ticks of several providers into bars.
#[derive(Debug)]
pub struct Aggregator {
    mode: Mode,
    cycle_ms: i64,
    slots: Vec<(u16, bool)>,
    anchor: Option<i64>,
    next_cycle: i64,
    last_tick: i64,
    bucket_start: i64,
    last_close: Double,
    stage: Stage,
}

impl View for Aggregator {
    type V = Aggregation;

    closed spec fn view(&self) -> Aggregation {
        Aggregation {
            mode: self.mode,
            cycle_ms: self.cycle_ms as int,
            slots: self.slots@,
            anchor: self.anchor,
            next_cycle: self.next_cycle as int,
            last_tick: self.last_tick as int,
            bucket_start: self.bucket_start as int,
            last_close: self.last_close,
            stage: self.stage,
        }
    }
}

impl Aggregator {
    /// An aggregator that has seen no tick.
    pub fn new(mode: Mode, cycle_ms: i64) -> (r: Aggregator)
        requires
            cycle_ms > 0,
        ensures
            sound(r@),
            r@ == (Aggregation {
                mode,
                cycle_ms: cycle_ms as int,
                slots: Seq::empty(),
                anchor: None,
                next_cycle: -1,
                last_tick: -1,
                bucket_start: -1,
                last_close: Double { bits: 0 },
                stage: Stage::Idle,
            }),
    {
        Aggregator {
            mode,
            cycle_ms,
            slots: Vec::new(),
            anchor: None,
            next_cycle: -1,
            last_tick: -1,
            bucket_start: -1,
            last_close: Double::from_bits(0),
            stage: Stage::Idle,
        }
    }

    /// What to answer next.
    pub fn ask(&self) -> (a: Ask)
        ensures
            a == question(self@),
    {
        match self.stage {
            Stage::Idle => Ask::Nothing,
            Stage::Flush { now, .. } => Ask::FlushSlots { now },
            Stage::Compose { now, .. } => Ask::Compose { now },
            Stage::Measure { mid, .. } => Ask::Measure { mid, last_close: self.last_close },
            Stage::CutBucket { .. } => Ask::CutBar,
            Stage::CutBand { .. } => Ask::CutBar,
            Stage::Ingest { now, .. } => Ask::Ingest { now },
            Stage::Gate { slot } => Ask::Gate { slot },
            Stage::CutTail => Ask::CutBar,
        }
    }

    /// The providers, by ascending number, each with whether it has new ticks.
    pub fn providers(&self) -> (v: Vec<(u16, bool)>)
        ensures
            v@ == self@.slots,
    {
        let mut v: Vec<(u16, bool)> = Vec::new();
        let mut i: usize = 0;
        while i < self.slots.len()
            invariant
                i <= self.slots.len(),
                v@ == self.slots@.take(i as int),
            decreases self.slots.len() - i,
        {
            v.push(self.slots[i]);
            i = i + 1;
        }
        assert(v@ =~= self.slots@);
        v
    }

    fn has_dirty(&self) -> (b: bool)
        ensures
            b == any_dirty(self@.slots),
    {
        let mut i: usize = 0;
        while i < self.slots.len()
            invariant
                i <= self.slots.len(),
                forall|k: int| 0 <= k < i ==> !(#[trigger] self.slots@[k]).1,
            decreases self.slots.len() - i,
        {
            if self.slots[i].1 {
                assert(self.slots@[i as int].1);
                return true;
            }
            i = i + 1;
        }
        false
    }

    /// Position of a provider, which is added in its place if it is new.
    fn slot_mut(&mut self, id: u16) -> (at: usize)
        requires
            ascending(old(self)@.slots),
        ensures
            final(self)@ == (Aggregation { slots: with_slot(old(self)@.slots, id), ..old(self)@ }),
            at == place(with_slot(old(self)@.slots, id), id),
    {
        let n: usize = self.slots.len();
        let mut p: usize = 0;
        while p < n && self.slots[p].0 < id
            invariant
                p <= n,
                n == self.slots.len(),
                self == old(self),
                forall|k: int| 0 <= k < p ==> (#[trigger] self.slots@[k]).0 < id,
            ensures
                p <= n,
                n == self.slots.len(),
                self == old(self),
                forall|k: int| 0 <= k < p ==> (#[trigger] self.slots@[k]).0 < id,
                p < n ==> self.slots@[p as int].0 >= id,
            decreases n - p,
        {
            p = p + 1;
        }
        proof {
            lemma_place(self.slots@, id);
            lemma_with_slot(self.slots@, id);
            let q = place(self.slots@, id);
            if p < q {
                assert(self.slots@[p as int].0 < id);
            } else if q < p {
                assert(self.slots@[q].0 < id);
            }
            assert(p == q);
        }
        if p < n && self.slots[p].0 == id {
            assert(self.slots@[p as int].0 == id);
            p
        } else {
            proof {
                if holds(self.slots@, id) {
                    let i = choose|i: int|
                        0 <= i < self.slots.len() && (#[trigger] self.slots@[i]).0 == id;
                    assert(self.slots@[i].0 == id);
                    if i > p {
                        assert(self.slots@[p as int].0 < self.slots@[i].0);
                    }
                }
            }
            let ghost was = self.slots@;
            self.slots.insert(p, (id, false));
            proof {
                let after = with_slot(was, id);
                lemma_place(after, id);
                let q = place(after, id);
                assert(after[p as int].0 == id);
                if q < p {
                    assert(after[q].0 < after[p as int].0);
                }
            }
            p
        }
    }

    fn run_cycles(&mut self, ts: i64, provider: u16)
        requires
            sound_but_stage(old(self)@),
            old(self)@.last_tick == ts,
            cycle_end_after(old(self)@, ts) <= i64::MAX,
        ensures
            final(self)@ == cycles(old(self)@, ts, provider),
            sound(final(self)@),
    {
        proof {
            lemma_cycles(self@, ts, provider);
            lemma_with_slot(self.slots@, provider);
        }
        if ts >= self.next_cycle && self.has_dirty() {
            self.stage = Stage::Flush {
                now: self.next_cycle,
                after: After::Tick { ts, provider },
            };
            return ;
        }
        if ts >= self.next_cycle {
            proof {
                lemma_skipped(
                    self.next_cycle as int,
                    ts as int,
                    self.cycle_ms as int,
                    self.anchor->0 as int,
                );
            }
            self.next_cycle = skip_to(self.next_cycle, ts, self.cycle_ms);
        }
        let slot: usize = self.slot_mut(provider);
        self.stage = Stage::Gate { slot };
    }

    fn resume(&mut self, after: After)
        requires
            sound_but_stage(old(self)@),
            after matches After::Tick { ts, .. } ==> old(self)@.next_cycle <= ts
                && old(self)@.last_tick == ts && skipped(
                old(self)@.next_cycle,
                ts as int,
                old(self)@.cycle_ms,
            ) <= i64::MAX,
            after is End ==> old(self)@.last_tick < old(self)@.next_cycle,
        ensures
            final(self)@ == resumed(old(self)@, after),
            sound(final(self)@),
    {
        proof {
            lemma_resumed(self@, after);
        }
        match after {
            After::Tick { ts, provider } => {
                proof {
                    lemma_next_cycle(
                        self.next_cycle as int,
                        self.cycle_ms as int,
                        self.anchor->0 as int,
                    );
                    lemma_skipped(
                        self.next_cycle as int,
                        ts as int,
                        self.cycle_ms as int,
                        self.anchor->0 as int,
                    );
                }
                self.next_cycle = self.next_cycle + self.cycle_ms;
                self.run_cycles(ts, provider);
            },
            After::End => {
                self.stage = Stage::CutTail;
            },
        }
    }

    /// Whether a tick can be taken: its cycle and its bucket end at times that can
    /// be told.
    pub fn admits(&self, ts: i64) -> (b: bool)
        requires
            sound(self@),
        ensures
            b == tick_fits(self@, ts),
    {
        let end: i128 = match self.anchor {
            None => ts as i128 + self.cycle_ms as i128,
            Some(t) => if ts < self.next_cycle {
                self.next_cycle as i128
            } else {
                skip_end(self.next_cycle, ts, self.cycle_ms)
            },
        };
        let bucket_end: i128 = match self.mode {
            Mode::Time { step } => if step > 0 {
                bucket::bucket_start(ts, step) as i128 + step as i128
            } else {
                0
            },
            Mode::Band => 0,
        };
        end <= i64::MAX as i128 && bucket_end <= i64::MAX as i128
    }

    /// Takes a tick; one that is not valid is passed over.
    pub fn process_ticks(&mut self, valid: bool, ts: i64, provider: u16)
        requires
            sound(old(self)@),
            old(self)@.stage is Idle,
            valid ==> tick_fits(old(self)@, ts),
        ensures
            sound(final(self)@),
            final(self)@ == (if valid {
                ticked(old(self)@, ts, provider)
            } else {
                old(self)@
            }),
    {
        if !valid {
            return ;
        }
        let ghost was = self@;
        match self.anchor {
            None => {
                self.anchor = Some(ts);
                self.next_cycle = ts + self.cycle_ms;
                match self.mode {
                    Mode::Time { step } => {
                        if step > 0 {
                            proof {
                                lemma_start(ts, step);
                            }
                            self.bucket_start = bucket::bucket_start(ts, step);
                        } else {
                            self.bucket_start = ts;
                        }
                    },
                    Mode::Band => {},
                }
                proof {
                    vstd::arithmetic::div_mod::lemma_mod_self_0(self.cycle_ms as int);
                }
            },
            Some(_) => {},
        }
        self.last_tick = ts;
        self.run_cycles(ts, provider);
    }

    /// Ends the data: a last cycle at the time of the last tick, and then the
    /// last bar.
    pub fn finalize(&mut self)
        requires
            sound(old(self)@),
            old(self)@.stage is Idle,
        ensures
            sound(final(self)@),
            final(self)@ == at(
                old(self)@,
                if old(self)@.anchor is Some {
                    Stage::Flush { now: old(self)@.last_tick as i64, after: After::End }
                } else {
                    Stage::CutTail
                },
            ),
            final(self)@ == finished(old(self)@),
    {
        self.stage = match self.anchor {
            Some(_) => Stage::Flush { now: self.last_tick, after: After::End },
            None => Stage::CutTail,
        };
    }

    fn is_due(&self, now: i64) -> (b: bool)
        requires
            roomy(self@),
        ensures
            b == bucket_due(self@, now as int),
    {
        match self.mode {
            Mode::Time { step } => step > 0 && now >= self.bucket_start + step,
            Mode::Band => false,
        }
    }

    fn span(&self) -> (s: Option<(i64, i64)>)
        requires
            roomy(self@),
        ensures
            s == bucket_span(self@),
    {
        match self.mode {
            Mode::Time { step } => if step > 0 {
                Some((self.bucket_start, self.bucket_start + step))
            } else {
                None
            },
            Mode::Band => None,
        }
    }

    fn clean(&mut self)
        ensures
            final(self)@ == (Aggregation { slots: cleaned(old(self)@.slots), ..old(self)@ }),
    {
        let mut v: Vec<(u16, bool)> = Vec::new();
        let mut i: usize = 0;
        while i < self.slots.len()
            invariant
                i <= self.slots.len(),
                self == old(self),
                v@ == cleaned(self.slots@).take(i as int),
            decreases self.slots.len() - i,
        {
            v.push((self.slots[i].0, false));
            i = i + 1;
        }
        assert(v@ =~= cleaned(self.slots@));
        self.slots = v;
    }

    fn take_composite(&mut self, now: i64, after: After, mid: Option<Double>)
        requires
            sound(old(self)@),
            old(self)@.stage == (Stage::Compose { now, after }),
        ensures
            sound(final(self)@),
            final(self)@ == next(old(self)@, Answer::Composed { mid }),
    {
        proof {
            answers_keep_aggregations_sound(self@, Answer::Composed { mid });
        }
        match mid {
            None => self.resume(after),
            Some(m) => match self.mode {
                Mode::Time { .. } => {
                    self.stage = if self.is_due(now) {
                        Stage::CutBucket { now, after }
                    } else {
                        Stage::Ingest { now, after }
                    };
                },
                Mode::Band => {
                    if self.last_close.num_eq(Double::from_bits(0)) {
                        self.last_close = m;
                        self.stage = Stage::Ingest { now, after };
                    } else {
                        self.stage = Stage::Measure { now, mid: m, after };
                    }
                },
            },
        }
    }

    fn take_bucket(&mut self, now: i64, after: After, close: Option<Double>) -> (v: Verdict)
        requires
            sound(old(self)@),
            old(self)@.stage == (Stage::CutBucket { now, after }),
        ensures
            sound(final(self)@),
            final(self)@ == next(old(self)@, Answer::Cut { close }),
            v == verdict(old(self)@, Answer::Cut { close }),
    {
        proof {
            lemma_cut_bucket(self@, now, after, close);
        }
        let v = Verdict { keep: close.is_some(), span: self.span() };
        match close {
            Some(c) => {
                self.last_close = c;
            },
            None => {},
        }
        match self.mode {
            Mode::Time { step } => {
                self.bucket_start = self.bucket_start + step;
            },
            Mode::Band => {},
        }
        self.stage = if self.is_due(now) {
            Stage::CutBucket { now, after }
        } else {
            Stage::Ingest { now, after }
        };
        v
    }

    /// Takes an answer, and says what becomes of the bar that it cut; an answer
    /// that was not asked for changes nothing.
    pub fn answer(&mut self, e: Answer) -> (v: Verdict)
        requires
            sound(old(self)@),
        ensures
            sound(final(self)@),
            final(self)@ == next(old(self)@, e),
            v == verdict(old(self)@, e),
    {
        proof {
            answers_keep_aggregations_sound(self@, e);
        }
        let none = Verdict { keep: false, span: None };
        match (self.stage, e) {
            (Stage::Flush { now, after }, Answer::Flushed { any }) => {
                proof {
                    lemma_cleaned(self.slots@);
                }
                self.clean();
                if any {
                    self.stage = Stage::Compose { now, after };
                } else {
                    self.resume(after);
                }
                none
            },
            (Stage::Compose { now, after }, Answer::Composed { mid }) => {
                self.take_composite(now, after, mid);
                none
            },
            (Stage::Measure { now, after, .. }, Answer::Measured { left_band }) => {
                self.stage = if left_band {
                    Stage::CutBand { now, after }
                } else {
                    Stage::Ingest { now, after }
                };
                none
            },
            (Stage::CutBucket { now, after }, Answer::Cut { close }) => self.take_bucket(
                now,
                after,
                close,
            ),
            (Stage::CutBand { now, after }, Answer::Cut { close }) => {
                let mut keep = false;
                match close {
                    Some(c) => {
                        if c.is_positive() {
                            self.last_close = c;
                            keep = true;
                        }
                    },
                    None => {},
                }
                self.stage = Stage::Ingest { now, after };
                Verdict { keep, span: None }
            },
            (Stage::Ingest { after, .. }, Answer::Ingested) => {
                self.resume(after);
                none
            },
            (Stage::Gate { slot }, Answer::Gated { taken }) => {
                if taken {
                    let id: u16 = self.slots[slot].0;
                    self.slots.set(slot, (id, true));
                }
                self.stage = Stage::Idle;
                none
            },
            (Stage::CutTail, Answer::Cut { close }) => {
                let v = Verdict { keep: close.is_some(), span: self.span() };
                match close {
                    Some(c) => {
                        self.last_close = c;
                    },
                    None => {},
                }
                self.stage = Stage::Idle;
                v
            },
            _ => none,
        }
    }
}

/// A bar of a time bucket spans exactly one step, from a whole multiple of it on.
pub proof fn bucket_bars_lie_on_the_grid(a: Aggregation, e: Answer)
    requires
        sound(a),
        a.anchor is Some,
    ensures
        verdict(a, e).span matches Some(s) ==> {
            &&& a.mode is Time
            &&& s.1 - s.0 == a.mode->step
            &&& s.0 as int % a.mode->step as int == 0
        },
{
}

/// A bar that is kept leaves its close as the last close. Where the price left the
/// band, the bar is kept exactly if it closes above zero; elsewhere exactly if it has
/// observations. Nothing else moves the last close but the first composite of a band.
pub proof fn kept_bars_set_the_last_close(a: Aggregation, e: Answer)
    ensures
        verdict(a, e).keep ==> question(a) is CutBar && (e matches Answer::Cut { close: Some(c) }
            && next(a, e).last_close == c),
        a.stage is CutBand ==> (e matches Answer::Cut { close: Some(c) } ==> c.positive()
            ==> verdict(a, e).keep),
        a.stage is CutBand && verdict(a, e).keep ==> next(a, e).last_close.positive(),
        a.stage is CutBucket || a.stage is CutTail ==> (e matches Answer::Cut { close: Some(_) }
            ==> verdict(a, e).keep),
        !verdict(a, e).keep && next(a, e).last_close != a.last_close ==> a.mode is Band
            && a.last_close.equals(Double { bits: 0 }) && (e matches Answer::Composed {
            mid: Some(m),
        } && next(a, e).last_close == m),
{
}

/// The price of a composite is held against the band around the last close before
/// anything else, unless there is none yet; and the composite is added to the current
/// bar in its own cycle, after the bar that it ends was cut.
pub proof fn composites_are_measured_and_ingested(
    a: Aggregation,
    now: i64,
    after: After,
    mid: Double,
    left_band: bool,
    close: Option<Double>,
)
    requires
        a.stage == (Stage::Compose { now, after }),
        a.mode is Band,
        !a.last_close.equals(Double { bits: 0 }),
    ensures
        ({
            let m = next(a, Answer::Composed { mid: Some(mid) });
            let b = next(m, Answer::Measured { left_band });
            let c = next(b, Answer::Cut { close });
            &&& question(a) == (Ask::Compose { now })
            &&& question(m) == (Ask::Measure { mid, last_close: a.last_close })
            &&& !left_band ==> question(b) == (Ask::Ingest { now })
            &&& left_band ==> question(b) is CutBar && question(c) == (Ask::Ingest { now })
        }),
{
}

/// A cycle is over only once its composite was added to the current bar, or where no
/// provider gave an index or no composite is valid. Until that it keeps its time and
/// what it belongs to.
pub proof fn cycles_end_with_their_composite(a: Aggregation, e: Answer)
    ensures
        cycle_of(a.stage) is Some && cycle_of(next(a, e).stage) != cycle_of(a.stage) ==> {
            ||| question(a) is FlushSlots && e == (Answer::Flushed { any: false })
            ||| question(a) is Compose && e == (Answer::Composed { mid: None })
            ||| question(a) is Ingest && e is Ingested
        },
        question(a) is FlushSlots && e == (Answer::Flushed { any: true }) ==> question(
            next(a, e),
        ) is Compose,
{
}

/// Time buckets follow each other: the bar that is cut spans the current bucket, and
/// the bucket after it starts where that one ends. A composite is added only once
/// every bucket that ends up to its time was cut, and no bucket is cut that ends
/// later.
pub proof fn time_buckets_adjoin(a: Aggregation, e: Answer, step: i64)
    requires
        sound(a),
        a.mode == (Mode::Time { step }),
        step > 0,
        e is Cut,
    ensures
        a.stage matches Stage::CutBucket { now, .. } ==> {
            &&& verdict(a, e).span == Some((a.bucket_start as i64, (a.bucket_start + step) as i64))
            &&& a.bucket_start + step <= now
            &&& next(a, e).bucket_start == a.bucket_start + step
            &&& question(next(a, e)) is CutBar <==> next(a, e).bucket_start + step <= now
            &&& next(a, e).bucket_start + step > now ==> question(next(a, e)) == (Ask::Ingest {
                now,
            })
        },
        a.stage is CutTail ==> verdict(a, e).span == Some(
            (a.bucket_start as i64, (a.bucket_start + step) as i64),
        ) && next(a, e).stage is Idle,
{
}

/// In time mode a composite opens the cut of the current bucket if that has ended, and
/// is added to the current bar if it has not, or if no buckets are cut.
pub proof fn composites_cut_the_buckets_that_ended(
    a: Aggregation,
    now: i64,
    after: After,
    mid: Double,
    step: i64,
)
    requires
        a.stage == (Stage::Compose { now, after }),
        a.mode == (Mode::Time { step }),
    ensures
        ({
            let b = next(a, Answer::Composed { mid: Some(mid) });
            &&& b.bucket_start == a.bucket_start && b.last_close == a.last_close
            &&& step > 0 && a.bucket_start + step <= now ==> question(b) is CutBar
            &&& step <= 0 || now < a.bucket_start + step ==> question(b) == (Ask::Ingest { now })
        }),
{
}

/// A tick runs the cycle that is due if a provider has new ticks, at that cycle's end;
/// without new ticks the quiet cycles are passed over, to the first end after the
/// tick; and a tick within the current cycle leaves it be. The first tick starts the
/// first cycle and, in time mode, the bucket that holds it.
pub proof fn ticks_run_the_cycle_that_is_due(a: Aggregation, ts: i64, provider: u16)
    requires
        sound(a),
        a.stage is Idle,
        tick_fits(a, ts),
    ensures
        ({
            let b = ticked(a, ts, provider);
            &&& a.anchor is None ==> b.anchor == Some(ts) && b.next_cycle == ts + a.cycle_ms
                && question(b) is Gate
            &&& a.anchor is Some && ts < a.next_cycle ==> b.next_cycle == a.next_cycle && question(
                b,
            ) is Gate
            &&& a.anchor is Some && a.next_cycle <= ts && any_dirty(a.slots) ==> question(b) == (
            Ask::FlushSlots { now: a.next_cycle as i64 }) && b.next_cycle == a.next_cycle
            &&& a.anchor is Some && a.next_cycle <= ts && !any_dirty(a.slots) ==> question(
                b,
            ) is Gate && ts < b.next_cycle <= ts + a.cycle_ms && (b.next_cycle - a.next_cycle)
                % a.cycle_ms == 0
            &&& b.last_tick == ts
            &&& b.mode == a.mode && b.cycle_ms == a.cycle_ms && b.last_close == a.last_close
            &&& a.anchor is Some ==> b.anchor == a.anchor && b.bucket_start == a.bucket_start
            &&& a.anchor is None ==> (a.mode matches Mode::Time { step } ==> (if step > 0 {
                bucket::holds(b.bucket_start, step, ts)
            } else {
                b.bucket_start == ts
            }))
        }),
{
    if let Mode::Time { step } = a.mode {
        if step > 0 {
            bucket::instants_lie_in_one_bucket(ts, step, bucket::start_of(ts, step));
        }
    }
    if a.anchor is Some && a.next_cycle <= ts {
        vstd::arithmetic::div_mod::lemma_small_mod(0, a.cycle_ms as nat);
        lemma_skipped(a.next_cycle, ts as int, a.cycle_ms, a.next_cycle);
    }
}

/// The end of the data runs one more cycle, at the time of the last tick, and cuts the
/// last bar whatever that cycle gave; without any tick the last bar is cut at once. After
/// it there is nothing left to ask.
pub proof fn the_end_cuts_the_last_bar(a: Aggregation, now: i64, close: Option<Double>)
    ensures
        a.anchor is Some ==> question(finished(a)) == (Ask::FlushSlots { now: a.last_tick as i64 })
            && cycle_of(finished(a).stage) == Some((a.last_tick as i64, After::End)),
        a.anchor is None ==> question(finished(a)) is CutBar && finished(a).stage is CutTail,
        a.stage == (Stage::Flush { now, after: After::End }) ==> next(
            a,
            Answer::Flushed { any: false },
        ).stage is CutTail,
        a.stage == (Stage::Compose { now, after: After::End }) ==> next(
            a,
            Answer::Composed { mid: None },
        ).stage is CutTail,
        a.stage == (Stage::Ingest { now, after: After::End }) ==> next(
            a,
            Answer::Ingested,
        ).stage is CutTail,
        a.stage is CutTail ==> question(a) is CutBar && question(
            next(a, Answer::Cut { close }),
        ) is Nothing,
{
}

/// A tick that waited for a cycle is accumulated once that cycle is over, or runs the
/// next one if that is due too and there are new ticks; cycles follow each other by one
/// cycle.
pub proof fn waiting_ticks_go_on(a: Aggregation, now: i64, ts: i64, provider: u16)
    requires
        sound(a),
        a.stage == (Stage::Ingest { now, after: After::Tick { ts, provider } }),
    ensures
        ({
            let b = next(a, Answer::Ingested);
            &&& question(b) is Gate || question(b) == (Ask::FlushSlots {
                now: (a.next_cycle + a.cycle_ms) as i64,
            })
            &&& question(b) is FlushSlots ==> a.next_cycle + a.cycle_ms <= ts && any_dirty(a.slots)
            &&& question(b) is Gate ==> ts < b.next_cycle
            &&& b.last_tick == ts
        }),
{
    lemma_next_cycle(a.next_cycle, a.cycle_ms, a.anchor->0 as int);
    lemma_skipped(a.next_cycle, ts as int, a.cycle_ms, a.anchor->0 as int);
    if a.next_cycle + a.cycle_ms <= ts {
        lemma_skipped(a.next_cycle + a.cycle_ms, ts as int, a.cycle_ms, a.anchor->0 as int);
    }
}

/// What happens to an aggregation.
pub enum Event {
    Tick { ts: i64, provider: u16 },
    Finish,
    Answered { answer: Answer },
}

/// The closes of the bars kept so far, and that of one more if an answer keeps it.
pub open spec fn with_close(closes: Seq<Double>, a: Aggregation, e: Answer) -> Seq<Double> {
    match e {
        Answer::Cut { close: Some(c) } => if verdict(a, e).keep {
            closes.push(c)
        } else {
            closes
        },
        _ => closes,
    }
}

/// The aggregation after events, and the closes of the bars kept on the way.
pub open spec fn played(a: Aggregation, events: Seq<Event>) -> (Aggregation, Seq<Double>)
    decreases events.len(),
{
    if events.len() == 0 {
        (a, Seq::empty())
    } else {
        let (b, closes) = played(a, events.drop_last());
        (happened(b, events.last()), match events.last() {
            Event::Answered { answer } => with_close(closes, b, answer),
            _ => closes,
        })
    }
}

/// The aggregation after an event.
pub open spec fn happened(a: Aggregation, event: Event) -> Aggregation {
    match event {
        Event::Tick { ts, provider } => ticked(a, ts, provider),
        Event::Finish => finished(a),
        Event::Answered { answer } => next(a, answer),
    }
}

/// Event `i` brings a valid composite.
pub open spec fn composite_at(a: Aggregation, events: Seq<Event>, i: int, mid: Double) -> bool {
    question(played(a, events.take(i)).0) is Compose && events[i] == (Event::Answered {
        answer: Answer::Composed { mid: Some(mid) },
    })
}

/// The first of the composites whose price is not zero has a price.
pub open spec fn first_composite(a: Aggregation, events: Seq<Event>, p: Double) -> bool {
    exists|i: int|
        0 <= i < events.len() && #[trigger] composite_at(a, events, i, p) && !p.equals(
            Double { bits: 0 },
        ) && no_composite(a, events, i)
}

/// None of the composites before event `n` has a price other than zero.
pub open spec fn no_composite(a: Aggregation, events: Seq<Event>, n: int) -> bool {
    forall|j: int, q: Double|
        0 <= j < n && #[trigger] composite_at(a, events, j, q) ==> q.equals(Double { bits: 0 })
}

/// The last bar is not cut yet.
pub open spec fn open_ended(a: Aggregation, events: Seq<Event>) -> bool {
    forall|k: int|
        0 <= k < events.len() ==> !((#[trigger] events[k]) is Answered && played(
            a,
            events.take(k),
        ).0.stage is CutTail)
}

/// Where the band lies: around the close of the last kept bar or, before any bar,
/// around the first composite.
spec fn anchored(a: Aggregation, events: Seq<Event>) -> bool {
    let (b, closes) = played(a, events);
    &&& b.mode is Band
    &&& !(b.stage is CutBucket)
    &&& b.stage is Measure ==> !b.last_close.equals(Double { bits: 0 })
    &&& if closes.len() > 0 {
        b.last_close == closes.last() && b.last_close.positive()
    } else {
        ||| first_composite(a, events, b.last_close)
        ||| b.last_close.equals(Double { bits: 0 }) && no_composite(
            a,
            events,
            events.len() as int,
        )
    }
}

/// The composite that an event brings, if any.
spec fn composite_of(b: Aggregation, event: Event) -> Option<Double> {
    match event {
        Event::Answered { answer: Answer::Composed { mid } } => if question(b) is Compose {
            mid
        } else {
            None
        },
        _ => None,
    }
}

proof fn lemma_band_step(b: Aggregation, closes: Seq<Double>, event: Event)
    requires
        b.mode is Band,
        !(b.stage is CutBucket),
        b.stage is Measure ==> !b.last_close.equals(Double { bits: 0 }),
        !(event is Answered && b.stage is CutTail),
    ensures
        ({
            let c = happened(b, event);
            let after = match event {
                Event::Answered { answer } => with_close(closes, b, answer),
                _ => closes,
            };
            &&& c.mode is Band
            &&& !(c.stage is CutBucket)
            &&& c.stage is Measure ==> !c.last_close.equals(Double { bits: 0 })
            &&& {
                ||| after == closes.push(c.last_close) && c.last_close.positive()
                ||| after == closes && b.last_close.equals(Double { bits: 0 }) && composite_of(
                    b,
                    event,
                ) == Some(c.last_close)
                ||| after == closes && c.last_close == b.last_close && (b.last_close.equals(
                    Double { bits: 0 },
                ) ==> composite_of(b, event) is None)
            }
        }),
{
}

proof fn lemma_earlier_composites(a: Aggregation, events: Seq<Event>)
    requires
        events.len() > 0,
    ensures
        forall|j: int, q: Double|
            0 <= j < events.len() - 1 ==> #[trigger] composite_at(a, events, j, q) == composite_at(
                a,
                events.drop_last(),
                j,
                q,
            ),
        forall|q: Double| #[trigger]
            composite_at(a, events, events.len() - 1, q) == (composite_of(
                played(a, events.drop_last()).0,
                events.last(),
            ) == Some(q)),
{
    let head = events.drop_last();
    let n = head.len() as int;
    assert forall|j: int, q: Double| 0 <= j < n implies #[trigger] composite_at(a, events, j, q)
        == composite_at(a, head, j, q) by {
        assert(head.take(j) =~= events.take(j));
    }
    assert(events.take(n) =~= head);
}

proof fn lemma_still_first(a: Aggregation, events: Seq<Event>, p: Double)
    requires
        events.len() > 0,
        first_composite(a, events.drop_last(), p),
    ensures
        first_composite(a, events, p),
{
    let head = events.drop_last();
    lemma_earlier_composites(a, events);
    let i = choose|i: int|
        0 <= i < head.len() && #[trigger] composite_at(a, head, i, p) && !p.equals(
            Double { bits: 0 },
        ) && no_composite(a, head, i);
    assert(composite_at(a, events, i, p));
    assert forall|j: int, q: Double| 0 <= j < i && #[trigger] composite_at(a, events, j, q) implies q.equals(
        Double { bits: 0 },
    ) by {
        assert(composite_at(a, head, j, q));
    }
}

proof fn lemma_still_none(a: Aggregation, events: Seq<Event>)
    requires
        events.len() > 0,
        no_composite(a, events.drop_last(), events.len() - 1),
    ensures
        no_composite(a, events, events.len() - 1),
        composite_of(played(a, events.drop_last()).0, events.last()) matches Some(q) ==> (if q.equals(
            Double { bits: 0 },
        ) {
            no_composite(a, events, events.len() as int)
        } else {
            first_composite(a, events, q)
        }),
        composite_of(played(a, events.drop_last()).0, events.last()) is None ==> no_composite(
            a,
            events,
            events.len() as int,
        ),
{
    let head = events.drop_last();
    let n = head.len() as int;
    lemma_earlier_composites(a, events);
    assert forall|j: int, q: Double| 0 <= j < n && #[trigger] composite_at(a, events, j, q) implies q.equals(
        Double { bits: 0 },
    ) by {
        assert(composite_at(a, head, j, q));
    }
    if let Some(q) = composite_of(played(a, head).0, events.last()) {
        assert(composite_at(a, events, n, q));
    }
}

proof fn lemma_anchored(a: Aggregation, events: Seq<Event>)
    requires
        a.mode is Band,
        a.stage is Idle,
        a.last_close == (Double { bits: 0 }),
        open_ended(a, events),
    ensures
        anchored(a, events),
    decreases events.len(),
{
    if events.len() > 0 {
        let head = events.drop_last();
        let n = head.len() as int;
        assert(events.take(n) =~= head);
        assert forall|k: int| 0 <= k < head.len() implies !((#[trigger] head[k]) is Answered
            && played(a, head.take(k)).0.stage is CutTail) by {
            assert(events[k] == head[k]);
            assert(head.take(k) =~= events.take(k));
        }
        lemma_anchored(a, head);
        let (b, before) = played(a, head);
        assert(events[n] is Answered ==> !(b.stage is CutTail));
        lemma_band_step(b, before, events.last());
        if before.len() == 0 {
            if first_composite(a, head, b.last_close) {
                lemma_still_first(a, events, b.last_close);
            } else {
                lemma_still_none(a, events);
            }
        }
    }
}

/// In band mode, until the last bar is cut, every price is held against the close of
/// the bar that was kept last; before any bar, against the first composite's price
/// that is not zero.
pub proof fn bands_follow_the_last_kept_bar(a: Aggregation, events: Seq<Event>)
    requires
        a.mode is Band,
        a.stage is Idle,
        a.last_close == (Double { bits: 0 }),
        open_ended(a, events),
    ensures
        question(played(a, events).0) matches Ask::Measure { last_close, .. } ==> {
            let closes = played(a, events).1;
            &&& closes.len() > 0 ==> last_close == closes.last()
            &&& closes.len() == 0 ==> first_composite(a, events, last_close)
        },
{
    lemma_anchored(a, events);
}

/// A provider has new ticks.
pub open spec fn marked(slots: Seq<(u16, bool)>, id: u16) -> bool {
    slots.contains((id, true))
}

proof fn lemma_insert_unmarked(slots: Seq<(u16, bool)>, at: int, id: u16, x: u16)
    requires
        0 <= at <= slots.len(),
    ensures
        marked(slots.insert(at, (id, false)), x) == marked(slots, x),
{
    let after = slots.insert(at, (id, false));
    if marked(slots, x) {
        let i = choose|i: int| 0 <= i < slots.len() && slots[i] == (x, true);
        if i < at {
            assert(after[i] == (x, true));
        } else {
            assert(after[i + 1] == (x, true));
        }
    }
    if marked(after, x) {
        let i = choose|i: int| 0 <= i < after.len() && after[i] == (x, true);
        if i < at {
            assert(slots[i] == (x, true));
        } else {
            assert(slots[i - 1] == (x, true));
        }
    }
}

/// A tick is held against the other ticks of its own provider, who is added without a
/// mark if it is new; it leaves the marks as they are.
pub proof fn ticks_are_gated_at_their_provider(a: Aggregation, ts: i64, provider: u16, x: u16)
    requires
        ascending(a.slots),
        a.slots.len() < usize::MAX,
    ensures
        question(cycles(a, ts, provider)) matches Ask::Gate { slot } ==> slot < cycles(
            a,
            ts,
            provider,
        ).slots.len() && cycles(a, ts, provider).slots[slot as int].0 == provider,
        marked(cycles(a, ts, provider).slots, x) == marked(a.slots, x),
        marked(ticked(a, ts, provider).slots, x) == marked(a.slots, x),
        ascending(cycles(a, ts, provider).slots),
{
    lemma_with_slot(a.slots, provider);
    lemma_place(a.slots, provider);
    lemma_insert_unmarked(a.slots, place(a.slots, provider), provider, x);
}

/// Event `k` is a tick of a provider that is taken.
pub open spec fn taken_at(a: Aggregation, events: Seq<Event>, k: int, id: u16) -> bool {
    let b = played(a, events.take(k)).0;
    &&& question(b) matches Ask::Gate { slot }
    &&& b.slots[slot as int].0 == id
    &&& events[k] == (Event::Answered { answer: Answer::Gated { taken: true } })
}

/// Event `k` flushes the providers.
pub open spec fn flushed_at(a: Aggregation, events: Seq<Event>, k: int) -> bool {
    &&& question(played(a, events.take(k)).0) is FlushSlots
    &&& events[k] matches Event::Answered { answer }
    &&& answer is Flushed
}

/// A tick of a provider was taken after the last flush.
pub open spec fn taken_since_flush(a: Aggregation, events: Seq<Event>, id: u16) -> bool {
    exists|k: int|
        0 <= k < events.len() && #[trigger] taken_at(a, events, k, id) && forall|j: int|
            k < j < events.len() ==> !#[trigger] flushed_at(a, events, j)
}

proof fn lemma_resumed_marks(a: Aggregation, after: After, x: u16)
    requires
        ascending(a.slots),
        a.slots.len() < usize::MAX,
    ensures
        marked(resumed(a, after).slots, x) == marked(a.slots, x),
        ascending(resumed(a, after).slots),
        resumed(a, after).stage matches Stage::Gate { slot } ==> slot < resumed(a, after).slots.len(),
{
    match after {
        After::Tick { ts, provider } => {
            ticks_are_gated_at_their_provider(
                Aggregation { next_cycle: a.next_cycle + a.cycle_ms, ..a },
                ts,
                provider,
                x,
            );
        },
        After::End => {},
    }
}

/// The slots are by ascending number, and a tick at hand belongs to one of them.
spec fn tidy(a: Aggregation) -> bool {
    &&& ascending(a.slots)
    &&& a.stage matches Stage::Gate { slot } ==> slot < a.slots.len()
}

proof fn lemma_marks_step(b: Aggregation, event: Event, x: u16)
    requires
        tidy(b),
        b.slots.len() < usize::MAX,
    ensures
        ({
            let c = happened(b, event);
            let flushes = b.stage is Flush && (event matches Event::Answered { answer }
                && answer is Flushed);
            let takes = b.stage matches Stage::Gate { slot } && b.slots[slot as int].0 == x && event
                == (Event::Answered { answer: Answer::Gated { taken: true } });
            &&& tidy(c)
            &&& marked(c.slots, x) == (!flushes && (takes || marked(b.slots, x)))
        }),
{
    match event {
        Event::Tick { ts, provider } => {
            let with = ticked(b, ts, provider);
            let anchored = Aggregation {
                anchor: with.anchor,
                next_cycle: if b.anchor is None {
                    ts + b.cycle_ms
                } else {
                    b.next_cycle
                },
                last_tick: ts as int,
                bucket_start: with.bucket_start,
                ..b
            };
            ticks_are_gated_at_their_provider(anchored, ts, provider, x);
            assert(with == cycles(anchored, ts, provider));
        },
        Event::Finish => {},
        Event::Answered { answer } => match (b.stage, answer) {
            (Stage::Flush { after, .. }, Answer::Flushed { any }) => {
                let clean = Aggregation { slots: cleaned(b.slots), ..b };
                lemma_cleaned(b.slots);
                assert(!marked(clean.slots, x));
                lemma_resumed_marks(clean, after, x);
            },
            (Stage::Compose { after, .. }, Answer::Composed { mid }) => {
                lemma_resumed_marks(b, after, x);
            },
            (Stage::Ingest { after, .. }, Answer::Ingested) => {
                lemma_resumed_marks(b, after, x);
            },
            (Stage::Gate { slot }, Answer::Gated { taken }) => {
                let c = next(b, answer).slots;
                assert forall|i: int, j: int| 0 <= i < j < c.len() implies (#[trigger] c[i]).0 < (
                #[trigger] c[j]).0 by {
                    assert(b.slots[i].0 < b.slots[j].0);
                }
                if marked(b.slots, x) {
                    let i = choose|i: int| 0 <= i < b.slots.len() && b.slots[i] == (x, true);
                    assert(c[i] == (x, true));
                }
                if taken && b.slots[slot as int].0 == x {
                    assert(c[slot as int] == (x, true));
                }
                if marked(c, x) {
                    let i = choose|i: int| 0 <= i < c.len() && c[i] == (x, true);
                    if i != slot {
                        assert(b.slots[i] == (x, true));
                    }
                }
            },
            _ => {},
        },
    }
}

/// The slots of a history stay few enough to be counted.
pub open spec fn countable(a: Aggregation, events: Seq<Event>) -> bool {
    forall|k: int|
        0 <= k <= events.len() ==> (#[trigger] played(a, events.take(k))).0.slots.len() < usize::MAX
}

proof fn lemma_marks(a: Aggregation, events: Seq<Event>, x: u16)
    requires
        a.slots.len() == 0,
        a.stage is Idle,
        countable(a, events),
    ensures
        tidy(played(a, events).0),
        marked(played(a, events).0.slots, x) <==> taken_since_flush(a, events, x),
    decreases events.len(),
{
    if events.len() > 0 {
        let head = events.drop_last();
        let n = head.len() as int;
        assert(events.take(n) =~= head);
        assert forall|k: int| 0 <= k <= head.len() implies (#[trigger] played(
            a,
            head.take(k),
        )).0.slots.len() < usize::MAX by {
            assert(head.take(k) =~= events.take(k));
            assert(played(a, events.take(k)).0.slots.len() < usize::MAX);
        }
        lemma_marks(a, head, x);
        let b = played(a, head).0;
        assert(played(a, events.take(n)).0.slots.len() < usize::MAX);
        lemma_marks_step(b, events.last(), x);
        assert forall|k: int| 0 <= k < n implies #[trigger] taken_at(a, events, k, x) == taken_at(
            a,
            head,
            k,
            x,
        ) by {
            assert(head.take(k) =~= events.take(k));
        }
        assert forall|k: int| 0 <= k < n implies #[trigger] flushed_at(a, events, k) == flushed_at(
            a,
            head,
            k,
        ) by {
            assert(head.take(k) =~= events.take(k));
        }
        if taken_since_flush(a, events, x) {
            let k = choose|k: int|
                0 <= k < events.len() && #[trigger] taken_at(a, events, k, x) && forall|j: int|
                    k < j < events.len() ==> !#[trigger] flushed_at(a, events, j);
            if k < n {
                assert(!flushed_at(a, events, n));
                assert(taken_at(a, head, k, x));
                assert forall|j: int| k < j < head.len() implies !#[trigger] flushed_at(a, head, j) by {
                    assert(!flushed_at(a, events, j));
                }
                assert(taken_since_flush(a, head, x));
            }
        }
        if marked(played(a, events).0.slots, x) {
            if taken_at(a, events, n, x) {
            } else {
                assert(taken_since_flush(a, head, x));
                let k = choose|k: int|
                    0 <= k < head.len() && #[trigger] taken_at(a, head, k, x) && forall|j: int|
                        k < j < head.len() ==> !#[trigger] flushed_at(a, head, j);
                assert(taken_at(a, events, k, x));
                assert forall|j: int| k < j < events.len() implies !#[trigger] flushed_at(
                    a,
                    events,
                    j,
                ) by {
                    if j < n {
                        assert(!flushed_at(a, head, j));
                    }
                }
            }
        }
    }
}

/// A provider has new ticks exactly if one of its ticks was taken since the providers
/// were last flushed.
pub proof fn marks_tell_of_ticks_since_the_flush(a: Aggregation, events: Seq<Event>, id: u16)
    requires
        a.slots.len() == 0,
        a.stage is Idle,
        countable(a, events),
    ensures
        marked(played(a, events).0.slots, id) <==> taken_since_flush(a, events, id),
{
    lemma_marks(a, events, id);
}

/// A tick is accumulated only after every cycle that ended up to it.
pub proof fn cycles_run_before_their_ticks(a: Aggregation)
    requires
        sound(a),
        a.stage is Gate,
        a.anchor is Some,
    ensures
        a.last_tick < a.next_cycle,
        (a.next_cycle - a.anchor->0) % a.cycle_ms == 0,
{
}

/// Bound on the cycles that still run before a tick is accumulated or the last
/// bar is cut.
pub open spec fn cycles_left(a: Aggregation) -> int {
    match cycle_of(a.stage) {
        Some((_, After::Tick { ts, .. })) => 2 + if ts > a.next_cycle {
            ts - a.next_cycle
        } else {
            0
        },
        Some((_, After::End)) => 2,
        None => if a.stage is Idle {
            0
        } else {
            1
        },
    }
}

/// Bound on the stages left in a cycle.
pub open spec fn stages_left(a: Aggregation) -> int {
    match a.stage {
        Stage::Flush { .. } => 5,
        Stage::Compose { .. } => 4,
        Stage::Measure { .. } => 3,
        Stage::CutBucket { .. } => 2,
        Stage::CutBand { .. } => 2,
        _ => 1,
    }
}

/// Bound on the buckets that a cycle still cuts.
pub open spec fn buckets_left(a: Aggregation) -> int {
    match a.stage {
        Stage::CutBucket { now, .. } => if now > a.bucket_start {
            now - a.bucket_start
        } else {
            0
        },
        _ => 0,
    }
}

/// Every answer that was asked for brings a tick nearer to its end.
pub proof fn ticks_end(a: Aggregation, e: Answer)
    requires
        a.cycle_ms > 0,
        fits(question(a), e),
    ensures
        next(a, e).cycle_ms == a.cycle_ms,
        cycles_left(next(a, e)) >= 0 && stages_left(next(a, e)) >= 0 && buckets_left(next(a, e)) >= 0,
        cycles_left(next(a, e)) < cycles_left(a) || (cycles_left(next(a, e)) == cycles_left(a) && (
        stages_left(next(a, e)) < stages_left(a) || (stages_left(next(a, e)) == stages_left(a)
            && buckets_left(next(a, e)) < buckets_left(a)))),
{
}

/// What comes in: a tick, with what the caller needs to accumulate it.
pub struct Tick<B> {
    pub valid: bool,
    pub ts: i64,
    pub provider: u16,
    pub body: B,
}

/// A caller: from what it holds, the tick at hand and a question to what it holds
/// then and an answer.
pub type Caller<W, B> = spec_fn(W, B, Ask) -> (W, Answer);

/// The aggregation once its caller has answered all that it asks about a tick,
/// what the caller then holds, and the bars kept, each as it was cut.
pub open spec fn settled<W, B>(a: Aggregation, world: W, body: B, caller: Caller<W, B>) -> (
    Aggregation,
    W,
    Seq<(Answer, Verdict)>,
)
    decreases cycles_left(a), stages_left(a), buckets_left(a),
{
    let (held, e) = caller(world, body, question(a));
    if a.cycle_ms > 0 && fits(question(a), e) {
        proof {
            ticks_end(a, e);
        }
        let (b, after, kept) = settled(next(a, e), held, body, caller);
        let v = verdict(a, e);
        (
            b,
            after,
            if v.keep {
                seq![(e, v)] + kept
            } else {
                kept
            },
        )
    } else {
        (a, world, Seq::empty())
    }
}

/// The aggregation after a batch of ticks, each settled before the next comes in.
pub open spec fn processed<W, B>(
    a: Aggregation,
    world: W,
    ticks: Seq<Tick<B>>,
    caller: Caller<W, B>,
) -> (Aggregation, W, Seq<(Answer, Verdict)>)
    decreases ticks.len(),
{
    if ticks.len() == 0 {
        (a, world, Seq::empty())
    } else {
        let (b, held, kept) = processed(a, world, ticks.drop_last(), caller);
        let t = ticks.last();
        if t.valid {
            let (c, after, more) = settled(ticked(b, t.ts, t.provider), held, t.body, caller);
            (c, after, kept + more)
        } else {
            (b, held, kept)
        }
    }
}

/// Two batches give what their concatenation gives: the same aggregation, the
/// same accumulators, and the bars of the first and then those of the second.
pub proof fn batches_concatenate<W, B>(
    a: Aggregation,
    world: W,
    x: Seq<Tick<B>>,
    y: Seq<Tick<B>>,
    caller: Caller<W, B>,
)
    ensures
        ({
            let first = processed(a, world, x, caller);
            let second = processed(first.0, first.1, y, caller);
            let whole = processed(a, world, x + y, caller);
            whole.0 == second.0 && whole.1 == second.1 && whole.2 == first.2 + second.2
        }),
    decreases y.len(),
{
    let first = processed(a, world, x, caller);
    if y.len() == 0 {
        assert(x + y =~= x);
        assert(first.2 + Seq::empty() =~= first.2);
    } else {
        batches_concatenate(a, world, x, y.drop_last(), caller);
        assert((x + y).drop_last() =~= x + y.drop_last());
        let m = processed(first.0, first.1, y.drop_last(), caller);
        let t = y.last();
        let s = settled(ticked(m.0, t.ts, t.provider), m.1, t.body, caller);
        assert(first.2 + m.2 + s.2 =~= first.2 + (m.2 + s.2));
    }
}

/// Ticks that are not valid change nothing: without them a batch gives the same.
pub proof fn invalid_ticks_change_nothing<W, B>(
    a: Aggregation,
    world: W,
    ticks: Seq<Tick<B>>,
    caller: Caller<W, B>,
)
    ensures
        processed(a, world, ticks, caller) == processed(
            a,
            world,
            ticks.filter(|t: Tick<B>| t.valid),
            caller,
        ),
    decreases ticks.len(),
{
    reveal(Seq::filter);
    if ticks.len() > 0 {
        invalid_ticks_change_nothing(a, world, ticks.drop_last(), caller);
        let kept = ticks.filter(|t: Tick<B>| t.valid);
        if ticks.last().valid {
            assert(kept.drop_last() =~= ticks.drop_last().filter(|t: Tick<B>| t.valid));
        }
    }
}

} // verus!
