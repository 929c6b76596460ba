//! Merging per-provider index streams into one composite stream.
//!
//! Records are taken in time order over all sources; at every boundary of a
//! fixed cycle that some record has passed, the composite of the latest quotes
//! is written, if a quote changed since the last one.

use vstd::prelude::*;
use vstd::multiset::Multiset;
use crate::ieee::Double;
use crate::text;
use crate::yaml;
use crate::yaml::{Tree, Yaml};

verus! {

/// Head of a source in the merge: earlier comes out first, and of one instant
/// the source with the lower index. The keys are mirrored so that the greatest
/// entry is the one to take.
#[derive(Clone, Copy, Debug, PartialEq, Eq, Structural)]
pub struct HeapEntry {
    pub neg_ts_ms: i64,
    pub neg_idx: usize,
    pub ts_ms: i64,
    pub source_idx: usize,
}

impl HeapEntry {
    /// The mirrored keys match the plain ones.
    pub open spec fn wf(self) -> bool {
        self.neg_ts_ms == -self.ts_ms && self.neg_idx == usize::MAX - self.source_idx
    }

    /// `self` comes out before `other`.
    pub open spec fn sooner(self, other: HeapEntry) -> bool {
        self.ts_ms < other.ts_ms || (self.ts_ms == other.ts_ms && self.source_idx
            < other.source_idx)
    }

    /// `self` is greater, by the mirrored keys.
    pub open spec fn greater(self, other: HeapEntry) -> bool {
        self.neg_ts_ms > other.neg_ts_ms || (self.neg_ts_ms == other.neg_ts_ms && self.neg_idx
            > other.neg_idx)
    }

    pub fn new(ts_ms: i64, source_idx: usize) -> (e: HeapEntry)
        requires
            ts_ms != i64::MIN,
        ensures
            e.wf(),
            e.ts_ms == ts_ms,
            e.source_idx == source_idx,
    {
        HeapEntry {
            neg_ts_ms: -ts_ms,
            neg_idx: usize::MAX - source_idx,
            ts_ms,
            source_idx,
        }
    }

    fn is_greater(self, other: HeapEntry) -> (b: bool)
        ensures
            b == self.greater(other),
    {
        self.neg_ts_ms > other.neg_ts_ms || (self.neg_ts_ms == other.neg_ts_ms && self.neg_idx
            > other.neg_idx)
    }
}

/// The greatest entry is the soonest one.
pub proof fn greatest_is_soonest(a: HeapEntry, b: HeapEntry)
    requires
        a.wf(),
        b.wf(),
    ensures
        a.greater(b) <==> a.sooner(b),
{
}

/// The heads of the sources that still have records.
pub struct MergeQueue {
    entries: Vec<HeapEntry>,
}

impl MergeQueue {
    pub closed spec fn heads(&self) -> Seq<HeapEntry> {
        self.entries@
    }

    /// The heads, in no order.
    pub open spec fn content(&self) -> Multiset<HeapEntry> {
        self.heads().to_multiset()
    }

    pub open spec fn wf(&self) -> bool {
        forall|i: int| 0 <= i < self.heads().len() ==> (#[trigger] self.heads()[i]).wf()
    }

    pub fn new() -> (q: MergeQueue)
        ensures
            q.wf(),
            q.content() == Multiset::<HeapEntry>::empty(),
    {
        let q = MergeQueue { entries: Vec::new() };
        proof {
            q.heads().to_multiset_ensures();
            assert(q.content() =~= Multiset::<HeapEntry>::empty());
        }
        q
    }

    /// Adds the head of a source.
    pub fn push(&mut self, e: HeapEntry)
        requires
            old(self).wf(),
            e.wf(),
        ensures
            final(self).wf(),
            final(self).content() == old(self).content().insert(e),
    {
        proof {
            self.heads().to_multiset_ensures();
        }
        self.entries.push(e);
    }

    /// The soonest head.
    pub open spec fn soonest(&self, e: HeapEntry) -> bool {
        self.content().count(e) > 0 && forall|x: HeapEntry|
            #[trigger] self.content().count(x) > 0 ==> x == e || !x.sooner(e)
    }

    /// Takes the soonest head.
    pub fn pop(&mut self) -> (r: Option<HeapEntry>)
        requires
            old(self).wf(),
        ensures
            final(self).wf(),
            r is None <==> old(self).content() == Multiset::<HeapEntry>::empty(),
            r is None ==> final(self).content() == old(self).content(),
            r matches Some(e) ==> e.wf() && old(self).soonest(e) && final(self).content() == old(self).content().remove(e),
    {
        let n: usize = self.entries.len();
        let ghost was = self.entries@;
        proof {
            was.to_multiset_ensures();
            assert forall|k: int| 0 <= k < was.len() implies (#[trigger] was[k]).wf() by {
                assert(self.heads()[k].wf());
            }
        }
        if n == 0 {
            assert(self.content() =~= Multiset::<HeapEntry>::empty());
            return None;
        }
        let mut best: usize = 0;
        let mut i: usize = 1;
        while i < n
            invariant
                1 <= i <= n,
                n == self.entries.len(),
                self.entries@ == was,
                best < i,
                forall|k: int| 0 <= k < was.len() ==> (#[trigger] was[k]).wf(),
                forall|k: int| 0 <= k < i ==> !(#[trigger] was[k]).greater(was[best as int]),
            decreases n - i,
        {
            if self.entries[i].is_greater(self.entries[best]) {
                best = i;
            }
            i = i + 1;
        }
        let e = self.entries.remove(best);
        proof {
            assert(was.contains(e));
            assert(was.to_multiset().count(e) > 0);
            assert(self.entries@ =~= was.remove(best as int));
            assert forall|x: HeapEntry| #[trigger] was.to_multiset().count(x) > 0 implies x == e || !x.sooner(e) by {
                assert(was.contains(x));
                let k = choose|k: int| 0 <= k < was.len() && was[k] == x;
                assert(!was[k].greater(was[best as int]));
                greatest_is_soonest(x, e);
            }
            assert(old(self).content() != Multiset::<HeapEntry>::empty()) by {
                assert(Multiset::<HeapEntry>::empty().count(e) == 0);
            }
            assert forall|k: int| 0 <= k < self.entries@.len() implies (#[trigger] self.entries@[k]).wf() by {
                if k < best {
                    assert(self.entries@[k] == was[k]);
                } else {
                    assert(self.entries@[k] == was[k + 1]);
                }
            }
        }
        Some(e)
    }
}

/// When composites are due.
#[derive(Clone, Copy, Debug, PartialEq, Eq, Structural)]
pub struct CycleClock {
    pub cycle_ms: i64,
    /// The next boundary; none before the first record.
    pub next_ms: Option<i64>,
    /// A quote changed since the last composite.
    pub dirty: bool,
}

impl CycleClock {
    pub open spec fn wf(self) -> bool {
        self.cycle_ms > 0 && (self.next_ms is None ==> !self.dirty)
    }

    pub fn new(cycle_ms: i64) -> (c: CycleClock)
        requires
            cycle_ms > 0,
        ensures
            c.wf(),
            c == (CycleClock { cycle_ms, next_ms: None, dirty: false }),
    {
        CycleClock { cycle_ms, next_ms: None, dirty: false }
    }

    /// The boundary in force when a record arrives: the first record opens a cycle.
    pub open spec fn boundary(self, ts_ms: i64) -> int {
        match self.next_ms {
            Some(n) => n as int,
            None => ts_ms + self.cycle_ms,
        }
    }

    /// The first boundary after a record.
    pub open spec fn boundary_after(self, ts_ms: i64) -> int {
        let b = self.boundary(ts_ms);
        if ts_ms >= b {
            ts_ms - (ts_ms - b) % (self.cycle_ms as int) + self.cycle_ms
        } else {
            b
        }
    }

    /// The clock once a record has been taken in.
    pub open spec fn after(self, ts_ms: i64) -> CycleClock {
        CycleClock {
            cycle_ms: self.cycle_ms,
            next_ms: Some(self.boundary_after(ts_ms) as i64),
            dirty: true,
        }
    }

    /// The boundary of the composite that is due before a record is taken in: the
    /// pending one, if the record has reached it and a quote is waiting.
    pub open spec fn due(self, ts_ms: i64) -> Option<i64> {
        if self.dirty && ts_ms >= self.boundary(ts_ms) {
            Some(self.boundary(ts_ms) as i64)
        } else {
            None
        }
    }

    /// Steps between the record and the boundaries around it fit.
    pub open spec fn in_range(self, ts_ms: i64) -> bool {
        &&& ts_ms + self.cycle_ms <= i64::MAX
        &&& self.next_ms matches Some(n) ==> i64::MIN <= ts_ms - n <= i64::MAX
    }

    /// A record arrives. Gives the boundary at which a composite is due first.
    pub fn on_record(&mut self, ts_ms: i64) -> (due: Option<i64>)
        requires
            old(self).wf(),
            old(self).in_range(ts_ms),
        ensures
            final(self).wf(),
            *final(self) == old(self).after(ts_ms),
            due == old(self).due(ts_ms),
            final(self).next_ms->Some_0 == old(self).boundary_after(ts_ms),
            due is Some <==> old(self).dirty && old(self).next_ms->Some_0 <= ts_ms,
            due is Some ==> due == old(self).next_ms,
    {
        let next: i64 = match self.next_ms {
            Some(n) => n,
            None => ts_ms + self.cycle_ms,
        };
        let mut due: Option<i64> = None;
        let mut upcoming: i64 = next;
        if ts_ms >= next {
            if self.dirty {
                due = Some(next);
            }
            let rest: i64 = (ts_ms - next) % self.cycle_ms;
            proof {
                let d = (ts_ms - next) as nat;
                vstd::arithmetic::div_mod::lemma_mod_bound(d as int, self.cycle_ms as int);
                vstd::arithmetic::div_mod::lemma_mod_decreases(d, self.cycle_ms as nat);
            }
            upcoming = (ts_ms - rest) + self.cycle_ms;
        }
        self.next_ms = Some(upcoming);
        self.dirty = true;
        due
    }

    /// The boundary of the composite that is due when the stream ends: the pending
    /// one, if a quote is waiting.
    pub open spec fn last_due(self) -> Option<i64> {
        if self.dirty {
            self.next_ms
        } else {
            None
        }
    }

    /// The stream ends. Gives the boundary of the last composite, if one is due.
    pub fn finish(&self) -> (due: Option<i64>)
        requires
            self.wf(),
        ensures
            due == if self.dirty {
                self.next_ms
            } else {
                None
            },
            due == self.last_due(),
    {
        if self.dirty {
            self.next_ms
        } else {
            None
        }
    }
}

/// Composites fall on one grid and move forward: after a record the clock stands
/// past it, a whole number of cycles from where it stood.
pub proof fn boundaries_advance_by_cycles(c: CycleClock, ts_ms: i64)
    requires
        c.wf(),
        c.in_range(ts_ms),
    ensures
        c.boundary_after(ts_ms) > ts_ms,
        c.boundary_after(ts_ms) >= c.boundary(ts_ms),
        (c.boundary_after(ts_ms) - c.boundary(ts_ms)) % (c.cycle_ms as int) == 0,
        ts_ms >= c.boundary(ts_ms) ==> c.boundary_after(ts_ms) <= ts_ms + c.cycle_ms,
        c.due(ts_ms) matches Some(b) ==> b <= ts_ms && b < c.boundary_after(ts_ms),
{
    let b0 = c.boundary(ts_ms);
    let k = c.cycle_ms as int;
    if ts_ms >= b0 {
        let d = ts_ms - b0;
        vstd::arithmetic::div_mod::lemma_fundamental_div_mod(d, k);
        vstd::arithmetic::div_mod::lemma_mod_bound(d, k);
        let rest = d % k;
        assert(ts_ms - rest + k - b0 == k * (d / k) + k);
        assert(k * (d / k) + k == (d / k + 1) * k) by (nonlinear_arith);
        vstd::arithmetic::div_mod::lemma_mod_multiples_basic(d / k + 1, k);
        assert(k * (d / k) >= 0) by (nonlinear_arith)
            requires
                d >= 0,
                k > 0,
        ;
    } else {
        vstd::arithmetic::div_mod::lemma_small_mod(0, k as nat);
    }
}

/// Of two composites the later has the later boundary, and both lie on one grid.
pub proof fn composites_ascend(c: CycleClock, t1: i64, t2: i64)
    requires
        c.wf(),
        c.in_range(t1),
        c.after(t1).in_range(t2),
        c.due(t1) is Some,
        c.after(t1).due(t2) is Some,
    ensures
        c.due(t1)->Some_0 < c.after(t1).due(t2)->Some_0,
        (c.after(t1).due(t2)->Some_0 - c.due(t1)->Some_0) % (c.cycle_ms as int) == 0,
{
    boundaries_advance_by_cycles(c, t1);
}

/// A composite that is waited for is due as soon as a record reaches its boundary,
/// at that boundary, and not before; without a waiting quote none is due.
pub proof fn composites_come_due_at_their_boundary(c: CycleClock, ts_ms: i64)
    requires
        c.wf(),
    ensures
        c.dirty && c.next_ms->Some_0 <= ts_ms ==> c.due(ts_ms) == c.next_ms,
        !c.dirty || ts_ms < c.next_ms->Some_0 ==> c.due(ts_ms) is None,
        c.after(ts_ms).dirty,
        c.dirty ==> c.last_due() == c.next_ms,
{
}

pub open spec fn with_due(composites: Seq<i64>, due: Option<i64>) -> Seq<i64> {
    match due {
        Some(b) => composites.push(b),
        None => composites,
    }
}

/// The clock after records, and the boundaries of the composites due on the way.
pub open spec fn clocked(c: CycleClock, records: Seq<i64>) -> (CycleClock, Seq<i64>)
    decreases records.len(),
{
    if records.len() == 0 {
        (c, Seq::empty())
    } else {
        let (d, composites) = clocked(c, records.drop_last());
        (d.after(records.last()), with_due(composites, d.due(records.last())))
    }
}

/// The boundaries of all composites of a stream.
pub open spec fn composed(c: CycleClock, records: Seq<i64>) -> Seq<i64> {
    let (d, composites) = clocked(c, records);
    with_due(composites, d.last_due())
}

/// The latest time among records up to record `i`.
pub open spec fn latest(records: Seq<i64>, i: int) -> i64
    decreases i,
{
    if i <= 0 {
        records[0]
    } else if latest(records, i - 1) < records[i] {
        records[i]
    } else {
        latest(records, i - 1)
    }
}

/// The end of the cycle in which record `i` arrives; cycles count from the first
/// record on, and a record that comes late belongs to the cycle in progress.
pub open spec fn cycle_end(cycle_ms: i64, records: Seq<i64>, i: int) -> int {
    records[0] + ((latest(records, i) - records[0]) / cycle_ms as int + 1) * cycle_ms
}

/// The first end of a cycle after an instant.
proof fn lemma_first_end(cycle: int, first: int, ts: int, end: int)
    requires
        cycle > 0,
    ensures
        end == first + ((ts - first) / cycle + 1) * cycle <==> (ts < end <= ts + cycle && (end
            - first) % cycle == 0),
{
    let q = (ts - first) / cycle;
    vstd::arithmetic::div_mod::lemma_fundamental_div_mod(ts - first, cycle);
    vstd::arithmetic::div_mod::lemma_mod_bound(ts - first, cycle);
    vstd::arithmetic::div_mod::lemma_mod_multiples_basic(q + 1, cycle);
    assert((q + 1) * cycle == cycle * q + cycle) by (nonlinear_arith);
    if ts < end <= ts + cycle && (end - first) % cycle == 0 {
        vstd::arithmetic::div_mod::lemma_fundamental_div_mod(end - first, cycle);
        let k = (end - first) / cycle;
        assert(k == q + 1) by (nonlinear_arith)
            requires
                cycle > 0,
                ts - first < cycle * k <= ts - first + cycle,
                cycle * q <= ts - first < cycle * q + cycle,
        ;
        assert(cycle * k == k * cycle) by (nonlinear_arith);
    }
}

/// A clock after records: it waits for the end of the cycle in progress, and a
/// composite was due for every cycle before it.
spec fn keeps_up(cycle_ms: i64, records: Seq<i64>, d: CycleClock, composites: Seq<i64>) -> bool {
    let now = records.len() - 1;
    &&& d.cycle_ms == cycle_ms
    &&& d.dirty
    &&& d.next_ms is Some
    &&& d.next_ms->Some_0 == cycle_end(cycle_ms, records, now)
    &&& forall|a: int, b: int|
        0 <= a < b < composites.len() ==> (#[trigger] composites[a]) < (#[trigger] composites[b])
    &&& forall|a: int|
        0 <= a < composites.len() ==> (#[trigger] composites[a]) < d.next_ms->Some_0 && ends_one(
            cycle_ms,
            records,
            composites[a],
        )
    &&& forall|i: int|
        0 <= i < records.len() ==> composes(composites, #[trigger] cycle_end(cycle_ms, records, i))
            || cycle_end(cycle_ms, records, i) == d.next_ms->Some_0
}

/// A boundary ends a cycle in which a record arrives.
pub open spec fn ends_one(cycle_ms: i64, records: Seq<i64>, boundary: i64) -> bool {
    exists|i: int|
        0 <= i < records.len() && boundary == #[trigger] cycle_end(cycle_ms, records, i)
}

/// A composite has a boundary.
pub open spec fn composes(composites: Seq<i64>, boundary: int) -> bool {
    exists|a: int| 0 <= a < composites.len() && (#[trigger] composites[a]) == boundary
}

proof fn lemma_latest_same(records: Seq<i64>, head: Seq<i64>, i: int)
    requires
        records.len() > 0,
        head == records.drop_last(),
        0 <= i < head.len(),
    ensures
        latest(records, i) == latest(head, i),
    decreases i,
{
    assert(records[i] == head[i]);
    if i > 0 {
        lemma_latest_same(records, head, i - 1);
    }
}

proof fn lemma_clock_keeps_up(c: CycleClock, records: Seq<i64>)
    requires
        c.cycle_ms > 0,
        c.next_ms is None,
        !c.dirty,
        records.len() > 0,
        forall|i: int| 0 <= i < records.len() ==> (#[trigger] records[i]) + c.cycle_ms <= i64::MAX,
    ensures
        keeps_up(c.cycle_ms, records, clocked(c, records).0, clocked(c, records).1),
    decreases records.len(),
{
    let k = c.cycle_ms as int;
    let head = records.drop_last();
    let n = records.len() - 1;
    let ts = records[n];
    let (d, composites) = clocked(c, head);
    let (after, all) = clocked(c, records);
    let first = records[0] as int;
    assert(ts + c.cycle_ms <= i64::MAX);
    if n == 0 {
        vstd::arithmetic::div_mod::lemma_div_basics(k);
        assert(clocked(c, head) == (c, Seq::<i64>::empty()));
        lemma_first_end(k, first, ts as int, ts + k);
        vstd::arithmetic::div_mod::lemma_mod_self_0(k);
        assert(cycle_end(c.cycle_ms, records, 0) == ts + k);
    } else {
        assert forall|i: int| 0 <= i < head.len() implies (#[trigger] head[i]) + c.cycle_ms
            <= i64::MAX by {
            assert(records[i] == head[i]);
        }
        lemma_clock_keeps_up(c, head);
        assert forall|i: int| 0 <= i < head.len() implies #[trigger] cycle_end(
            c.cycle_ms,
            head,
            i,
        ) == cycle_end(c.cycle_ms, records, i) by {
            lemma_latest_same(records, head, i);
        }
        let next = d.next_ms->Some_0 as int;
        let seen = latest(records, n - 1);
        lemma_latest_same(records, head, n - 1);
        assert(next == cycle_end(c.cycle_ms, head, n - 1));
        lemma_first_end(k, first, seen as int, next);
        let end = cycle_end(c.cycle_ms, records, n);
        lemma_first_end(k, first, latest(records, n) as int, end);
        if ts >= next {
            let over = ts - next;
            vstd::arithmetic::div_mod::lemma_fundamental_div_mod(over, k);
            vstd::arithmetic::div_mod::lemma_mod_bound(over, k);
            let to = ts - over % k + k;
            assert(to == next + (over / k + 1) * k) by {
                assert((over / k + 1) * k == k * (over / k) + k) by (nonlinear_arith);
            }
            vstd::arithmetic::div_mod::lemma_mod_multiples_vanish(over / k + 1, next - first, k);
            assert(k * (over / k + 1) == (over / k + 1) * k) by (nonlinear_arith);
            lemma_first_end(k, first, ts as int, to);
            assert(end == to);
            assert(all == composites.push(next as i64));
            assert(all[composites.len() as int] == next);
        } else {
            lemma_first_end(k, first, latest(records, n) as int, next);
            assert(end == next);
            assert(all == composites);
        }
        assert forall|i: int| 0 <= i < records.len() implies composes(
            all,
            #[trigger] cycle_end(c.cycle_ms, records, i),
        ) || cycle_end(c.cycle_ms, records, i) == after.next_ms->Some_0 by {
            if i < n {
                let e = cycle_end(c.cycle_ms, head, i);
                if composes(composites, e) {
                    let a = choose|a: int|
                        0 <= a < composites.len() && (#[trigger] composites[a]) == e;
                    assert(all[a] == e);
                }
            }
        }
        assert forall|a: int| 0 <= a < all.len() implies (#[trigger] all[a]) < after.next_ms->Some_0
            && ends_one(c.cycle_ms, records, all[a]) by {
            if a < composites.len() {
                assert(all[a] == composites[a]);
                let i = choose|i: int|
                    0 <= i < head.len() && composites[a] == #[trigger] cycle_end(
                        c.cycle_ms,
                        head,
                        i,
                    );
                assert(all[a] == cycle_end(c.cycle_ms, records, i));
            } else {
                assert(all[a] == cycle_end(c.cycle_ms, records, n - 1));
            }
        }
    }
}

/// Every cycle in which some record arrives has exactly one composite, at its end,
/// and no other instant has one: over a stream, the composites ascend strictly, and
/// their boundaries are the ends of the cycles of its records.
pub proof fn every_cycle_with_a_record_has_one_composite(c: CycleClock, records: Seq<i64>)
    requires
        c.cycle_ms > 0,
        c.next_ms is None,
        !c.dirty,
        forall|i: int| 0 <= i < records.len() ==> (#[trigger] records[i]) + c.cycle_ms <= i64::MAX,
    ensures
        forall|a: int, b: int|
            0 <= a < b < composed(c, records).len() ==> (#[trigger] composed(c, records)[a]) < (
            #[trigger] composed(c, records)[b]),
        forall|a: int|
            0 <= a < composed(c, records).len() ==> ends_one(
                c.cycle_ms,
                records,
                #[trigger] composed(c, records)[a],
            ),
        forall|i: int|
            0 <= i < records.len() ==> composes(
                composed(c, records),
                #[trigger] cycle_end(c.cycle_ms, records, i),
            ),
{
    if records.len() > 0 {
        lemma_clock_keeps_up(c, records);
        let (d, composites) = clocked(c, records);
        let all = composed(c, records);
        let n = records.len() - 1;
        assert(all == composites.push(d.next_ms->Some_0));
        assert(all[composites.len() as int] == cycle_end(c.cycle_ms, records, n));
        assert forall|i: int| 0 <= i < records.len() implies composes(
            all,
            #[trigger] cycle_end(c.cycle_ms, records, i),
        ) by {
            let e = cycle_end(c.cycle_ms, records, i);
            if composes(composites, e) {
                let a = choose|a: int| 0 <= a < composites.len() && (#[trigger] composites[a]) == e;
                assert(all[a] == e);
            }
        }
    }
}

/// Distance of an instant from the first record, for the simulated clock; never
/// negative.
pub fn sim_offset(ms: i64, anchor_ms: i64) -> (d: u64)
    requires
        ms - anchor_ms <= i64::MAX,
        ms - anchor_ms >= i64::MIN,
    ensures
        d == if ms > anchor_ms {
            ms - anchor_ms
        } else {
            0
        },
{
    let d: i64 = ms - anchor_ms;
    if d > 0 {
        d as u64
    } else {
        0
    }
}

/// What a read of a window of records gave.
#[derive(Clone, Copy, Debug, PartialEq, Eq, Structural)]
pub enum ReadOutcome {
    /// The stream is at its end.
    End,
    /// The bytes do not divide into records.
    Misaligned,
    /// So many records; `last` when the stream ends with them.
    Records { n: usize, last: bool },
}

/// Reads the number of bytes that filled a window of `window` bytes.
pub fn refill_outcome(filled: usize, window: usize, record: usize) -> (o: ReadOutcome)
    requires
        record > 0,
    ensures
        o == if filled == 0 {
            ReadOutcome::End
        } else if filled % record != 0 {
            ReadOutcome::Misaligned
        } else {
            ReadOutcome::Records { n: (filled / record) as usize, last: filled < window }
        },
{
    if filled == 0 {
        ReadOutcome::End
    } else if filled % record != 0 {
        ReadOutcome::Misaligned
    } else {
        ReadOutcome::Records { n: filled / record, last: filled < window }
    }
}

/// Whether the writer opens another shard: the record is of another day.
pub fn needs_rotation(open_day: Option<i64>, ts_ms: i64) -> (b: bool)
    ensures
        b == match open_day {
            Some(d) => d != ts_ms as int / 86_400_000,
            None => true,
        },
{
    let day: i64 = match ts_ms.checked_div_euclid(86_400_000) {
        Some(day) => day,
        None => 0,
    };
    match open_day {
        Some(d) => d != day,
        None => true,
    }
}

/// First and last timestamp of a shard.
#[derive(Clone, Copy, Debug, PartialEq, Eq, Structural)]
pub struct ShardSpan {
    pub n_records: u64,
    pub first_ts: i64,
    pub last_ts: i64,
}

pub open spec fn least_first(chunks: Seq<(i64, i64)>, m: i64) -> bool {
    &&& forall|i: int| 0 <= i < chunks.len() ==> m <= (#[trigger] chunks[i]).0
    &&& chunks.len() > 0 ==> exists|i: int| 0 <= i < chunks.len() && (#[trigger] chunks[i]).0 == m
}

pub open spec fn greatest_last(chunks: Seq<(i64, i64)>, m: i64) -> bool {
    &&& forall|i: int| 0 <= i < chunks.len() ==> (#[trigger] chunks[i]).1 <= m
    &&& chunks.len() > 0 ==> exists|i: int| 0 <= i < chunks.len() && (#[trigger] chunks[i]).1 == m
}

/// Describes a shard of `bytes` from the first and last timestamp of each chunk
/// read of it.
pub fn shard_entry_for_idx(bytes: u64, record: u64, chunks: &Vec<(i64, i64)>) -> (s: ShardSpan)
    requires
        record > 0,
        bytes >= record ==> chunks.len() > 0,
    ensures
        s.n_records == bytes / record,
        s.n_records == 0 ==> s.first_ts == 0 && s.last_ts == 0,
        s.n_records > 0 ==> least_first(chunks@, s.first_ts) && greatest_last(chunks@, s.last_ts),
{
    let n_records: u64 = bytes / record;
    let mut first: i64 = i64::MAX;
    let mut last: i64 = i64::MIN;
    let mut i: usize = 0;
    while i < chunks.len()
        invariant
            i <= chunks.len(),
            least_first(chunks@.take(i as int), first),
            greatest_last(chunks@.take(i as int), last),
            i == 0 ==> first == i64::MAX && last == i64::MIN,
        decreases chunks.len() - i,
    {
        let (a, b) = chunks[i];
        let ghost head = chunks@.take(i as int);
        let ghost grown = chunks@.take(i + 1);
        let ghost f0 = first;
        let ghost l0 = last;
        if a < first {
            first = a;
        }
        if b > last {
            last = b;
        }
        proof {
            assert(grown[i as int] == (a, b));
            if i > 0 {
                let k = choose|k: int| 0 <= k < head.len() && (#[trigger] head[k]).0 == f0;
                let l = choose|l: int| 0 <= l < head.len() && (#[trigger] head[l]).1 == l0;
                assert(grown[k].0 == f0);
                assert(grown[l].1 == l0);
            } else {
                assert(a <= i64::MAX && b >= i64::MIN);
                assert(grown[0].0 == first);
                assert(grown[0].1 == last);
            }
            assert forall|k: int| 0 <= k < grown.len() implies first <= (#[trigger] grown[k]).0 && grown[k].1 <= last by {
                if k < i {
                    assert(grown[k] == head[k]);
                }
            }
        }
        i = i + 1;
    }
    assert(chunks@.take(chunks.len() as int) =~= chunks@);
    proof {
        if n_records > 0 {
            assert(bytes >= record) by (nonlinear_arith)
                requires
                    bytes as int / record as int > 0,
                    record > 0,
            ;
        }
    }
    if n_records == 0 {
        ShardSpan { n_records, first_ts: 0, last_ts: 0 }
    } else {
        ShardSpan { n_records, first_ts: first, last_ts: last }
    }
}

/// Position of the first equals sign.
pub open spec fn equals_at(s: Seq<char>, k: int) -> bool {
    0 <= k < s.len() && s[k] == '=' && forall|j: int| 0 <= j < k ==> s[j] != '='
}

/// Splits a weight argument `name=number` at its first equals sign.
pub fn split_weight(spec_arg: &str) -> (r: Option<(String, String)>)
    ensures
        r is Some <==> spec_arg@.contains('='),
        r matches Some((name, value)) ==> exists|k: int| #[trigger]
            equals_at(spec_arg@, k) && name@ == text::trimmed(spec_arg@.take(k)) && value@
                == text::trimmed(spec_arg@.skip(k + 1)),
{
    let n: usize = spec_arg.unicode_len();
    let mut i: usize = 0;
    while i < n
        invariant
            i <= n,
            n == spec_arg@.len(),
            forall|j: int| 0 <= j < i ==> spec_arg@[j] != '=',
        decreases n - i,
    {
        if spec_arg.get_char(i) == '=' {
            let name = text::trim(spec_arg.substring_char(0, i));
            let value = text::trim(spec_arg.substring_char(i + 1, n));
            proof {
                assert(equals_at(spec_arg@, i as int));
                assert(spec_arg@.subrange(0, i as int) =~= spec_arg@.take(i as int));
                assert(spec_arg@.subrange(i + 1, n as int) =~= spec_arg@.skip(i + 1));
            }
            return Some((name, value));
        }
        i = i + 1;
    }
    None
}

/// One.
pub const EQUAL_WEIGHT: u64 = 0x3ff0_0000_0000_0000;

/// The last weight given for a name.
pub open spec fn weight_in(list: Seq<(String, Double)>, name: Seq<char>) -> Option<Double>
    decreases list.len(),
{
    if list.len() == 0 {
        None
    } else if list.last().0@ == name {
        Some(list.last().1)
    } else {
        weight_in(list.drop_last(), name)
    }
}

/// The weight in force: an override; else the configured weight; else, where
/// nothing is configured, one for each exchange named.
pub open spec fn weight_of(
    configured: Seq<(String, Double)>,
    exchanges: Seq<String>,
    overrides: Seq<(String, Double)>,
    name: Seq<char>,
) -> Option<Double> {
    match weight_in(overrides, name) {
        Some(w) => Some(w),
        None => if configured.len() > 0 {
            weight_in(configured, name)
        } else if text::texts(exchanges).contains(name) {
            Some(Double { bits: EQUAL_WEIGHT })
        } else {
            None
        },
    }
}

/// The weight of a name is the last one given for it; there is none exactly if none was
/// given.
pub proof fn later_weights_prevail(list: Seq<(String, Double)>, name: Seq<char>)
    ensures
        weight_in(list, name) is None <==> forall|i: int|
            0 <= i < list.len() ==> (#[trigger] list[i]).0@ != name,
        weight_in(list, name) matches Some(w) ==> exists|i: int|
            0 <= i < list.len() && (#[trigger] list[i]).0@ == name && list[i].1 == w && forall|j: int|
                i < j < list.len() ==> (#[trigger] list[j]).0@ != name,
    decreases list.len(),
{
    if list.len() > 0 {
        let rest = list.drop_last();
        let n = list.len() - 1;
        later_weights_prevail(rest, name);
        assert(list[n] == list.last());
        assert forall|i: int| 0 <= i < rest.len() implies #[trigger] rest[i] == list[i] by {}
        if list.last().0@ != name {
            if let Some(w) = weight_in(rest, name) {
                let i = choose|i: int|
                    0 <= i < rest.len() && (#[trigger] rest[i]).0@ == name && rest[i].1 == w
                        && forall|j: int| i < j < rest.len() ==> (#[trigger] rest[j]).0@ != name;
                assert(list[i] == rest[i]);
                assert forall|j: int| i < j < list.len() implies (#[trigger] list[j]).0@ != name by {
                    if j < n {
                        assert(rest[j] == list[j]);
                    }
                }
            } else {
                assert forall|i: int| 0 <= i < list.len() implies (#[trigger] list[i]).0@ != name by {
                    if i < n {
                        assert(rest[i] == list[i]);
                    }
                }
            }
        }
    }
}

/// An override prevails over what is configured, whatever that is; a configured exchange
/// has its weight; one that is not has none where any is configured, and weight one where
/// none is and it was asked for.
pub proof fn overrides_prevail(
    configured: Seq<(String, Double)>,
    exchanges: Seq<String>,
    overrides: Seq<(String, Double)>,
    name: Seq<char>,
)
    ensures
        ({
            let w = weight_of(configured, exchanges, overrides, name);
            &&& weight_in(overrides, name) is Some ==> w == weight_in(overrides, name)
            &&& weight_in(overrides, name) is None && configured.len() > 0 ==> w == weight_in(
                configured,
                name,
            )
            &&& weight_in(overrides, name) is None && configured.len() == 0 ==> (w is Some
                <==> exists|i: int| 0 <= i < exchanges.len() && (#[trigger] exchanges[i])@ == name)
            &&& weight_in(overrides, name) is None && configured.len() == 0 && w is Some ==> w
                == Some(Double { bits: 0x3ff0_0000_0000_0000 })
        }),
{
    let all = text::texts(exchanges);
    assert forall|i: int| 0 <= i < all.len() implies #[trigger] all[i] == exchanges[i]@ by {}
    if exists|i: int| 0 <= i < exchanges.len() && (#[trigger] exchanges[i])@ == name {
        let i = choose|i: int| 0 <= i < exchanges.len() && (#[trigger] exchanges[i])@ == name;
        assert(all[i] == name);
    }
    if all.contains(name) {
        let i = choose|i: int| 0 <= i < all.len() && all[i] == name;
        assert(exchanges[i]@ == name);
    }
}

/// The last weight given for a name.
pub fn find_weight(list: &Vec<(String, Double)>, name: &str) -> (w: Option<Double>)
    ensures
        w == weight_in(list@, name@),
{
    let mut n: usize = list.len();
    assert(list@.take(n as int) =~= list@);
    while n > 0
        invariant
            n <= list.len(),
            weight_in(list@, name@) == weight_in(list@.take(n as int), name@),
        decreases n,
    {
        proof {
            assert(list@.take(n as int).drop_last() =~= list@.take(n - 1));
            assert(list@.take(n as int).last() == list@[n - 1]);
        }
        if text::same(list[n - 1].0.as_str(), name) {
            return Some(list[n - 1].1);
        }
        n = n - 1;
    }
    None
}

/// The weight of one exchange.
pub fn resolve_weight(
    configured: &Vec<(String, Double)>,
    exchanges: &Vec<String>,
    overrides: &Vec<(String, Double)>,
    name: &str,
) -> (w: Option<Double>)
    ensures
        w == weight_of(configured@, exchanges@, overrides@, name@),
{
    if let Some(w) = find_weight(overrides, name) {
        return Some(w);
    }
    if configured.len() > 0 {
        return find_weight(configured, name);
    }
    if text::holds(exchanges, name) {
        Some(Double { bits: EQUAL_WEIGHT })
    } else {
        None
    }
}

/// Names and weights, the weights as a document says them.
pub open spec fn pairs(list: Seq<(String, Double)>) -> Seq<(Seq<char>, Option<Double>)> {
    Seq::new(list.len(), |i: int| (list[i].0@, yaml::amount(list[i].1)))
}

/// The first `n` entries that have a number under `weight`, in order.
pub open spec fn weights_among(entries: Seq<(Seq<char>, Tree)>, n: int) -> Seq<
    (Seq<char>, Option<Double>),
>
    decreases n,
{
    if n <= 0 {
        Seq::empty()
    } else {
        let so_far = weights_among(entries, n - 1);
        match yaml::under(entries[n - 1].1, "weight"@) {
            Some(Tree::Number(w)) => so_far.push((entries[n - 1].0, w)),
            _ => so_far,
        }
    }
}

/// Entry `i` has a number under `weight`.
pub open spec fn weighs(
    entries: Seq<(Seq<char>, Tree)>,
    i: int,
    name: Seq<char>,
    w: Option<Double>,
) -> bool {
    entries[i].0 == name && yaml::under(entries[i].1, "weight"@) == Some(Tree::Number(w))
}

/// A weight is listed exactly if an entry has it.
pub proof fn entries_with_a_number_are_listed(
    entries: Seq<(Seq<char>, Tree)>,
    n: int,
    name: Seq<char>,
    w: Option<Double>,
)
    requires
        0 <= n <= entries.len(),
    ensures
        weights_among(entries, n).contains((name, w)) <==> exists|i: int|
            0 <= i < n && #[trigger] weighs(entries, i, name, w),
    decreases n,
{
    if n > 0 {
        entries_with_a_number_are_listed(entries, n - 1, name, w);
        let before = weights_among(entries, n - 1);
        let all = weights_among(entries, n);
        if before.contains((name, w)) {
            let k = choose|k: int| 0 <= k < before.len() && before[k] == (name, w);
            assert(all[k] == (name, w));
        }
        if weighs(entries, n - 1, name, w) {
            assert(all[before.len() as int] == (name, w));
        }
        if all.contains((name, w)) {
            let k = choose|k: int| 0 <= k < all.len() && all[k] == (name, w);
            if k < before.len() {
                assert(before[k] == (name, w));
            } else {
                assert(weighs(entries, n - 1, name, w));
            }
        }
    }
}

/// What stands under `exchanges` in `cexs`.
pub open spec fn exchanges_in(t: Tree) -> Option<Tree> {
    match yaml::under(t, "cexs"@) {
        Some(c) => yaml::under(c, "exchanges"@),
        None => None,
    }
}

/// The exchanges of a configuration that have a weight, in order.
pub open spec fn listed_weights(t: Tree) -> Seq<(Seq<char>, Option<Double>)> {
    match exchanges_in(t) {
        Some(Tree::Table(entries)) => weights_among(entries, entries.len() as int),
        _ => Seq::empty(),
    }
}

/// The exchanges of a configuration that have a weight, in order.
pub fn weights_in(doc: &Yaml) -> (w: Vec<(String, Double)>)
    ensures
        pairs(w@) == listed_weights(yaml::tree(*doc)),
{
    let mut w: Vec<(String, Double)> = Vec::new();
    assert(pairs(w@) =~= Seq::empty());
    let found = match yaml::find(doc, "cexs") {
        Some(c) => yaml::find(c, "exchanges"),
        None => None,
    };
    assert(yaml::said(found) == exchanges_in(yaml::tree(*doc)));
    if let Some(part) = found {
        if let Yaml::Table(entries) = part {
            let ghost all = yaml::tree(*part)->Table_0;
            let mut i: usize = 0;
            while i < entries.len()
                invariant
                    i <= entries.len(),
                    all.len() == entries.len(),
                    forall|k: int|
                        0 <= k < all.len() ==> #[trigger] all[k] == (
                            entries@[k].0@,
                            yaml::tree(entries@[k].1),
                        ),
                    pairs(w@) == weights_among(all, i as int),
                decreases entries.len() - i,
            {
                assert(all[i as int].1 == yaml::tree(entries@[i as int].1));
                let ghost was = pairs(w@);
                if let Some(part) = yaml::find(&entries[i].1, "weight") {
                    if let Yaml::Number(d) = part {
                        w.push((entries[i].0.as_str().to_owned(), *d));
                        assert(pairs(w@) =~= was.push((all[i as int].0, yaml::amount(*d))));
                    }
                }
                i = i + 1;
            }
        }
    }
    w
}

/// The exchanges that a configuration gives a weight, in order; none where the text
/// is no document.
pub open spec fn weights_said(config: Seq<char>) -> Seq<(Seq<char>, Option<Double>)> {
    match yaml::yaml_tree(config) {
        Some(t) => listed_weights(t),
        None => Seq::empty(),
    }
}

/// The exchanges that a configuration gives a weight, in order; none where the text
/// is no document.
pub fn configured_weights(config: &str) -> (w: Vec<(String, Double)>)
    ensures
        pairs(w@) == weights_said(config@),
{
    match yaml::parse_yaml(config) {
        Some(doc) => weights_in(&doc),
        None => {
            let w: Vec<(String, Double)> = Vec::new();
            assert(pairs(w@) =~= Seq::empty());
            w
        },
    }
}

/// A list names an exchange.
pub open spec fn names_it(list: Seq<(String, Double)>, name: Seq<char>) -> bool {
    exists|i: int| 0 <= i < list.len() && (#[trigger] list[i]).0@ == name
}

proof fn lemma_named(list: Seq<(String, Double)>, name: Seq<char>)
    ensures
        names_it(list, name) <==> weight_in(list, name) is Some,
    decreases list.len(),
{
    if list.len() > 0 {
        let rest = list.drop_last();
        lemma_named(rest, name);
        if names_it(rest, name) {
            let i = choose|i: int| 0 <= i < rest.len() && (#[trigger] rest[i]).0@ == name;
            assert(list[i].0@ == name);
        }
        if names_it(list, name) && list.last().0@ != name {
            let i = choose|i: int| 0 <= i < list.len() && (#[trigger] list[i]).0@ == name;
            assert(rest[i].0@ == name);
        }
    }
}

fn add_names(names: &mut Vec<String>, list: &Vec<(String, Double)>)
    requires
        text::sorted(text::texts(old(names)@)),
    ensures
        text::sorted(text::texts(final(names)@)),
        forall|t: Seq<char>| #[trigger]
            text::texts(final(names)@).contains(t) <==> text::texts(old(names)@).contains(t)
                || names_it(list@, t),
{
    let ghost was = text::texts(names@);
    let mut i: usize = 0;
    while i < list.len()
        invariant
            i <= list.len(),
            text::sorted(text::texts(names@)),
            forall|t: Seq<char>| #[trigger]
                text::texts(names@).contains(t) <==> was.contains(t) || names_it(
                    list@.take(i as int),
                    t,
                ),
        decreases list.len() - i,
    {
        let ghost before = text::texts(names@);
        text::insert_sorted(names, list[i].0.as_str());
        proof {
            let head = list@.take(i as int);
            let grown = list@.take(i + 1);
            assert forall|t: Seq<char>| #[trigger]
                text::texts(names@).contains(t) <==> was.contains(t) || names_it(grown, t) by {
                assert(before.contains(t) <==> was.contains(t) || names_it(head, t));
                if names_it(head, t) {
                    let k = choose|k: int| 0 <= k < head.len() && (#[trigger] head[k]).0@ == t;
                    assert(grown[k].0@ == t);
                }
                assert(grown[i as int].0@ == list@[i as int].0@);
                if names_it(grown, t) && t != list@[i as int].0@ {
                    let k = choose|k: int| 0 <= k < grown.len() && (#[trigger] grown[k]).0@ == t;
                    assert(head[k].0@ == t);
                }
            }
        }
        i = i + 1;
    }
    assert(list@.take(list.len() as int) =~= list@);
}

/// The exchanges that have a weight, ascending, each once.
pub fn weighted_names(
    configured: &Vec<(String, Double)>,
    exchanges: &Vec<String>,
    overrides: &Vec<(String, Double)>,
) -> (names: Vec<String>)
    ensures
        text::sorted(text::texts(names@)),
        forall|name: Seq<char>| #[trigger]
            text::texts(names@).contains(name) <==> weight_of(
                configured@,
                exchanges@,
                overrides@,
                name,
            ) is Some,
{
    let mut names: Vec<String> = Vec::new();
    add_names(&mut names, overrides);
    if configured.len() > 0 {
        add_names(&mut names, configured);
    } else {
        let ghost was = text::texts(names@);
        let mut i: usize = 0;
        while i < exchanges.len()
            invariant
                i <= exchanges.len(),
                text::sorted(text::texts(names@)),
                forall|t: Seq<char>| #[trigger]
                    text::texts(names@).contains(t) <==> was.contains(t) || text::texts(
                        exchanges@,
                    ).take(i as int).contains(t),
            decreases exchanges.len() - i,
        {
            let ghost before = text::texts(names@);
            let ghost all = text::texts(exchanges@);
            text::insert_sorted(&mut names, exchanges[i].as_str());
            proof {
                assert(all.take(i + 1) =~= all.take(i as int).push(all[i as int]));
                assert forall|t: Seq<char>| #[trigger]
                    text::texts(names@).contains(t) <==> was.contains(t) || all.take(
                        i + 1,
                    ).contains(t) by {
                    assert(before.contains(t) <==> was.contains(t) || all.take(i as int).contains(t));
                    let head = all.take(i as int);
                    let grown = all.take(i + 1);
                    if head.contains(t) {
                        let k = choose|k: int| 0 <= k < head.len() && head[k] == t;
                        assert(grown[k] == t);
                    }
                    assert(grown[i as int] == all[i as int]);
                    if grown.contains(t) && t != all[i as int] {
                        let k = choose|k: int| 0 <= k < grown.len() && grown[k] == t;
                        assert(head[k] == t);
                    }
                }
            }
            i = i + 1;
        }
        assert(text::texts(exchanges@).take(exchanges.len() as int) =~= text::texts(exchanges@));
    }
    assert forall|name: Seq<char>| #[trigger]
        text::texts(names@).contains(name) <==> weight_of(
            configured@,
            exchanges@,
            overrides@,
            name,
        ) is Some by {
        lemma_named(overrides@, name);
        lemma_named(configured@, name);
    }
    names
}

/// The weights in force, by name: each exchange that has one, ascending, each once.
pub open spec fn in_force(
    configured: Seq<(String, Double)>,
    exchanges: Seq<String>,
    overrides: Seq<(String, Double)>,
    w: Seq<(String, Double)>,
) -> bool {
    &&& text::sorted(Seq::new(w.len(), |i: int| w[i].0@))
    &&& forall|i: int|
        0 <= i < w.len() ==> weight_of(configured, exchanges, overrides, (#[trigger] w[i]).0@)
            == Some(w[i].1)
    &&& forall|name: Seq<char>| #[trigger]
        weight_of(configured, exchanges, overrides, name) is Some ==> names_it(w, name)
}

/// The weights in force, from the text of the configuration, where there is one, the
/// exchanges asked for and the overrides.
pub fn resolve_weights(
    config: Option<&str>,
    exchanges: &Vec<String>,
    overrides: &Vec<(String, Double)>,
) -> (w: Vec<(String, Double)>)
    ensures
        exists|configured: Seq<(String, Double)>|
            {
                &&& pairs(configured) == match config {
                    Some(s) => weights_said(s@),
                    None => Seq::empty(),
                }
                &&& #[trigger] in_force(configured, exchanges@, overrides@, w@)
            },
{
    let configured: Vec<(String, Double)> = match config {
        Some(s) => configured_weights(s),
        None => Vec::new(),
    };
    assert(config is None ==> pairs(configured@) =~= Seq::empty());
    let names = weighted_names(&configured, exchanges, overrides);
    let ghost all = text::texts(names@);
    let mut w: Vec<(String, Double)> = Vec::new();
    let mut i: usize = 0;
    while i < names.len()
        invariant
            i <= names.len(),
            all == text::texts(names@),
            forall|name: Seq<char>| #[trigger]
                all.contains(name) <==> weight_of(configured@, exchanges@, overrides@, name) is Some,
            w.len() == i,
            forall|k: int|
                0 <= k < i ==> (#[trigger] w@[k]).0@ == all[k] && weight_of(
                    configured@,
                    exchanges@,
                    overrides@,
                    all[k],
                ) == Some(w@[k].1),
        decreases names.len() - i,
    {
        assert(all.contains(all[i as int]));
        if let Some(x) = resolve_weight(&configured, exchanges, overrides, names[i].as_str()) {
            w.push((names[i].as_str().to_owned(), x));
        }
        i = i + 1;
    }
    proof {
        assert(Seq::new(w@.len(), |i: int| w@[i].0@) =~= all);
        assert forall|name: Seq<char>| #[trigger]
            weight_of(configured@, exchanges@, overrides@, name) is Some implies names_it(w@, name) by {
            assert(all.contains(name));
            let k = choose|k: int| 0 <= k < all.len() && all[k] == name;
            assert(w@[k].0@ == name);
        }
        assert(in_force(configured@, exchanges@, overrides@, w@));
    }
    w
}

} // verus!
