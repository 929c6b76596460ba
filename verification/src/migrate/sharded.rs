//! Gluing backfilled and live records into daily shards, keyed by ticker id.
//!
//! Per ticker, backfill from before the live window and live records are merged,
//! sorted by time, and fed through the writer's delta gate.

use vstd::prelude::*;
use crate::calendar::Date;
use crate::ieee::Double;
use crate::tally;
use crate::text;

verus! {

/// The part of an index record that the writer's delta gate looks at.
#[derive(Clone, Copy, Debug)]
pub struct MarketRow {
    pub ts_ms: i64,
    pub bid: Double,
    pub ask: Double,
    pub vbid: u32,
    pub vask: u32,
    pub ci: u16,
}

/// Nothing of the market tuple moved.
pub open spec fn repeats(a: MarketRow, b: MarketRow) -> bool {
    a.bid.equals(b.bid) && a.ask.equals(b.ask) && a.vbid == b.vbid && a.vask == b.vask && a.ci
        == b.ci
}

fn is_repeat(a: &MarketRow, b: &MarketRow) -> (r: bool)
    ensures
        r == repeats(*a, *b),
{
    a.bid.num_eq(b.bid) && a.ask.num_eq(b.ask) && a.vbid == b.vbid && a.vask == b.vask && a.ci
        == b.ci
}

pub open spec fn epoch_day(ts_ms: i64) -> int {
    ts_ms as int / 86_400_000
}

fn day_of(ts_ms: i64) -> (d: i64)
    ensures
        d == epoch_day(ts_ms),
{
    match ts_ms.checked_div_euclid(86_400_000) {
        Some(d) => d,
        None => 0,
    }
}

/// Bounds on what is still to be migrated.
#[derive(Clone, Copy, Debug)]
pub struct Window {
    /// Retention: nothing older.
    pub cutoff_ms: i64,
    /// Newest record already migrated.
    pub watermark: i64,
}

pub open spec fn in_window(r: MarketRow, w: Window) -> bool {
    r.ts_ms >= w.cutoff_ms && r.ts_ms > w.watermark
}

/// First live timestamp; backfill from there on is dropped.
pub open spec fn live_start(live: Seq<MarketRow>) -> i64 {
    if live.len() > 0 {
        live[0].ts_ms
    } else {
        i64::MAX
    }
}

/// Row `i` of backfill followed by live.
pub open spec fn glued(backfill: Seq<MarketRow>, live: Seq<MarketRow>) -> Seq<MarketRow> {
    backfill + live
}

/// The rows fed to the writer: backfill before the live window, and live, as far
/// as they are in the window.
pub open spec fn feeds(backfill: Seq<MarketRow>, live: Seq<MarketRow>, w: Window) -> spec_fn(
    int,
) -> bool {
    |i: int|
        in_window(glued(backfill, live)[i], w) && (i >= backfill.len() || backfill[i].ts_ms
            < live_start(live))
}

/// Positions of the rows fed.
pub open spec fn fed(backfill: Seq<MarketRow>, live: Seq<MarketRow>, w: Window) -> Seq<int> {
    tally::hits(glued(backfill, live).len() as int, feeds(backfill, live, w))
}

/// Times of the rows at some positions.
pub open spec fn stamps(rows: Seq<MarketRow>, at: Seq<int>) -> Seq<i64> {
    at.map_values(|i: int| rows[i].ts_ms)
}

/// Some positions, put into an order.
pub open spec fn arranged(at: Seq<int>, order: Seq<usize>) -> Seq<usize> {
    Seq::new(order.len(), |k: int| at[order[k] as int] as usize)
}

/// `at` lists the rows fed in order of time; rows of one time stay as they were.
pub open spec fn merged(
    backfill: Seq<MarketRow>,
    live: Seq<MarketRow>,
    w: Window,
    at: Seq<usize>,
) -> bool {
    let chosen = fed(backfill, live, w);
    exists|order: Seq<usize>| #[trigger]
        tally::stable_order(stamps(glued(backfill, live), chosen), order) && at == arranged(
            chosen,
            order,
        )
}

/// The row that is fed `k`-th is kept: it is the first, or the market moved, or a
/// new day began.
pub open spec fn passes(rows: Seq<MarketRow>, at: Seq<usize>) -> spec_fn(int) -> bool {
    |k: int|
        k == 0 || !repeats(rows[at[k - 1] as int], rows[at[k] as int]) || epoch_day(
            rows[at[k - 1] as int].ts_ms,
        ) != epoch_day(rows[at[k] as int].ts_ms)
}

/// A row that is left out repeats one that is kept: the same market, earlier or at the
/// same place, on the same day. A row that is kept after another differs from the one
/// before it or begins a day.
pub proof fn rows_left_out_repeat_a_kept_row(rows: Seq<MarketRow>, at: Seq<usize>, k: int)
    requires
        0 <= k < at.len(),
    ensures
        exists|j: int|
            0 <= j <= k && #[trigger] passes(rows, at)(j) && epoch_day(rows[at[j] as int].ts_ms)
                == epoch_day(rows[at[k] as int].ts_ms) && (j == k || (rows[at[j] as int].bid.equals(
                rows[at[k] as int].bid,
            ) && rows[at[j] as int].ask.equals(rows[at[k] as int].ask) && rows[at[j] as int].vbid
                == rows[at[k] as int].vbid && rows[at[j] as int].vask == rows[at[k] as int].vask
                && rows[at[j] as int].ci == rows[at[k] as int].ci)),
        k > 0 && passes(rows, at)(k) ==> !(rows[at[k - 1] as int].bid.equals(rows[at[k] as int].bid)
            && rows[at[k - 1] as int].ask.equals(rows[at[k] as int].ask) && rows[at[k
            - 1] as int].vbid == rows[at[k] as int].vbid && rows[at[k - 1] as int].vask
            == rows[at[k] as int].vask && rows[at[k - 1] as int].ci == rows[at[k] as int].ci)
            || rows[at[k - 1] as int].ts_ms as int / 86_400_000 != rows[at[k] as int].ts_ms as int
            / 86_400_000,
    decreases k,
{
    if passes(rows, at)(k) {
    } else {
        rows_left_out_repeat_a_kept_row(rows, at, k - 1);
        let j = choose|j: int|
            0 <= j <= k - 1 && #[trigger] passes(rows, at)(j) && epoch_day(rows[at[j] as int].ts_ms)
                == epoch_day(rows[at[k - 1] as int].ts_ms) && (j == k - 1 || (rows[at[j] as int].bid.equals(
                rows[at[k - 1] as int].bid,
            ) && rows[at[j] as int].ask.equals(rows[at[k - 1] as int].ask)
                && rows[at[j] as int].vbid == rows[at[k - 1] as int].vbid && rows[at[j] as int].vask
                == rows[at[k - 1] as int].vask && rows[at[j] as int].ci == rows[at[k
                - 1] as int].ci));
        assert(passes(rows, at)(j));
    }
}

/// A row is fed exactly if retention keeps it, it is newer than what was migrated, and it
/// is live or before the first live row.
pub proof fn fed_rows_are_new_and_kept(
    backfill: Seq<MarketRow>,
    live: Seq<MarketRow>,
    w: Window,
    i: int,
)
    requires
        0 <= i < backfill.len() + live.len(),
    ensures
        ({
            let r = if i < backfill.len() {
                backfill[i]
            } else {
                live[i - backfill.len()]
            };
            fed(backfill, live, w).contains(i) <==> w.cutoff_ms <= r.ts_ms && w.watermark < r.ts_ms
                && (i >= backfill.len() || (live.len() > 0 ==> r.ts_ms < live[0].ts_ms) && (
            live.len() == 0 ==> r.ts_ms < i64::MAX))
        }),
{
    let n = glued(backfill, live).len() as int;
    let p = feeds(backfill, live, w);
    tally::lemma_hits(n, p);
    let h = tally::hits(n, p);
    assert(p(i) ==> h.contains(i));
    if h.contains(i) {
        let k = choose|k: int| 0 <= k < h.len() && h[k] == i;
        assert(p(h[k]));
    }
}

fn feeds_row(r: &MarketRow, before: i64, w: Window) -> (b: bool)
    ensures
        b == (in_window(*r, w) && r.ts_ms < before),
{
    r.ts_ms < before && r.ts_ms >= w.cutoff_ms && r.ts_ms > w.watermark
}

/// Positions, in backfill followed by live, of the rows to feed, in order of time.
pub fn rows_to_feed(backfill: &Vec<MarketRow>, live: &Vec<MarketRow>, w: Window) -> (at: Vec<usize>)
    requires
        backfill.len() + live.len() <= usize::MAX,
    ensures
        merged(backfill@, live@, w, at@),
{
    let ghost rows = glued(backfill@, live@);
    let ghost p = feeds(backfill@, live@, w);
    let start: i64 = if live.len() > 0 {
        live[0].ts_ms
    } else {
        i64::MAX
    };
    let n: usize = backfill.len() + live.len();
    let mut chosen: Vec<usize> = Vec::new();
    let mut keys: Vec<i64> = Vec::new();
    let mut i: usize = 0;
    while i < n
        invariant
            i <= n,
            n == backfill.len() + live.len(),
            start == live_start(live@),
            rows == glued(backfill@, live@),
            p == feeds(backfill@, live@, w),
            chosen.len() == tally::hits(i as int, p).len(),
            keys@ == stamps(rows, tally::hits(i as int, p)),
            forall|k: int| 0 <= k < chosen.len() ==> #[trigger] chosen@[k] == tally::hits(i as int, p)[k],
        decreases n - i,
    {
        let (row, feed) = if i < backfill.len() {
            let r = backfill[i];
            (r, feeds_row(&r, start, w))
        } else {
            let r = live[i - backfill.len()];
            (r, r.ts_ms >= w.cutoff_ms && r.ts_ms > w.watermark)
        };
        assert(rows[i as int] == row);
        assert(feed == p(i as int));
        if feed {
            chosen.push(i);
            keys.push(row.ts_ms);
            assert(keys@ =~= stamps(rows, tally::hits(i + 1, p)));
        }
        i = i + 1;
    }
    let order: Vec<usize> = tally::stable_sort_order(&keys);
    let mut at: Vec<usize> = Vec::new();
    let mut k: usize = 0;
    while k < order.len()
        invariant
            k <= order.len(),
            at.len() == k,
            order.len() == chosen.len(),
            chosen.len() == fed(backfill@, live@, w).len(),
            forall|j: int| 0 <= j < order.len() ==> (#[trigger] order@[j]) < chosen.len(),
            forall|j: int|
                0 <= j < chosen.len() ==> #[trigger] chosen@[j] == fed(backfill@, live@, w)[j],
            forall|j: int| 0 <= j < k ==> #[trigger] at@[j] == chosen@[order@[j] as int],
        decreases order.len() - k,
    {
        at.push(chosen[order[k]]);
        k = k + 1;
    }
    assert(at@ =~= arranged(fed(backfill@, live@, w), order@));
    at
}

/// What is fed is merged: every row that qualifies and no other, once, in order of
/// time, and as it came where times are equal.
pub proof fn fed_rows_are_merged(
    backfill: Seq<MarketRow>,
    live: Seq<MarketRow>,
    w: Window,
    at: Seq<usize>,
)
    requires
        backfill.len() + live.len() <= usize::MAX,
        merged(backfill, live, w, at),
    ensures
        at.len() == tally::count(glued(backfill, live).len() as int, feeds(backfill, live, w)),
        forall|k: int|
            0 <= k < at.len() ==> (#[trigger] at[k]) < glued(backfill, live).len() && feeds(
                backfill,
                live,
                w,
            )(at[k] as int),
        forall|i: int|
            0 <= i < glued(backfill, live).len() && #[trigger] feeds(backfill, live, w)(i)
                ==> at.contains(i as usize),
        forall|k: int, l: int|
            0 <= k < l < at.len() ==> {
                let a = glued(backfill, live)[#[trigger] at[k] as int].ts_ms;
                let b = glued(backfill, live)[#[trigger] at[l] as int].ts_ms;
                a < b || (a == b && at[k] < at[l])
            },
{
    let rows = glued(backfill, live);
    let n = rows.len() as int;
    let p = feeds(backfill, live, w);
    let h = fed(backfill, live, w);
    let order = choose|order: Seq<usize>| #[trigger]
        tally::stable_order(stamps(rows, h), order) && at == arranged(h, order);
    tally::lemma_hits(n, p);
    tally::lemma_count_bounds(n, p);
    tally::lemma_stable_order_covers(stamps(rows, h), order);
    assert forall|k: int| 0 <= k < at.len() implies (#[trigger] at[k]) < n && p(at[k] as int) by {
        assert(at[k] == h[order[k] as int] as usize);
    }
    assert forall|i: int| 0 <= i < n && #[trigger] p(i) implies at.contains(i as usize) by {
        assert(h.contains(i));
        let j = choose|j: int| 0 <= j < h.len() && h[j] == i;
        assert(order.contains(j as usize));
        let k = choose|k: int| 0 <= k < order.len() && order[k] == j as usize;
        assert(at[k] == i as usize);
    }
    assert forall|k: int, l: int| 0 <= k < l < at.len() implies ({
        let a = rows[#[trigger] at[k] as int].ts_ms;
        let b = rows[#[trigger] at[l] as int].ts_ms;
        a < b || (a == b && at[k] < at[l])
    }) by {
        let x = order[k] as int;
        let y = order[l] as int;
        assert(stamps(rows, h)[x] == rows[h[x]].ts_ms);
        assert(stamps(rows, h)[y] == rows[h[y]].ts_ms);
        assert(0 <= h[x] < n && 0 <= h[y] < n);
    }
}

/// There is one way to merge.
pub proof fn merging_is_unique(
    backfill: Seq<MarketRow>,
    live: Seq<MarketRow>,
    w: Window,
    a: Seq<usize>,
    b: Seq<usize>,
)
    requires
        merged(backfill, live, w, a),
        merged(backfill, live, w, b),
    ensures
        a == b,
{
    let keys = stamps(glued(backfill, live), fed(backfill, live, w));
    let x = choose|x: Seq<usize>| #[trigger]
        tally::stable_order(keys, x) && a == arranged(fed(backfill, live, w), x);
    let y = choose|y: Seq<usize>| #[trigger]
        tally::stable_order(keys, y) && b == arranged(fed(backfill, live, w), y);
    tally::lemma_stable_order_unique(keys, x, y);
}

/// Rows that come in order of time are fed as they come.
pub proof fn ordered_rows_are_fed_as_they_come(
    backfill: Seq<MarketRow>,
    live: Seq<MarketRow>,
    w: Window,
    at: Seq<usize>,
)
    requires
        backfill.len() + live.len() <= usize::MAX,
        merged(backfill, live, w, at),
        forall|i: int, j: int|
            0 <= i < j < backfill.len() ==> (#[trigger] backfill[i]).ts_ms <= (
            #[trigger] backfill[j]).ts_ms,
        forall|i: int, j: int|
            0 <= i < j < live.len() ==> (#[trigger] live[i]).ts_ms <= (#[trigger] live[j]).ts_ms,
    ensures
        at.map_values(|i: usize| i as int) == fed(backfill, live, w),
{
    let rows = glued(backfill, live);
    let p = feeds(backfill, live, w);
    let h = fed(backfill, live, w);
    tally::lemma_hits(rows.len() as int, p);
    let plain = Seq::new(h.len(), |k: int| k as usize);
    tally::lemma_count_bounds(rows.len() as int, p);
    assert forall|k: int, l: int| 0 <= k < l < h.len() implies rows[#[trigger] h[k]].ts_ms
        <= rows[#[trigger] h[l]].ts_ms by {
        assert(p(h[k]) && p(h[l]));
        let a = h[k];
        let b = h[l];
        if b < backfill.len() {
            assert(backfill[a].ts_ms <= backfill[b].ts_ms);
        } else if a >= backfill.len() {
            assert(live[a - backfill.len()].ts_ms <= live[b - backfill.len()].ts_ms);
        } else {
            assert(rows[b] == live[b - backfill.len()]);
            assert(live[0].ts_ms <= live[b - backfill.len()].ts_ms);
        }
    }
    assert(tally::stable_order(stamps(rows, h), plain));
    let same = arranged(h, plain);
    assert(merged(backfill, live, w, same));
    merging_is_unique(backfill, live, w, at, same);
    assert(at.map_values(|i: usize| i as int) =~= h);
}

/// Rows of one ticker in the window, and rows that are kept.
#[derive(Clone, Copy, Debug, PartialEq, Eq, Structural)]
pub struct GlueCount {
    pub seen: usize,
    pub written: usize,
}

fn row_at(backfill: &Vec<MarketRow>, live: &Vec<MarketRow>, i: usize) -> (r: MarketRow)
    requires
        i < backfill.len() + live.len(),
    ensures
        r == glued(backfill@, live@)[i as int],
{
    if i < backfill.len() {
        backfill[i]
    } else {
        live[i - backfill.len()]
    }
}

/// What a migration of one ticker would write.
pub fn glue_count(backfill: &Vec<MarketRow>, live: &Vec<MarketRow>, w: Window) -> (c: GlueCount)
    requires
        backfill.len() + live.len() <= usize::MAX,
    ensures
        exists|at: Seq<usize>| #[trigger]
            merged(backfill@, live@, w, at) && c.seen == at.len() && c.written == tally::count(
                at.len() as int,
                passes(glued(backfill@, live@), at),
            ),
{
    let at: Vec<usize> = rows_to_feed(backfill, live, w);
    let ghost rows = glued(backfill@, live@);
    proof {
        fed_rows_are_merged(backfill@, live@, w, at@);
    }
    let mut written: usize = 0;
    let mut k: usize = 0;
    while k < at.len()
        invariant
            k <= at.len(),
            written <= k,
            rows == glued(backfill@, live@),
            written == tally::count(k as int, passes(rows, at@)),
            forall|j: int| 0 <= j < at.len() ==> (#[trigger] at@[j]) < backfill.len() + live.len(),
        decreases at.len() - k,
    {
        let through = if k == 0 {
            true
        } else {
            let p = row_at(backfill, live, at[k - 1]);
            let r = row_at(backfill, live, at[k]);
            !is_repeat(&p, &r) || day_of(p.ts_ms) != day_of(r.ts_ms)
        };
        assert(through == passes(rows, at@)(k as int));
        if through {
            written = written + 1;
        }
        k = k + 1;
    }
    GlueCount { seen: at.len(), written }
}

/// `w` is the newest of the shards' newest records; nothing is newer than no
/// record.
pub open spec fn newest_of(shards: Seq<Option<i64>>, w: i64) -> bool {
    &&& forall|i: int| 0 <= i < shards.len() ==> ((#[trigger] shards[i]) matches Some(ts) ==> ts <= w)
    &&& shards.contains(Some(w)) || (w == i64::MIN && forall|i: int|
        0 <= i < shards.len() ==> (#[trigger] shards[i]) is None)
}

/// Time of the newest migrated record, from the newest record of each shard, as
/// far as a shard holds any; `i64::MIN` where none does.
pub fn idx_watermark(last_of_shards: &Vec<Option<i64>>) -> (w: i64)
    ensures
        newest_of(last_of_shards@, w),
{
    let mut best: Option<i64> = None;
    let mut i: usize = 0;
    while i < last_of_shards.len()
        invariant
            i <= last_of_shards.len(),
            best is None ==> forall|k: int|
                0 <= k < i ==> (#[trigger] last_of_shards@[k]) is None,
            best matches Some(b) ==> {
                &&& last_of_shards@.contains(Some(b))
                &&& forall|k: int|
                    0 <= k < i ==> ((#[trigger] last_of_shards@[k]) matches Some(ts) ==> ts <= b)
            },
        decreases last_of_shards.len() - i,
    {
        let at: Option<i64> = last_of_shards[i];
        if let Some(ts) = at {
            assert(last_of_shards@[i as int] == Some(ts));
            best = match best {
                Some(b) => if b < ts {
                    Some(ts)
                } else {
                    Some(b)
                },
                None => Some(ts),
            };
        }
        i = i + 1;
    }
    match best {
        Some(b) => b,
        None => i64::MIN,
    }
}

/// Some shard holds a record at or after a time.
pub open spec fn reached(shards: Seq<Option<i64>>, ts: i64) -> bool {
    exists|i: int| 0 <= i < shards.len() && ((#[trigger] shards[i]) matches Some(t) && ts <= t)
}

/// Repeating a migration feeds nothing: once the shards have reached every row
/// that retention keeps, no row is in the window. Empty shards do no harm,
/// wherever they stand.
pub proof fn migration_is_idempotent(
    backfill: Seq<MarketRow>,
    live: Seq<MarketRow>,
    shards: Seq<Option<i64>>,
    w: Window,
    at: Seq<usize>,
)
    requires
        backfill.len() + live.len() <= usize::MAX,
        newest_of(shards, w.watermark),
        forall|i: int|
            0 <= i < glued(backfill, live).len() && (#[trigger] glued(backfill, live)[i]).ts_ms
                >= w.cutoff_ms ==> reached(shards, glued(backfill, live)[i].ts_ms),
        merged(backfill, live, w, at),
    ensures
        at.len() == 0,
{
    let n = glued(backfill, live).len() as int;
    fed_rows_are_merged(backfill, live, w, at);
    tally::lemma_count_zero(n, feeds(backfill, live, w));
    assert forall|i: int| 0 <= i < n implies !#[trigger] feeds(backfill, live, w)(i) by {
        let r = glued(backfill, live)[i];
        if r.ts_ms >= w.cutoff_ms {
            assert(reached(shards, r.ts_ms));
        }
    }
}

/// A destination is removed before a migration: it is there, it is to be written
/// anew, and the run does more than report.
pub open spec fn clears(exists: bool, force: bool, report_only: bool) -> bool {
    exists && force && !report_only
}

/// Whether a destination is removed before a migration.
pub fn clears_first(exists: bool, force: bool, report_only: bool) -> (b: bool)
    ensures
        b == clears(exists, force, report_only),
{
    exists && force && !report_only
}

/// What happens to the index of one ticker.
#[derive(Clone, Copy, Debug, PartialEq, Eq, Structural)]
pub enum IdxAction {
    /// Count what would be written after a time.
    Report { watermark: i64 },
    /// Write what comes after a time.
    Write { watermark: i64 },
}

/// Migrated records count as such up to this time: that of the newest, or none where
/// they are written anew.
pub open spec fn migrated_up_to(shards: Seq<Option<i64>>, force: bool, w: i64) -> bool {
    if force {
        w == i64::MIN
    } else {
        newest_of(shards, w)
    }
}

/// The action is the one for a ticker whose shards end so.
pub open spec fn decided(
    report_only: bool,
    force: bool,
    shards: Seq<Option<i64>>,
    a: IdxAction,
) -> bool {
    match a {
        IdxAction::Report { watermark } => report_only && migrated_up_to(shards, force, watermark),
        IdxAction::Write { watermark } => !report_only && migrated_up_to(shards, force, watermark),
    }
}

/// Decides on the index of one ticker, from the newest record of each shard: whether
/// the run writes or only counts, and from where on.
pub fn idx_action(report_only: bool, force: bool, last_of_shards: &Vec<Option<i64>>) -> (a: IdxAction)
    ensures
        decided(report_only, force, last_of_shards@, a),
{
    let watermark: i64 = if force {
        i64::MIN
    } else {
        idx_watermark(last_of_shards)
    };
    if report_only {
        IdxAction::Report { watermark }
    } else {
        IdxAction::Write { watermark }
    }
}

/// `ids` lists the members of both, ascending, each once.
pub open spec fn union_of(a: Seq<u64>, b: Seq<u64>, ids: Seq<u64>) -> bool {
    &&& forall|i: int, j: int| 0 <= i < j < ids.len() ==> (#[trigger] ids[i]) < (#[trigger] ids[j])
    &&& forall|x: u64| #[trigger] ids.contains(x) <==> a.contains(x) || b.contains(x)
}

fn insert_id(ids: &mut Vec<u64>, x: u64)
    requires
        forall|i: int, j: int|
            0 <= i < j < old(ids).len() ==> (#[trigger] old(ids)@[i]) < (#[trigger] old(ids)@[j]),
    ensures
        forall|i: int, j: int|
            0 <= i < j < final(ids).len() ==> (#[trigger] final(ids)@[i]) < (
            #[trigger] final(ids)@[j]),
        forall|y: u64| #[trigger] final(ids)@.contains(y) <==> old(ids)@.contains(y) || y == x,
{
    let ghost was = ids@;
    let mut at: usize = 0;
    while at < ids.len() && ids[at] < x
        invariant
            at <= ids.len(),
            ids@ == was,
            forall|i: int, j: int| 0 <= i < j < was.len() ==> (#[trigger] was[i]) < (#[trigger] was[j]),
            forall|i: int| 0 <= i < at ==> (#[trigger] was[i]) < x,
        ensures
            at == was.len() || was[at as int] >= x,
        decreases ids.len() - at,
    {
        at = at + 1;
    }
    if at < ids.len() && ids[at] == x {
        assert(was[at as int] == x);
        return;
    }
    ids.insert(at, x);
    proof {
        assert(ids@ =~= was.insert(at as int, x));
        assert forall|y: u64| #[trigger] ids@.contains(y) <==> was.contains(y) || y == x by {
            if was.contains(y) {
                let k = choose|k: int| 0 <= k < was.len() && was[k] == y;
                if k < at {
                    assert(ids@[k] == y);
                } else {
                    assert(ids@[k + 1] == y);
                }
            }
            if y == x {
                assert(ids@[at as int] == x);
            }
            if ids@.contains(y) && y != x {
                let k = choose|k: int| 0 <= k < ids@.len() && ids@[k] == y;
                if k < at {
                    assert(was[k] == y);
                } else {
                    assert(was[k - 1] == y);
                }
            }
        }
    }
}

/// All tickers that have live or backfilled data.
pub fn union_ids(a: &Vec<u64>, b: &Vec<u64>) -> (ids: Vec<u64>)
    ensures
        union_of(a@, b@, ids@),
{
    let mut ids: Vec<u64> = Vec::new();
    let mut i: usize = 0;
    while i < a.len()
        invariant
            i <= a.len(),
            forall|k: int, l: int| 0 <= k < l < ids.len() ==> (#[trigger] ids@[k]) < (#[trigger] ids@[l]),
            forall|x: u64| #[trigger] ids@.contains(x) <==> a@.take(i as int).contains(x),
        decreases a.len() - i,
    {
        let ghost head = a@.take(i as int);
        insert_id(&mut ids, a[i]);
        proof {
            let grown = a@.take(i + 1);
            assert forall|x: u64| #[trigger] ids@.contains(x) <==> grown.contains(x) by {
                lemma_take_contains(a@, i as int, x);
            }
        }
        i = i + 1;
    }
    assert(a@.take(a.len() as int) =~= a@);
    let mut j: usize = 0;
    while j < b.len()
        invariant
            j <= b.len(),
            forall|k: int, l: int| 0 <= k < l < ids.len() ==> (#[trigger] ids@[k]) < (#[trigger] ids@[l]),
            forall|x: u64| #[trigger] ids@.contains(x) <==> a@.contains(x) || b@.take(j as int).contains(x),
        decreases b.len() - j,
    {
        insert_id(&mut ids, b[j]);
        proof {
            let grown = b@.take(j + 1);
            assert forall|x: u64| #[trigger] ids@.contains(x) <==> a@.contains(x) || grown.contains(x) by {
                lemma_take_contains(b@, j as int, x);
            }
        }
        j = j + 1;
    }
    assert(b@.take(b.len() as int) =~= b@);
    ids
}

proof fn lemma_take_contains(s: Seq<u64>, i: int, x: u64)
    requires
        0 <= i < s.len(),
    ensures
        s.take(i + 1).contains(x) <==> s.take(i).contains(x) || x == s[i],
{
    let h = s.take(i);
    let g = s.take(i + 1);
    if h.contains(x) {
        let k = choose|k: int| 0 <= k < h.len() && h[k] == x;
        assert(g[k] == x);
    }
    if x == s[i] {
        assert(g[i] == x);
    }
    if g.contains(x) && x != s[i] {
        let k = choose|k: int| 0 <= k < g.len() && g[k] == x;
        assert(h[k] == x);
    }
}

/// `s` ends with `tail`.
pub open spec fn ends_with(s: Seq<char>, tail: Seq<char>) -> bool {
    s.len() >= tail.len() && s.subrange(s.len() - tail.len(), s.len() as int) == tail
}

/// `s` starts with `head`.
pub open spec fn starts_with(s: Seq<char>, head: Seq<char>) -> bool {
    s.len() >= head.len() && s.subrange(0, head.len() as int) == head
}

fn has_suffix(s: &str, tail: &str) -> (b: bool)
    ensures
        b == ends_with(s@, tail@),
{
    let n: usize = s.unicode_len();
    let m: usize = tail.unicode_len();
    n >= m && text::same(s.substring_char(n - m, n), tail)
}

/// The id of a flat live file, from its name `<id>.idx`.
pub fn flat_id(name: &str) -> (id: Option<u64>)
    ensures
        id == if ends_with(name@, ".idx"@) {
            text::number(name@.subrange(0, name@.len() - 4))
        } else {
            None
        },
{
    if !has_suffix(name, ".idx") {
        return None;
    }
    proof {
        reveal_strlit(".idx");
    }
    let n: usize = name.unicode_len();
    text::parse_u64(name.substring_char(0, n - 4))
}

/// `s` without any repetition of `tail` at its end.
pub open spec fn stripped(s: Seq<char>, tail: Seq<char>) -> Seq<char>
    decreases s.len(),
{
    if tail.len() > 0 && ends_with(s, tail) {
        stripped(s.subrange(0, s.len() - tail.len()), tail)
    } else {
        s
    }
}

fn strip<'a>(s: &'a str, tail: &str) -> (r: &'a str)
    requires
        tail@.len() > 0,
    ensures
        r@ == stripped(s@, tail@),
{
    let m: usize = tail.unicode_len();
    let mut r: &'a str = s;
    while has_suffix(r, tail)
        invariant
            m == tail@.len(),
            m > 0,
            stripped(s@, tail@) == stripped(r@, tail@),
        decreases r@.len(),
    {
        let n: usize = r.unicode_len();
        r = r.substring_char(0, n - m);
    }
    r
}

/// A flat index file or its backup, named by a ticker id.
pub open spec fn legacy_idx(name: Seq<char>) -> bool {
    (ends_with(name, ".idx"@) || ends_with(name, ".idx.bak"@)) && text::number(
        stripped(stripped(name, ".bak"@), ".idx"@),
    ) is Some
}

/// Whether a purge removes a file under the index root.
pub fn is_legacy_idx(name: &str) -> (b: bool)
    ensures
        b == legacy_idx(name@),
{
    proof {
        reveal_strlit(".bak");
        reveal_strlit(".idx");
    }
    if !has_suffix(name, ".idx") && !has_suffix(name, ".idx.bak") {
        return false;
    }
    let stem = strip(strip(name, ".bak"), ".idx");
    text::parse_u64(stem).is_some()
}

/// Whether a purge removes a directory under the bar root: one that no ticker id
/// names.
pub fn is_legacy_bars(name: &str) -> (b: bool)
    ensures
        b == (text::number(name@) is None),
{
    text::parse_u64(name).is_none()
}

/// The quote leg of a pair directory below its base directory.
pub fn pair_quote(base: &str, pair: &str) -> (quote: Option<String>)
    ensures
        quote is Some <==> starts_with(pair@, base@) && pair@.len() > base@.len(),
        quote matches Some(q) ==> q@ == pair@.subrange(base@.len() as int, pair@.len() as int),
{
    let n: usize = base.unicode_len();
    let m: usize = pair.unicode_len();
    if m > n && text::same(pair.substring_char(0, n), base) {
        Some(pair.substring_char(n, m).to_owned())
    } else {
        None
    }
}

/// What happens to one bar shard.
#[derive(Clone, Copy, Debug, PartialEq, Eq, Structural)]
pub enum BarShardAction {
    Skip,
    /// Report what would be copied.
    Report,
    Copy,
}

/// What happens to one bar shard.
pub open spec fn placed(
    date: Date,
    cutoff: Date,
    exists: bool,
    force: bool,
    bars: usize,
    report_only: bool,
) -> BarShardAction {
    if date.precedes(cutoff) || (exists && !force) || bars == 0 {
        BarShardAction::Skip
    } else if report_only {
        BarShardAction::Report
    } else {
        BarShardAction::Copy
    }
}

/// A run that only reports changes nothing: it removes no destination, writes no index
/// and copies no bars. What it reports is what the same run would else have done.
pub proof fn reports_change_nothing(
    exists: bool,
    force: bool,
    shards: Seq<Option<i64>>,
    told: IdxAction,
    done: IdxAction,
    date: Date,
    cutoff: Date,
    bars: usize,
)
    requires
        decided(true, force, shards, told),
        decided(false, force, shards, done),
    ensures
        !clears(exists, force, true),
        told matches IdxAction::Report { watermark } && done == (IdxAction::Write { watermark }),
        placed(date, cutoff, exists, force, bars, true) != BarShardAction::Copy,
        placed(date, cutoff, exists, force, bars, true) is Report <==> placed(
            date,
            cutoff,
            exists,
            force,
            bars,
            false,
        ) is Copy,
{
}

/// A bar shard is copied exactly if it is not older than the cutoff, holds bars, does not
/// replace one unless forced to, and the run does more than report.
pub proof fn bar_shards_are_copied_when_due(
    date: Date,
    cutoff: Date,
    exists: bool,
    force: bool,
    bars: usize,
    report_only: bool,
)
    ensures
        placed(date, cutoff, exists, force, bars, report_only) is Copy <==> !date.precedes(cutoff)
            && bars > 0 && (force || !exists) && !report_only,
{
}

/// Decides on one bar shard: nothing older than the cutoff, nothing that is
/// there unless forced, nothing empty.
pub fn place_bar_shard(
    date: Date,
    cutoff: Date,
    exists: bool,
    force: bool,
    bars: usize,
    report_only: bool,
) -> (a: BarShardAction)
    ensures
        a == placed(date, cutoff, exists, force, bars, report_only),
{
    if date.before(cutoff) || (exists && !force) || bars == 0 {
        BarShardAction::Skip
    } else if report_only {
        BarShardAction::Report
    } else {
        BarShardAction::Copy
    }
}

/// Whether a ticker is in the allow-list; without a list all are.
pub fn allowed(list: &Option<Vec<u64>>, id: u64) -> (b: bool)
    ensures
        b == match *list {
            Some(v) => v@.contains(id),
            None => true,
        },
{
    match list {
        None => true,
        Some(v) => holds(v, id),
    }
}

fn holds(v: &Vec<u64>, id: u64) -> (b: bool)
    ensures
        b == v@.contains(id),
{
    let mut i: usize = 0;
    while i < v.len()
        invariant
            i <= v.len(),
            forall|k: int| 0 <= k < i ==> v@[k] != id,
        decreases v.len() - i,
    {
        if v[i] == id {
            assert(v@[i as int] == id);
            return true;
        }
        i = i + 1;
    }
    false
}

} // verus!
