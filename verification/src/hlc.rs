//! Price ranges by time bucket.

use vstd::prelude::*;
use std::collections::HashMap;
use rayon::slice::ParallelSliceMut;
use crate::bucket;
use crate::ieee;
use crate::ieee::Double;
use crate::tally;

verus! {

pub const MS_PER_HOUR: i64 = 3_600_000;

pub const MS_PER_30MIN: i64 = 1_800_000;

/// A tick's time and middle price.
#[derive(Clone, Copy, Debug)]
pub struct Tick {
    pub ts: i64,
    pub mid: Double,
}

/// A quote's time, its two sides, and the middle price between them.
#[derive(Clone, Copy, Debug)]
pub struct Quote {
    pub ts: i64,
    pub bid: Double,
    pub ask: Double,
    pub mid: Double,
}

/// A price that can be used: finite and above zero.
pub open spec fn usable(p: Double) -> bool {
    p.finite() && p.positive()
}

/// Whether a price can be used.
pub fn is_usable(p: Double) -> (b: bool)
    ensures
        b == usable(p),
{
    p.is_finite() && p.is_positive()
}

/// The range of a bucket after one more quote. The first quote counts with its
/// middle price; a bid that is not above zero never lowers the range.
pub open spec fn widened(range: Option<(Double, Double)>, q: Quote) -> (Double, Double) {
    let (hi, lo) = match range {
        Some(r) => r,
        None => (ieee::larger(q.ask, q.mid), ieee::smaller(q.bid, q.mid)),
    };
    (
        if hi.below(q.ask) {
            q.ask
        } else {
            hi
        },
        if q.bid.below(lo) && q.bid.positive() {
            q.bid
        } else {
            lo
        },
    )
}

pub open spec fn at<V>(m: Map<i64, V>, k: i64) -> Option<V> {
    if m.contains_key(k) {
        Some(m[k])
    } else {
        None
    }
}

/// The ranges of the first `n` quotes by bucket. A quote without a usable middle
/// price counts for nothing.
pub open spec fn quote_ranges(q: Seq<Quote>, width: i64, n: int) -> Map<i64, (Double, Double)>
    decreases n,
{
    if n <= 0 {
        Map::empty()
    } else {
        let m = quote_ranges(q, width, n - 1);
        let x = q[n - 1];
        if usable(x.mid) {
            let k = bucket::start_of(x.ts, width) as i64;
            m.insert(k, widened(at(m, k), x))
        } else {
            m
        }
    }
}

fn widen(range: Option<(Double, Double)>, q: Quote) -> (r: (Double, Double))
    ensures
        r == widened(range, q),
{
    let (hi, lo) = match range {
        Some(r) => r,
        None => (ieee::max_of(q.ask, q.mid), ieee::min_of(q.bid, q.mid)),
    };
    let top = if hi.lt(q.ask) {
        q.ask
    } else {
        hi
    };
    let bottom = if q.bid.lt(lo) && q.bid.is_positive() {
        q.bid
    } else {
        lo
    };
    (top, bottom)
}

/// The ranges of quotes by bucket, highest ask and lowest bid, by ascending time.
pub fn gather_quotes(quotes: &Vec<Quote>, width: i64) -> (rows: Vec<(i64, (Double, Double))>)
    requires
        width > 0,
    ensures
        bucket::lists(rows@, quote_ranges(quotes@, width, quotes.len() as int)),
{
    let mut rows: Vec<(i64, (Double, Double))> = Vec::new();
    let mut i: usize = 0;
    while i < quotes.len()
        invariant
            i <= quotes.len(),
            width > 0,
            bucket::lists(rows@, quote_ranges(quotes@, width, i as int)),
        decreases quotes.len() - i,
    {
        let q = quotes[i];
        let ghost m = quote_ranges(quotes@, width, i as int);
        if is_usable(q.mid) {
            let k: i64 = bucket::bucket_start(q.ts, width);
            let seen = bucket::look(&rows, k);
            assert(seen == at(m, k));
            bucket::put(&mut rows, k, widen(seen, q));
        }
        i = i + 1;
    }
    rows
}

/// Quote `i` has a usable middle price and lies in the bucket at `key`.
pub open spec fn quoted(q: Seq<Quote>, width: i64, key: i64, i: int) -> bool {
    usable(q[i].mid) && bucket::holds(key as int, width, q[i].ts)
}

/// Quote `i` is the first of a bucket.
pub open spec fn first_quoted(q: Seq<Quote>, width: i64, key: i64, i: int) -> bool {
    quoted(q, width, key, i) && forall|j: int| 0 <= j < i ==> !#[trigger] quoted(q, width, key, j)
}

/// One of the first `n` quotes of a bucket gave its high: by its ask, or the first
/// of them by its middle price.
pub open spec fn tops(q: Seq<Quote>, width: i64, n: int, key: i64, hi: Double) -> bool {
    exists|i: int|
        0 <= i < n && #[trigger] quoted(q, width, key, i) && (q[i].ask == hi || (first_quoted(
            q,
            width,
            key,
            i,
        ) && q[i].mid == hi))
}

/// One of the first `n` quotes of a bucket gave its low: by its bid above zero, or
/// the first of them by its bid or its middle price.
pub open spec fn bottoms(q: Seq<Quote>, width: i64, n: int, key: i64, lo: Double) -> bool {
    exists|i: int|
        0 <= i < n && #[trigger] quoted(q, width, key, i) && ((q[i].bid == lo
            && q[i].bid.positive()) || (first_quoted(q, width, key, i) && (q[i].bid == lo
            || q[i].mid == lo)))
}

/// There is a range exactly for the buckets with a usable quote. No ask of such a
/// quote is above it and no bid above zero is below it; it holds the first middle
/// price; and its ends were quoted.
pub proof fn quote_ranges_hold_their_quotes(q: Seq<Quote>, width: i64, n: int, key: i64)
    requires
        width > 0,
        0 <= n <= q.len(),
    ensures
        quote_ranges(q, width, n).contains_key(key) <==> exists|i: int|
            0 <= i < n && #[trigger] quoted(q, width, key, i),
        quote_ranges(q, width, n).contains_key(key) ==> {
            let (hi, lo) = quote_ranges(q, width, n)[key];
            &&& forall|i: int|
                0 <= i < n && #[trigger] quoted(q, width, key, i) ==> !hi.below(q[i].ask) && (
                q[i].bid.positive() ==> !q[i].bid.below(lo))
            &&& forall|i: int|
                0 <= i < n && #[trigger] first_quoted(q, width, key, i) ==> lo.at_most(q[i].mid)
                    && q[i].mid.at_most(hi)
            &&& tops(q, width, n, key, hi)
            &&& bottoms(q, width, n, key, lo)
        },
    decreases n,
{
    if n > 0 {
        quote_ranges_hold_their_quotes(q, width, n - 1, key);
        let x = q[n - 1];
        bucket::instants_lie_in_one_bucket(x.ts, width, key as int);
        let m = quote_ranges(q, width, n - 1);
        if quoted(q, width, key, n - 1) {
            if m.contains_key(key) {
                let p = choose|i: int| 0 <= i < n - 1 && #[trigger] quoted(q, width, key, i);
                assert(!first_quoted(q, width, key, n - 1));
                let r = widened(Some(m[key]), x);
                assert(tops(q, width, n - 1, key, m[key].0));
                assert(bottoms(q, width, n - 1, key, m[key].1));
                lemma_first_quoted(q, width, key, p);
                let f = choose|f: int| 0 <= f <= p && #[trigger] first_quoted(q, width, key, f);
                assert(m[key].1.at_most(q[f].mid));
                assert(tops(q, width, n, key, r.0));
                assert(bottoms(q, width, n, key, r.1));
            } else {
                assert(first_quoted(q, width, key, n - 1));
                let r = widened(None, x);
                assert forall|i: int| 0 <= i < n && #[trigger] quoted(q, width, key, i) implies i == n
                    - 1 by {}
                assert(tops(q, width, n, key, r.0));
                assert(bottoms(q, width, n, key, r.1));
            }
        } else if m.contains_key(key) {
            assert(tops(q, width, n - 1, key, m[key].0));
            assert(bottoms(q, width, n - 1, key, m[key].1));
            assert(tops(q, width, n, key, m[key].0));
            assert(bottoms(q, width, n, key, m[key].1));
        }
    }
}

proof fn lemma_first_quoted(q: Seq<Quote>, width: i64, key: i64, p: int)
    requires
        0 <= p,
        quoted(q, width, key, p),
    ensures
        exists|i: int| 0 <= i <= p && #[trigger] first_quoted(q, width, key, i),
    decreases p,
{
    if !first_quoted(q, width, key, p) {
        let j = choose|j: int| 0 <= j < p && #[trigger] quoted(q, width, key, j);
        lemma_first_quoted(q, width, key, j);
    }
}

pub open spec fn kept_from(q: Seq<Quote>, from: i64) -> spec_fn(int) -> bool {
    |i: int| usable(q[i].mid) && q[i].ts >= from
}

pub open spec fn mid_at(q: Seq<Quote>) -> spec_fn(int) -> (i64, Double) {
    |i: int| (q[i].ts, q[i].mid)
}

/// A middle price is retained exactly if it is usable and its quote is not before the
/// instant.
pub proof fn usable_mids_are_retained(q: Seq<Quote>, from: i64, n: int, i: int)
    requires
        0 <= i < n <= q.len(),
    ensures
        tally::hits(n, kept_from(q, from)).contains(i) <==> q[i].mid.finite() && q[i].mid.positive()
            && from <= q[i].ts,
{
    let p = kept_from(q, from);
    tally::lemma_hits(n, p);
    let h = tally::hits(n, p);
    assert(p(i) ==> h.contains(i));
    if h.contains(i) {
        let k = choose|k: int| 0 <= k < h.len() && h[k] == i;
        assert(p(h[k]));
    }
}

/// The usable middle prices from an instant on, in the order of the quotes.
pub fn retained_mids(quotes: &Vec<Quote>, from: i64) -> (out: Vec<(i64, Double)>)
    ensures
        out@ == tally::hits(quotes.len() as int, kept_from(quotes@, from)).map_values(
            mid_at(quotes@),
        ),
{
    let mut out: Vec<(i64, Double)> = Vec::new();
    let ghost p = kept_from(quotes@, from);
    let ghost f = mid_at(quotes@);
    let mut i: usize = 0;
    assert(out@ =~= tally::hits(0, p).map_values(f));
    while i < quotes.len()
        invariant
            i <= quotes.len(),
            p == kept_from(quotes@, from),
            f == mid_at(quotes@),
            out@ == tally::hits(i as int, p).map_values(f),
        decreases quotes.len() - i,
    {
        let q = quotes[i];
        let ghost was = out@;
        if is_usable(q.mid) && q.ts >= from {
            out.push((q.ts, q.mid));
            assert(tally::hits(i + 1, p).map_values(f) =~= was.push((q.ts, q.mid)));
        }
        i = i + 1;
    }
    out
}

/// High, low and last price of a bucket after one more tick.
pub open spec fn ranged(range: Option<(Double, Double, Double)>, mid: Double) -> (
    Double,
    Double,
    Double,
) {
    let (hi, lo) = match range {
        Some(r) => (r.0, r.1),
        None => (mid, mid),
    };
    (
        if hi.below(mid) {
            mid
        } else {
            hi
        },
        if mid.below(lo) {
            mid
        } else {
            lo
        },
        mid,
    )
}

/// High, low and last price of the first `n` ticks by bucket.
pub open spec fn tick_ranges(t: Seq<Tick>, width: i64, n: int) -> Map<i64, (Double, Double, Double)>
    decreases n,
{
    if n <= 0 {
        Map::empty()
    } else {
        let m = tick_ranges(t, width, n - 1);
        let k = bucket::start_of(t[n - 1].ts, width) as i64;
        m.insert(k, ranged(at(m, k), t[n - 1].mid))
    }
}

/// Tick `i` lies in the bucket at `key`.
pub open spec fn inside(t: Seq<Tick>, width: i64, key: i64, i: int) -> bool {
    bucket::holds(key as int, width, t[i].ts)
}

/// One of the first `n` ticks lies in a bucket.
pub open spec fn occupied(t: Seq<Tick>, width: i64, n: int, key: i64) -> bool {
    exists|i: int| 0 <= i < n && #[trigger] inside(t, width, key, i)
}

/// A price is that of one of the ticks in a bucket.
pub open spec fn attained(t: Seq<Tick>, width: i64, n: int, key: i64, p: Double) -> bool {
    exists|i: int| 0 <= i < n && #[trigger] inside(t, width, key, i) && t[i].mid == p
}

/// A price is that of the first tick in a bucket.
pub open spec fn opens(t: Seq<Tick>, width: i64, n: int, key: i64, p: Double) -> bool {
    exists|i: int|
        0 <= i < n && #[trigger] inside(t, width, key, i) && t[i].mid == p && forall|j: int|
            0 <= j < i ==> !#[trigger] inside(t, width, key, j)
}

/// A price is that of the last tick in a bucket.
pub open spec fn closes(t: Seq<Tick>, width: i64, n: int, key: i64, p: Double) -> bool {
    exists|i: int|
        0 <= i < n && #[trigger] inside(t, width, key, i) && t[i].mid == p && forall|j: int|
            i < j < n ==> !#[trigger] inside(t, width, key, j)
}

/// No price of a bucket lies outside a range.
pub open spec fn spans(t: Seq<Tick>, width: i64, n: int, key: i64, hi: Double, lo: Double) -> bool {
    forall|i: int|
        0 <= i < n && #[trigger] inside(t, width, key, i) ==> !hi.below(t[i].mid)
            && !t[i].mid.below(lo)
}

/// There is a row exactly for the buckets with a tick. No price of the bucket is
/// above its high or below its low, both are prices of the bucket, and numbers
/// unless the first price is none; its last price is that of the last tick.
pub proof fn tick_ranges_hold_their_ticks(t: Seq<Tick>, width: i64, n: int, key: i64)
    requires
        width > 0,
        0 <= n <= t.len(),
    ensures
        tick_ranges(t, width, n).contains_key(key) <==> occupied(t, width, n, key),
        tick_ranges(t, width, n).contains_key(key) ==> {
            let (hi, lo, last) = tick_ranges(t, width, n)[key];
            &&& spans(t, width, n, key, hi, lo)
            &&& attained(t, width, n, key, hi)
            &&& attained(t, width, n, key, lo)
            &&& hi.nan() ==> opens(t, width, n, key, hi)
            &&& lo.nan() ==> opens(t, width, n, key, lo)
            &&& closes(t, width, n, key, last)
        },
    decreases n,
{
    if n > 0 {
        tick_ranges_hold_their_ticks(t, width, n - 1, key);
        bucket::instants_lie_in_one_bucket(t[n - 1].ts, width, key as int);
        assert(inside(t, width, key, n - 1) <==> bucket::start_of(t[n - 1].ts, width) == key);
    }
}

fn range_on(range: Option<(Double, Double, Double)>, mid: Double) -> (r: (Double, Double, Double))
    ensures
        r == ranged(range, mid),
{
    let (hi, lo) = match range {
        Some(r) => (r.0, r.1),
        None => (mid, mid),
    };
    let top = if hi.lt(mid) {
        mid
    } else {
        hi
    };
    let bottom = if mid.lt(lo) {
        mid
    } else {
        lo
    };
    (top, bottom, mid)
}

/// High, low and last price of ticks by bucket, by ascending time.
pub fn gather_ticks(ticks: &Vec<Tick>, width: i64) -> (rows: Vec<(i64, (Double, Double, Double))>)
    requires
        width > 0,
    ensures
        bucket::lists(rows@, tick_ranges(ticks@, width, ticks.len() as int)),
{
    let mut rows: Vec<(i64, (Double, Double, Double))> = Vec::new();
    let mut i: usize = 0;
    while i < ticks.len()
        invariant
            i <= ticks.len(),
            width > 0,
            bucket::lists(rows@, tick_ranges(ticks@, width, i as int)),
        decreases ticks.len() - i,
    {
        let t = ticks[i];
        let ghost m = tick_ranges(ticks@, width, i as int);
        let k: i64 = bucket::bucket_start(t.ts, width);
        let seen = bucket::look(&rows, k);
        assert(seen == at(m, k));
        bucket::put(&mut rows, k, range_on(seen, t.mid));
        i = i + 1;
    }
    rows
}

/// The last price of a bucket after one more tick: of two ticks the later one,
/// and of two at the same instant the one that came later.
pub open spec fn latest(seen: Option<(i64, Double)>, t: Tick) -> (i64, Double) {
    match seen {
        Some(s) => if t.ts >= s.0 {
            (t.ts, t.mid)
        } else {
            s
        },
        None => (t.ts, t.mid),
    }
}

/// The last prices of the first `n` ticks by bucket.
pub open spec fn last_prices(t: Seq<Tick>, width: i64, n: int) -> Map<i64, (i64, Double)>
    decreases n,
{
    if n <= 0 {
        Map::empty()
    } else {
        let m = last_prices(t, width, n - 1);
        let k = bucket::start_of(t[n - 1].ts, width) as i64;
        m.insert(k, latest(at(m, k), t[n - 1]))
    }
}

/// The last price of a bucket is that of its latest tick; of several at that
/// instant, of the one that came last.
pub proof fn last_prices_are_the_latest(t: Seq<Tick>, width: i64, n: int, key: i64)
    requires
        width > 0,
        0 <= n <= t.len(),
    ensures
        last_prices(t, width, n).contains_key(key) <==> occupied(t, width, n, key),
        last_prices(t, width, n).contains_key(key) ==> exists|i: int|
            0 <= i < n && #[trigger] inside(t, width, key, i) && last_prices(t, width, n)[key] == (
                t[i].ts,
                t[i].mid,
            ) && forall|j: int|
                0 <= j < n && #[trigger] inside(t, width, key, j) ==> t[j].ts <= t[i].ts && (j > i
                    ==> t[j].ts < t[i].ts),
    decreases n,
{
    if n > 0 {
        last_prices_are_the_latest(t, width, n - 1, key);
        bucket::instants_lie_in_one_bucket(t[n - 1].ts, width, key as int);
        assert(inside(t, width, key, n - 1) <==> bucket::start_of(t[n - 1].ts, width) == key);
    }
}

/// The last price of every bucket, with its time, by ascending bucket.
pub fn downsample(ticks: &Vec<Tick>, width: i64) -> (rows: Vec<(i64, (i64, Double))>)
    requires
        width > 0,
    ensures
        bucket::lists(rows@, last_prices(ticks@, width, ticks.len() as int)),
{
    let mut rows: Vec<(i64, (i64, Double))> = Vec::new();
    let mut i: usize = 0;
    while i < ticks.len()
        invariant
            i <= ticks.len(),
            width > 0,
            bucket::lists(rows@, last_prices(ticks@, width, i as int)),
        decreases ticks.len() - i,
    {
        let t = ticks[i];
        let ghost m = last_prices(ticks@, width, i as int);
        let k: i64 = bucket::bucket_start(t.ts, width);
        let seen = bucket::look(&rows, k);
        assert(seen == at(m, k));
        let row = match seen {
            Some(s) => if t.ts >= s.0 {
                (t.ts, t.mid)
            } else {
                s
            },
            None => (t.ts, t.mid),
        };
        bucket::put(&mut rows, k, row);
        i = i + 1;
    }
    rows
}

/// An hour's price range.
#[derive(Clone, Copy, Debug)]
pub struct HourlyData {
    pub timestamp: i64,
    pub high: Double,
    pub low: Double,
}

/// An hour's range after one more tick; a price that is no number counts only as
/// long as there is no other.
pub open spec fn hour_on(seen: Option<(Double, Double)>, mid: Double) -> (Double, Double) {
    let (hi, lo) = match seen {
        Some(r) => r,
        None => (mid, mid),
    };
    (ieee::larger(hi, mid), ieee::smaller(lo, mid))
}

/// The hourly ranges of the first `n` ticks.
pub open spec fn hours(t: Seq<Tick>, n: int) -> Map<i64, (Double, Double)>
    decreases n,
{
    if n <= 0 {
        Map::empty()
    } else {
        let m = hours(t, n - 1);
        let k = bucket::start_of(t[n - 1].ts, MS_PER_HOUR) as i64;
        m.insert(k, hour_on(at(m, k), t[n - 1].mid))
    }
}

/// There is a range exactly for the hours with a tick. No price of the hour is above
/// its high or below its low, both are prices of the hour, and numbers if any of its
/// prices is one.
pub proof fn hours_hold_their_ticks(t: Seq<Tick>, n: int, key: i64)
    requires
        0 <= n <= t.len(),
    ensures
        hours(t, n).contains_key(key) <==> occupied(t, MS_PER_HOUR, n, key),
        hours(t, n).contains_key(key) ==> {
            let (hi, lo) = hours(t, n)[key];
            &&& spans(t, MS_PER_HOUR, n, key, hi, lo)
            &&& attained(t, MS_PER_HOUR, n, key, hi)
            &&& attained(t, MS_PER_HOUR, n, key, lo)
            &&& forall|i: int|
                0 <= i < n && #[trigger] inside(t, MS_PER_HOUR, key, i) && !t[i].mid.nan() ==> !hi.nan()
                    && !lo.nan()
        },
    decreases n,
{
    if n > 0 {
        hours_hold_their_ticks(t, n - 1, key);
        bucket::instants_lie_in_one_bucket(t[n - 1].ts, MS_PER_HOUR, key as int);
        assert(inside(t, MS_PER_HOUR, key, n - 1) <==> bucket::start_of(t[n - 1].ts, MS_PER_HOUR)
            == key);
    }
}

pub open spec fn stamps(v: Seq<HourlyData>) -> Seq<i64> {
    Seq::new(v.len(), |i: int| v[i].timestamp)
}

pub open spec fn hour_rows(v: Seq<HourlyData>) -> Seq<(i64, (Double, Double))> {
    Seq::new(v.len(), |i: int| (v[i].timestamp, (v[i].high, v[i].low)))
}

/// The items of `v` in an order.
pub open spec fn arranged(v: Seq<HourlyData>, order: Seq<usize>) -> Seq<HourlyData> {
    Seq::new(order.len(), |i: int| v[order[i] as int])
}

/// `rayon`'s `par_sort_by_key`, by timestamp. Claimed: a stable ascending sort.
#[verifier::external_body]
fn sort_by_timestamp(v: &mut Vec<HourlyData>)
    ensures
        exists|order: Seq<usize>| #[trigger]
            tally::stable_order(stamps(old(v)@), order) && final(v)@ == arranged(old(v)@, order),
{
    v.par_sort_by_key(|h| h.timestamp)
}

/// The hours hold a map, each of its keys at the position that the index gives.
spec fn indexed(v: Seq<HourlyData>, index: Map<i64, usize>, m: Map<i64, (Double, Double)>) -> bool {
    &&& index.dom() == m.dom()
    &&& forall|k: i64| #[trigger]
        index.contains_key(k) ==> index[k] < v.len() && v[index[k] as int].timestamp == k && (
        v[index[k] as int].high,
        v[index[k] as int].low,
    ) == m[k]
    &&& forall|i: int|
        0 <= i < v.len() ==> index.contains_key((#[trigger] v[i]).timestamp)
            && index[v[i].timestamp] == i
}

proof fn lemma_sorted_hours(
    v: Seq<HourlyData>,
    index: Map<i64, usize>,
    m: Map<i64, (Double, Double)>,
    order: Seq<usize>,
)
    requires
        indexed(v, index, m),
        tally::stable_order(stamps(v), order),
    ensures
        bucket::lists(hour_rows(arranged(v, order)), m),
{
    let out = arranged(v, order);
    let rows = hour_rows(out);
    let keys = stamps(v);
    assert forall|i: int, j: int| 0 <= i < j < rows.len() implies (#[trigger] rows[i]).0 < (
    #[trigger] rows[j]).0 by {
        let a = order[i] as int;
        let b = order[j] as int;
        assert(keys[a] < keys[b] || (keys[a] == keys[b] && a < b));
        assert(index[v[a].timestamp] == a);
        assert(index[v[b].timestamp] == b);
    }
    assert forall|i: int| 0 <= i < rows.len() implies m.contains_key((#[trigger] rows[i]).0)
        && m[rows[i].0] == rows[i].1 by {
        let a = order[i] as int;
        assert(order[i] < keys.len());
        assert(index.contains_key(v[a].timestamp));
        assert(m.dom().contains(v[a].timestamp));
    }
    assert forall|k: i64| #[trigger] m.contains_key(k) implies rows.contains((k, m[k])) by {
        assert(index.dom().contains(k));
        assert(index.contains_key(k));
        tally::lemma_stable_order_covers(keys, order);
        let p = index[k];
        assert(order.contains(p));
        let i = choose|i: int| 0 <= i < order.len() && order[i] == p;
        assert(rows[i] == (k, m[k]));
    }
}

fn add_tick(v: &mut Vec<HourlyData>, index: &mut HashMap<i64, usize>, t: Tick)
    ensures
        forall|m: Map<i64, (Double, Double)>| #[trigger]
            indexed(old(v)@, old(index)@, m) ==> {
                let k = bucket::start_of(t.ts, MS_PER_HOUR) as i64;
                indexed(final(v)@, final(index)@, m.insert(k, hour_on(at(m, k), t.mid)))
            },
{
    broadcast use vstd::std_specs::hash::group_hash_axioms;

    let ghost was = v@;
    let ghost index_was = index@;
    let k: i64 = bucket::bucket_start(t.ts, MS_PER_HOUR);
    let found: Option<usize> = match index.get(&k) {
        Some(p) => Some(*p),
        None => None,
    };
    match found {
        Some(p) => {
            if p < v.len() {
                let h = v[p];
                v.set(
                    p,
                    HourlyData {
                        timestamp: h.timestamp,
                        high: ieee::max_of(h.high, t.mid),
                        low: ieee::min_of(h.low, t.mid),
                    },
                );
            }
            proof {
                assert forall|m: Map<i64, (Double, Double)>| #[trigger] indexed(was, index_was, m) implies indexed(
                    v@,
                    index@,
                    m.insert(k, hour_on(at(m, k), t.mid)),
                ) by {
                    let n = m.insert(k, hour_on(at(m, k), t.mid));
                    assert(index_was.contains_key(k));
                    assert(m.dom().contains(k));
                    assert(n.dom() =~= m.dom());
                    assert forall|q: i64| #[trigger] index@.contains_key(q) implies index@[q] < v.len()
                        && v@[index@[q] as int].timestamp == q && (
                        v@[index@[q] as int].high,
                        v@[index@[q] as int].low,
                    ) == n[q] by {
                        assert(index_was.contains_key(q));
                    }
                    assert forall|i: int| 0 <= i < v.len() implies index@.contains_key(
                        (#[trigger] v@[i]).timestamp,
                    ) && index@[v@[i].timestamp] == i by {
                        assert(index_was.contains_key(was[i].timestamp));
                    }
                }
            }
        },
        None => {
            let p: usize = v.len();
            v.push(
                HourlyData {
                    timestamp: k,
                    high: ieee::max_of(t.mid, t.mid),
                    low: ieee::min_of(t.mid, t.mid),
                },
            );
            index.insert(k, p);
            proof {
                assert forall|m: Map<i64, (Double, Double)>| #[trigger] indexed(was, index_was, m) implies indexed(
                    v@,
                    index@,
                    m.insert(k, hour_on(at(m, k), t.mid)),
                ) by {
                    let n = m.insert(k, hour_on(at(m, k), t.mid));
                    assert(!m.dom().contains(k));
                    assert(n.dom() =~= index@.dom());
                    assert forall|q: i64| #[trigger] index@.contains_key(q) implies index@[q] < v.len()
                        && v@[index@[q] as int].timestamp == q && (
                        v@[index@[q] as int].high,
                        v@[index@[q] as int].low,
                    ) == n[q] by {
                        if q != k {
                            assert(index_was.contains_key(q));
                        }
                    }
                    assert forall|i: int| 0 <= i < v.len() implies index@.contains_key(
                        (#[trigger] v@[i]).timestamp,
                    ) && index@[v@[i].timestamp] == i by {
                        if i < was.len() {
                            assert(v@[i] == was[i]);
                            assert(index_was.contains_key(was[i].timestamp));
                        }
                    }
                }
            }
        },
    }
}

/// The hourly price ranges of ticks, by ascending hour.
pub fn hourly_ranges(ticks: &Vec<Tick>) -> (out: Vec<HourlyData>)
    ensures
        bucket::lists(hour_rows(out@), hours(ticks@, ticks.len() as int)),
{
    let mut v: Vec<HourlyData> = Vec::new();
    let mut index: HashMap<i64, usize> = HashMap::new();
    let mut i: usize = 0;
    assert(index@.dom() =~= hours(ticks@, 0).dom());
    while i < ticks.len()
        invariant
            i <= ticks.len(),
            indexed(v@, index@, hours(ticks@, i as int)),
        decreases ticks.len() - i,
    {
        add_tick(&mut v, &mut index, ticks[i]);
        i = i + 1;
    }
    let ghost before = v@;
    sort_by_timestamp(&mut v);
    proof {
        let order = choose|order: Seq<usize>| #[trigger]
            tally::stable_order(stamps(before), order) && v@ == arranged(before, order);
        lemma_sorted_hours(before, index@, hours(ticks@, ticks.len() as int), order);
    }
    v
}

} // verus!
