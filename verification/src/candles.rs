//! Ten-second candles of middle prices, without gaps.

use vstd::prelude::*;
use crate::bucket;
use crate::hlc;
use crate::hlc::Tick;
use crate::ieee::Double;
use crate::tally;

verus! {

pub const BAR_MS_S10: i64 = 10_000;

/// A candle; one without ticks repeats the last close.
#[derive(Clone, Copy, Debug, PartialEq, Eq, Structural)]
pub struct Candle {
    pub ts: i64,
    pub close_ts: i64,
    pub open: Double,
    pub high: Double,
    pub low: Double,
    pub close: Double,
    pub tick_count: u32,
}

pub open spec fn close_of(ts: i64) -> i64 {
    (ts + BAR_MS_S10 - 1) as i64
}

/// A candle after one more tick.
pub open spec fn ticked(seen: Option<Candle>, key: i64, mid: Double) -> Candle {
    match seen {
        None => Candle {
            ts: key,
            close_ts: close_of(key),
            open: mid,
            high: mid,
            low: mid,
            close: mid,
            tick_count: 1,
        },
        Some(c) => Candle {
            high: if c.high.below(mid) {
                mid
            } else {
                c.high
            },
            low: if mid.below(c.low) {
                mid
            } else {
                c.low
            },
            close: mid,
            tick_count: if c.tick_count < u32::MAX {
                (c.tick_count + 1) as u32
            } else {
                u32::MAX
            },
            ..c
        },
    }
}

/// The candles of the first `n` ticks; prices that cannot be used do not count.
pub open spec fn candles(t: Seq<Tick>, n: int) -> Map<i64, Candle>
    decreases n,
{
    if n <= 0 {
        Map::empty()
    } else {
        let m = candles(t, n - 1);
        let x = t[n - 1];
        if hlc::usable(x.mid) {
            let k = bucket::start_of(x.ts, BAR_MS_S10) as i64;
            m.insert(k, ticked(hlc::at(m, k), k, x.mid))
        } else {
            m
        }
    }
}

/// Tick `i` has a usable price and lies in the ten seconds from `key` on.
pub open spec fn counts_for(t: Seq<Tick>, key: i64, i: int) -> bool {
    hlc::usable(t[i].mid) && bucket::holds(key as int, BAR_MS_S10, t[i].ts)
}

pub open spec fn counter(t: Seq<Tick>, key: i64) -> spec_fn(int) -> bool {
    |i: int| counts_for(t, key, i)
}

/// One of the first `n` ticks counts for a candle.
pub open spec fn traded(t: Seq<Tick>, n: int, key: i64) -> bool {
    exists|i: int| 0 <= i < n && #[trigger] counts_for(t, key, i)
}

/// A price is that of one of the ticks that count for a candle.
pub open spec fn attained(t: Seq<Tick>, n: int, key: i64, p: Double) -> bool {
    exists|i: int| 0 <= i < n && #[trigger] counts_for(t, key, i) && t[i].mid == p
}

/// A price is that of the first tick that counts for a candle.
pub open spec fn opens(t: Seq<Tick>, n: int, key: i64, p: Double) -> bool {
    exists|i: int|
        0 <= i < n && #[trigger] counts_for(t, key, i) && t[i].mid == p && forall|j: int|
            0 <= j < i ==> !#[trigger] counts_for(t, key, j)
}

/// A price is that of the last tick that counts for a candle.
pub open spec fn closes(t: Seq<Tick>, n: int, key: i64, p: Double) -> bool {
    exists|i: int|
        0 <= i < n && #[trigger] counts_for(t, key, i) && t[i].mid == p && forall|j: int|
            i < j < n ==> !#[trigger] counts_for(t, key, j)
}

/// A candle says of the first `n` ticks what a candle is to say: no usable price
/// of its ten seconds lies outside its low and high, and both are such prices; it
/// opens with the first of them and closes with the last, and counts them.
pub open spec fn describes(t: Seq<Tick>, n: int, c: Candle) -> bool {
    &&& forall|i: int|
        0 <= i < n && #[trigger] counts_for(t, c.ts, i) ==> c.low.at_most(t[i].mid)
            && t[i].mid.at_most(c.high)
    &&& attained(t, n, c.ts, c.low)
    &&& attained(t, n, c.ts, c.high)
    &&& opens(t, n, c.ts, c.open)
    &&& closes(t, n, c.ts, c.close)
    &&& c.low.at_most(c.open) && c.open.at_most(c.high)
    &&& c.low.at_most(c.close) && c.close.at_most(c.high)
    &&& c.tick_count == if tally::count(n, counter(t, c.ts)) < u32::MAX {
        tally::count(n, counter(t, c.ts)) as int
    } else {
        u32::MAX as int
    }
    &&& c.close_ts == c.ts + 9_999
}

/// There is a candle exactly for the ten seconds in which a usable price lies, and
/// it describes those prices.
pub proof fn candles_describe_their_ticks(t: Seq<Tick>, n: int, key: i64)
    requires
        0 <= n <= t.len(),
        forall|i: int| 0 <= i < t.len() ==> (#[trigger] t[i]).ts <= LAST_TICK,
    ensures
        candles(t, n).contains_key(key) <==> traded(t, n, key),
        candles(t, n).contains_key(key) ==> candles(t, n)[key].ts == key && describes(
            t,
            n,
            candles(t, n)[key],
        ),
    decreases n,
{
    if n > 0 {
        candles_describe_their_ticks(t, n - 1, key);
        let x = t[n - 1];
        assert(x.ts <= LAST_TICK);
        bucket::instants_lie_in_one_bucket(x.ts, BAR_MS_S10, key as int);
        lemma_start_bounds(x.ts);
        let m = candles(t, n - 1);
        assert(counter(t, key)(n - 1) == counts_for(t, key, n - 1));
        if counts_for(t, key, n - 1) {
            if !m.contains_key(key) {
                tally::lemma_count_zero(n - 1, counter(t, key));
                assert forall|i: int| 0 <= i < n - 1 implies !#[trigger] counter(t, key)(i) by {
                    assert(!counts_for(t, key, i));
                }
            }
        }
    }
}

/// Start of the latest candle that ends within range.
pub const LAST_START: i64 = 9_223_372_036_854_760_000;

/// Latest instant whose candle ends within range.
pub const LAST_TICK: i64 = 9_223_372_036_854_769_999;

fn tick_on(seen: Option<Candle>, key: i64, mid: Double) -> (c: Candle)
    requires
        key <= LAST_START,
    ensures
        c == ticked(seen, key, mid),
{
    match seen {
        None => Candle {
            ts: key,
            close_ts: key + BAR_MS_S10 - 1,
            open: mid,
            high: mid,
            low: mid,
            close: mid,
            tick_count: 1,
        },
        Some(c) => {
            let mut d = c;
            if c.high.lt(mid) {
                d.high = mid;
            }
            if mid.lt(c.low) {
                d.low = mid;
            }
            d.close = mid;
            if c.tick_count < u32::MAX {
                d.tick_count = c.tick_count + 1;
            }
            d
        },
    }
}

proof fn lemma_start_bounds(ts: i64)
    ensures
        ts >= 0 ==> 0 <= bucket::start_of(ts, BAR_MS_S10) <= ts,
        ts < 0 ==> ts <= bucket::start_of(ts, BAR_MS_S10) <= 0,
        bucket::start_of(ts, BAR_MS_S10) % (BAR_MS_S10 as int) == 0,
{
}

/// What holds of the candles of ticks: each stands under its own time, a
/// multiple of the width within range.
pub open spec fn on_grid(m: Map<i64, Candle>) -> bool {
    forall|k: i64| #[trigger]
        m.contains_key(k) ==> m[k].ts == k && k as int % BAR_MS_S10 as int == 0 && k <= LAST_START
}

proof fn lemma_candles_on_grid(t: Seq<Tick>, n: int)
    requires
        0 <= n <= t.len(),
        forall|i: int| 0 <= i < t.len() ==> (#[trigger] t[i]).ts <= LAST_TICK,
    ensures
        on_grid(candles(t, n)),
    decreases n,
{
    if n > 0 {
        lemma_candles_on_grid(t, n - 1);
        assert(t[n - 1].ts <= LAST_TICK);
        lemma_start_bounds(t[n - 1].ts);
    }
}

/// A candle without ticks.
pub open spec fn flat(ts: int, price: Double) -> Candle {
    Candle {
        ts: ts as i64,
        close_ts: close_of(ts as i64),
        open: price,
        high: price,
        low: price,
        close: price,
        tick_count: 0,
    }
}

/// The candles without ticks between two times.
pub open spec fn quiet(from: int, to: int, price: Double) -> Seq<Candle>
    decreases to - from,
{
    if from + BAR_MS_S10 >= to {
        Seq::empty()
    } else {
        seq![flat(from + BAR_MS_S10, price)] + quiet(from + BAR_MS_S10, to, price)
    }
}

/// The first `n` candles with the quiet stretches between them filled.
pub open spec fn filled(rows: Seq<(i64, Candle)>, n: int) -> Seq<Candle>
    decreases n,
{
    if n <= 0 {
        Seq::empty()
    } else if n == 1 {
        seq![rows[0].1]
    } else {
        let before = rows[n - 2];
        filled(rows, n - 1) + quiet(before.0 as int, rows[n - 1].0 as int, before.1.close)
            + seq![rows[n - 1].1]
    }
}

/// Candles that follow each other without a gap.
pub open spec fn gapless(s: Seq<Candle>) -> bool {
    forall|i: int| 0 < i < s.len() ==> follows(s, i)
}

pub open spec fn follows(s: Seq<Candle>, i: int) -> bool {
    s[i].ts == s[i - 1].ts + BAR_MS_S10
}

/// A candle without ticks, between two times.
spec fn stands_in(c: Candle, from: int, to: int, price: Double) -> bool {
    from < c.ts < to && c == flat(c.ts as int, price)
}

proof fn lemma_quiet(from: int, to: int, price: Double)
    requires
        from % BAR_MS_S10 as int == 0,
        to % BAR_MS_S10 as int == 0,
        i64::MIN <= from < to <= LAST_START,
    ensures
        ({
            let q = quiet(from, to, price);
            &&& gapless(q)
            &&& q.len() > 0 ==> q[0].ts == from + BAR_MS_S10 && q.last().ts + BAR_MS_S10 == to
            &&& q.len() == 0 ==> from + BAR_MS_S10 == to
            &&& forall|i: int| 0 <= i < q.len() ==> stands_in(#[trigger] q[i], from, to, price)
        }),
    decreases to - from,
{
    if from + BAR_MS_S10 < to {
        let next = from + BAR_MS_S10;
        lemma_quiet(next, to, price);
        let rest = quiet(next, to, price);
        let q = quiet(from, to, price);
        assert(q =~= seq![flat(next, price)] + rest);
        assert forall|i: int| 0 < i < q.len() implies follows(q, i) by {
            if i >= 2 {
                assert(follows(rest, i - 1));
            }
        }
        assert forall|i: int| 0 <= i < q.len() implies stands_in(#[trigger] q[i], from, to, price) by {
            if i > 0 {
                assert(stands_in(rest[i - 1], next, to, price));
            }
        }
    }
}

proof fn lemma_join(a: Seq<Candle>, b: Seq<Candle>)
    requires
        gapless(a),
        gapless(b),
        a.len() > 0 && b.len() > 0 ==> b[0].ts == a.last().ts + BAR_MS_S10,
    ensures
        gapless(a + b),
{
    let s = a + b;
    assert forall|i: int| 0 < i < s.len() implies follows(s, i) by {
        if i < a.len() {
            assert(follows(a, i));
        } else if i > a.len() {
            assert(follows(b, i - a.len()));
        }
    }
}

/// A filled series has no gap and ends with its last candle that has ticks.
pub proof fn filled_series_has_no_gap(rows: Seq<(i64, Candle)>, m: Map<i64, Candle>, n: int)
    requires
        bucket::lists(rows, m),
        on_grid(m),
        0 <= n <= rows.len(),
    ensures
        gapless(filled(rows, n)),
        n > 0 ==> filled(rows, n).len() > 0 && filled(rows, n).last() == rows[n - 1].1,
        n > 0 ==> filled(rows, n)[0] == rows[0].1,
    decreases n,
{
    if n > 1 {
        filled_series_has_no_gap(rows, m, n - 1);
        let a = rows[n - 2];
        let b = rows[n - 1];
        assert(m.contains_key(a.0));
        assert(m.contains_key(b.0));
        assert(rows[n - 2].0 < rows[n - 1].0);
        lemma_quiet(a.0 as int, b.0 as int, a.1.close);
        let head = filled(rows, n - 1);
        let q = quiet(a.0 as int, b.0 as int, a.1.close);
        lemma_join(head, q);
        lemma_join(head + q, seq![b.1]);
    } else if n == 1 {
        assert(m.contains_key(rows[0].0));
    }
}

/// Candle `j` of a series repeats the close of the one before it.
pub open spec fn repeats(s: Seq<Candle>, j: int) -> bool {
    &&& j > 0
    &&& s[j].open == s[j - 1].close
    &&& s[j].high == s[j - 1].close
    &&& s[j].low == s[j - 1].close
    &&& s[j].close == s[j - 1].close
    &&& s[j].tick_count == 0
    &&& s[j].close_ts == s[j].ts + 9_999
}

/// Candle `j` of a series describes the usable prices of its ten seconds, or
/// repeats the last close where there are none.
pub open spec fn tells(t: Seq<Tick>, s: Seq<Candle>, j: int) -> bool {
    if traded(t, t.len() as int, s[j].ts) {
        describes(t, t.len() as int, s[j])
    } else {
        repeats(s, j)
    }
}

/// A series tells of every usable price: each of its candles describes the usable
/// prices of its ten seconds or, where there are none, repeats the close before;
/// and every usable price lies in the ten seconds of a candle.
pub open spec fn tells_all(t: Seq<Tick>, s: Seq<Candle>) -> bool {
    &&& forall|j: int| 0 <= j < s.len() ==> #[trigger] tells(t, s, j)
    &&& forall|i: int|
        0 <= i < t.len() && hlc::usable((#[trigger] t[i]).mid) ==> exists|j: int|
            0 <= j < s.len() && bucket::holds((#[trigger] s[j]).ts as int, BAR_MS_S10, t[i].ts)
}

/// A candle of a quiet stretch repeats the close before it: no tick counts for it.
#[verifier::spinoff_prover]
proof fn lemma_quiet_tells(
    t: Seq<Tick>,
    rows: Seq<(i64, Candle)>,
    n: int,
    head: Seq<Candle>,
    j: int,
)
    requires
        forall|i: int| 0 <= i < t.len() ==> (#[trigger] t[i]).ts <= LAST_TICK,
        bucket::lists(rows, candles(t, t.len() as int)),
        1 < n <= rows.len(),
        head.len() > 0,
        head.last() == rows[n - 2].1,
        head.len() <= j < head.len() + quiet(
            rows[n - 2].0 as int,
            rows[n - 1].0 as int,
            rows[n - 2].1.close,
        ).len(),
    ensures
        tells(
            t,
            head + quiet(rows[n - 2].0 as int, rows[n - 1].0 as int, rows[n - 2].1.close),
            j,
        ),
{
    let m = candles(t, t.len() as int);
    let a = rows[n - 2];
    let b = rows[n - 1];
    let q = quiet(a.0 as int, b.0 as int, a.1.close);
    let c = q[j - head.len()];
    lemma_candles_on_grid(t, t.len() as int);
    assert(m.contains_key(a.0));
    assert(m.contains_key(b.0));
    assert(rows[n - 2].0 < rows[n - 1].0);
    lemma_quiet(a.0 as int, b.0 as int, a.1.close);
    assert(stands_in(c, a.0 as int, b.0 as int, a.1.close));
    candles_describe_their_ticks(t, t.len() as int, c.ts);
    if m.contains_key(c.ts) {
        let i = choose|i: int| 0 <= i < rows.len() && rows[i] == (c.ts, m[c.ts]);
        assert(rows[i].0 == c.ts);
        assert(i < n - 2 ==> rows[i].0 < rows[n - 2].0);
        assert(i > n - 1 ==> rows[n - 1].0 < rows[i].0);
    }
    if j > head.len() {
        assert(stands_in(q[j - 1 - head.len()], a.0 as int, b.0 as int, a.1.close));
    }
}

#[verifier::spinoff_prover]
proof fn lemma_filled_tells(t: Seq<Tick>, rows: Seq<(i64, Candle)>, n: int)
    requires
        forall|i: int| 0 <= i < t.len() ==> (#[trigger] t[i]).ts <= LAST_TICK,
        bucket::lists(rows, candles(t, t.len() as int)),
        0 <= n <= rows.len(),
    ensures
        forall|j: int| 0 <= j < filled(rows, n).len() ==> #[trigger] tells(t, filled(rows, n), j),
        forall|r: int| 0 <= r < n ==> filled(rows, n).contains((#[trigger] rows[r]).1),
    decreases n,
{
    let m = candles(t, t.len() as int);
    let s = filled(rows, n);
    lemma_candles_on_grid(t, t.len() as int);
    if n == 1 {
        assert(m.contains_key(rows[0].0));
        candles_describe_their_ticks(t, t.len() as int, rows[0].0);
        assert(s[0] == rows[0].1);
    } else if n > 1 {
        lemma_filled_tells(t, rows, n - 1);
        filled_series_has_no_gap(rows, m, n - 1);
        let head = filled(rows, n - 1);
        let a = rows[n - 2];
        let b = rows[n - 1];
        let q = quiet(a.0 as int, b.0 as int, a.1.close);
        assert(m.contains_key(a.0));
        assert(m.contains_key(b.0));
        assert(rows[n - 2].0 < rows[n - 1].0);
        lemma_quiet(a.0 as int, b.0 as int, a.1.close);
        candles_describe_their_ticks(t, t.len() as int, b.0);
        assert forall|j: int| 0 <= j < s.len() implies #[trigger] tells(t, s, j) by {
            if j < head.len() {
                assert(tells(t, head, j));
                assert(s[j] == head[j]);
            } else if j < head.len() + q.len() {
                assert(s[j - 1] == (head + q)[j - 1]);
                lemma_quiet_tells(t, rows, n, head, j);
                assert((head + q)[j] == s[j]);
            } else {
                assert(s[j] == b.1);
            }
        }
        assert forall|r: int| 0 <= r < n implies s.contains((#[trigger] rows[r]).1) by {
            if r < n - 1 {
                let j = choose|j: int| 0 <= j < head.len() && head[j] == rows[r].1;
                assert(s[j] == rows[r].1);
            } else {
                assert(s[s.len() - 1] == b.1);
            }
        }
    }
}

/// A filled series of candles tells of every usable price.
pub proof fn filled_series_tell_all(t: Seq<Tick>, rows: Seq<(i64, Candle)>)
    requires
        forall|i: int| 0 <= i < t.len() ==> (#[trigger] t[i]).ts <= LAST_TICK,
        bucket::lists(rows, candles(t, t.len() as int)),
    ensures
        tells_all(t, filled(rows, rows.len() as int)),
{
    let n = t.len() as int;
    let m = candles(t, n);
    let s = filled(rows, rows.len() as int);
    lemma_filled_tells(t, rows, rows.len() as int);
    assert forall|i: int| 0 <= i < t.len() && hlc::usable((#[trigger] t[i]).mid) implies exists|j: int|
        0 <= j < s.len() && bucket::holds((#[trigger] s[j]).ts as int, BAR_MS_S10, t[i].ts) by {
        let start = bucket::start_of(t[i].ts, BAR_MS_S10);
        bucket::instants_lie_in_one_bucket(t[i].ts, BAR_MS_S10, start);
        let k = start as i64;
        assert(counts_for(t, k, i));
        candles_describe_their_ticks(t, n, k);
        let r = choose|r: int| 0 <= r < rows.len() && rows[r] == (k, m[k]);
        assert(s.contains(rows[r].1));
        let j = choose|j: int| 0 <= j < s.len() && s[j] == rows[r].1;
        assert(s[j].ts == k);
    }
}

/// Gathers the ticks into candles.
fn gather(ticks: &Vec<Tick>) -> (rows: Vec<(i64, Candle)>)
    requires
        forall|i: int| 0 <= i < ticks.len() ==> (#[trigger] ticks@[i]).ts <= LAST_TICK,
    ensures
        bucket::lists(rows@, candles(ticks@, ticks.len() as int)),
{
    let mut rows: Vec<(i64, Candle)> = Vec::new();
    let mut i: usize = 0;
    while i < ticks.len()
        invariant
            i <= ticks.len(),
            forall|k: int| 0 <= k < ticks.len() ==> (#[trigger] ticks@[k]).ts <= LAST_TICK,
            bucket::lists(rows@, candles(ticks@, i as int)),
        decreases ticks.len() - i,
    {
        let t = ticks[i];
        let ghost m = candles(ticks@, i as int);
        assert(ticks@[i as int].ts <= LAST_TICK);
        if hlc::is_usable(t.mid) {
            proof {
                lemma_start_bounds(t.ts);
            }
            let k: i64 = bucket::bucket_start(t.ts, BAR_MS_S10);
            let seen = bucket::look(&rows, k);
            assert(seen == hlc::at(m, k));
            bucket::put(&mut rows, k, tick_on(seen, k, t.mid));
        }
        i = i + 1;
    }
    rows
}

fn fill_quiet(out: &mut Vec<Candle>, from: i64, to: i64, price: Double)
    requires
        from < to <= LAST_START,
    ensures
        final(out)@ == old(out)@ + quiet(from as int, to as int, price),
{
    let ghost was = out@;
    let mut b: i64 = from + BAR_MS_S10;
    assert(was + Seq::<Candle>::empty() =~= was);
    while b < to
        invariant
            from < to <= LAST_START,
            from + BAR_MS_S10 <= b <= LAST_START + BAR_MS_S10,
            was + quiet(from as int, to as int, price) == out@ + quiet(b - BAR_MS_S10, to as int, price),
        decreases
            if b < to {
                to - b
            } else {
                0
            },
    {
        let ghost so_far = out@;
        out.push(
            Candle {
                ts: b,
                close_ts: b + BAR_MS_S10 - 1,
                open: price,
                high: price,
                low: price,
                close: price,
                tick_count: 0,
            },
        );
        proof {
            let rest = quiet(b as int, to as int, price);
            assert(quiet(b - BAR_MS_S10, to as int, price) =~= seq![flat(b as int, price)] + rest);
            assert(so_far + (seq![flat(b as int, price)] + rest) =~= so_far.push(flat(b as int, price))
                + rest);
        }
        b = b + BAR_MS_S10;
    }
    assert(quiet(b - BAR_MS_S10, to as int, price) =~= Seq::<Candle>::empty());
    assert(out@ + Seq::<Candle>::empty() =~= out@);
}

/// The ten-second candles of a stream of middle prices, without gaps: a stretch
/// without ticks repeats the last close.
pub fn s10_series(ticks: &Vec<Tick>) -> (out: Vec<Candle>)
    requires
        forall|i: int| 0 <= i < ticks.len() ==> (#[trigger] ticks@[i]).ts <= LAST_TICK,
    ensures
        exists|rows: Seq<(i64, Candle)>| #[trigger]
            bucket::lists(rows, candles(ticks@, ticks.len() as int)) && out@ == filled(
                rows,
                rows.len() as int,
            ),
        gapless(out@),
        tells_all(ticks@, out@),
{
    let rows = gather(ticks);
    let ghost m = candles(ticks@, ticks.len() as int);
    proof {
        lemma_candles_on_grid(ticks@, ticks.len() as int);
        filled_series_has_no_gap(rows@, m, rows.len() as int);
        filled_series_tell_all(ticks@, rows@);
    }
    let mut out: Vec<Candle> = Vec::new();
    let mut i: usize = 0;
    while i < rows.len()
        invariant
            i <= rows.len(),
            bucket::lists(rows@, m),
            on_grid(m),
            out@ == filled(rows@, i as int),
        decreases rows.len() - i,
    {
        let (ts, c) = rows[i];
        let ghost was = out@;
        assert(m.contains_key(rows@[i as int].0));
        if i > 0 {
            let (before, last) = rows[i - 1];
            assert(rows@[i - 1].0 < rows@[i as int].0);
            fill_quiet(&mut out, before, ts, last.close);
        }
        out.push(c);
        proof {
            if i > 0 {
                let q = quiet(rows@[i - 1].0 as int, ts as int, rows@[i - 1].1.close);
                assert(out@ =~= was + q + seq![c]);
            } else {
                assert(out@ =~= seq![c]);
            }
        }
        i = i + 1;
    }
    out
}

/// Whether a row of a smoothed series is still the mean of all rows so far: the
/// first `period` are, at least one.
pub fn is_seed(row: usize, period: usize) -> (b: bool)
    ensures
        b == (row == 0 || row < period),
{
    row == 0 || row < period
}

/// Whether a candle can be used: all four prices above zero.
pub fn is_priced(c: &Candle) -> (b: bool)
    ensures
        b == (c.open.positive() && c.high.positive() && c.low.positive() && c.close.positive()),
{
    c.open.is_positive() && c.high.is_positive() && c.low.is_positive() && c.close.is_positive()
}

} // verus!
