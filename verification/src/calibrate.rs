//! Calibration of the renko multiplier to a target number of bricks per day.
//!
//! The objective is the median number of bricks per UTC date over a window:
//! dates without bricks are gaps and drop out, storm days stay. The number of
//! bricks falls with the multiplier, in steps; [`crate::solver`] finds the
//! multiplier whose median is closest to the target.

use vstd::prelude::*;
use crate::ieee::Double;
use crate::tally;

verus! {

pub const MS_PER_DAY: i64 = 86_400_000;

/// Days with bricks that a window needs: half of its days, at least three, and
/// never more than it has.
pub open spec fn min_clean(n_days: int) -> int {
    let half = if n_days / 2 > 3 {
        n_days / 2
    } else {
        3
    };
    if half < n_days {
        half
    } else {
        n_days
    }
}

/// A window needs bricks on half of its days, a part of a day left out; on three if that
/// is fewer, and on all if it has fewer than three.
pub proof fn half_of_the_days_suffice(n_days: int)
    requires
        n_days >= 0,
    ensures
        n_days >= 6 ==> n_days - 1 <= 2 * min_clean(n_days) <= n_days,
        3 <= n_days < 6 ==> min_clean(n_days) == 3,
        n_days < 3 ==> min_clean(n_days) == n_days,
{
}

pub open spec fn has_bricks(per_day: Seq<u64>) -> spec_fn(int) -> bool {
    |i: int| per_day[i] > 0
}

/// The days with bricks, in order. Storm days are among them.
pub open spec fn clean_days(per_day: Seq<u64>, n: int) -> Seq<u64> {
    tally::hits(n, has_bricks(per_day)).map_values(|i: int| per_day[i])
}

/// Drops the days without bricks; nothing when too few remain.
pub fn quarantine_clean_days(per_day: &Vec<u64>, n_days: usize) -> (r: Option<Vec<u64>>)
    ensures
        ({
            let clean = clean_days(per_day@, per_day.len() as int);
            match r {
                Some(days) => days@ == clean && clean.len() > 0 && clean.len() >= min_clean(
                    n_days as int,
                ),
                None => clean.len() == 0 || clean.len() < min_clean(n_days as int),
            }
        }),
{
    let mut clean: Vec<u64> = Vec::new();
    assert(clean_days(per_day@, 0) =~= Seq::<u64>::empty());
    let mut i: usize = 0;
    while i < per_day.len()
        invariant
            i <= per_day.len(),
            clean@ == clean_days(per_day@, i as int),
        decreases per_day.len() - i,
    {
        let ghost was = clean@;
        if per_day[i] > 0 {
            clean.push(per_day[i]);
            assert(clean_days(per_day@, i + 1) =~= was.push(per_day@[i as int]));
        } else {
            assert(clean_days(per_day@, i + 1) =~= was);
        }
        i = i + 1;
    }
    if clean.len() == 0 {
        return None;
    }
    let half: usize = if n_days / 2 > 3 {
        n_days / 2
    } else {
        3
    };
    let need: usize = if half < n_days {
        half
    } else {
        n_days
    };
    if clean.len() < need {
        None
    } else {
        Some(clean)
    }
}

/// A quarantined window keeps every day with bricks, however many it has.
pub proof fn storms_are_kept(per_day: Seq<u64>, i: int)
    requires
        0 <= i < per_day.len(),
        per_day[i] > 0,
    ensures
        clean_days(per_day, per_day.len() as int).contains(per_day[i]),
{
    let n = per_day.len() as int;
    let p = has_bricks(per_day);
    tally::lemma_hits(n, p);
    assert(p(i));
    let h = tally::hits(n, p);
    assert(h.contains(i));
    let k = choose|k: int| 0 <= k < h.len() && h[k] == i;
    assert(clean_days(per_day, n)[k] == per_day[i]);
}

/// Days without bricks drop out, and no others.
pub proof fn only_gaps_drop_out(per_day: Seq<u64>, n: int)
    requires
        0 <= n <= per_day.len(),
    ensures
        forall|k: int| 0 <= k < clean_days(per_day, n).len() ==> #[trigger] clean_days(per_day, n)[k] > 0,
        clean_days(per_day, n).len() == tally::count(n, |i: int| per_day[i] > 0),
{
    let p = has_bricks(per_day);
    tally::lemma_hits(n, p);
    tally::lemma_count_bounds(n, p);
    tally::lemma_count_same(n, p, |i: int| per_day[i] > 0);
    let h = tally::hits(n, p);
    assert forall|k: int| 0 <= k < clean_days(per_day, n).len() implies #[trigger] clean_days(
        per_day,
        n,
    )[k] > 0 by {
        assert(p(h[k]));
    }
}

pub open spec fn sorted(s: Seq<u64>) -> bool {
    forall|i: int, j: int| 0 <= i <= j < s.len() ==> (#[trigger] s[i]) <= (#[trigger] s[j])
}

/// Twice the median of sorted values: the middle one, or the sum of the two in
/// the middle; 0 for none.
pub open spec fn median_x2(s: Seq<u64>) -> int {
    let n = s.len() as int;
    if n == 0 {
        0
    } else if n % 2 == 1 {
        2 * s[n / 2]
    } else {
        s[n / 2 - 1] + s[n / 2]
    }
}

/// The median lies in the middle: as many values are at most it as are at least it, and
/// twice it is the sum of the middle value counted from either end.
pub proof fn medians_lie_in_the_middle(s: Seq<u64>)
    requires
        sorted(s),
        s.len() > 0,
    ensures
        median_x2(s) == s[(s.len() - 1) / 2] + s[s.len() as int / 2],
        forall|i: int| 0 <= i < s.len() && 2 * i < s.len() ==> 2 * (#[trigger] s[i]) <= median_x2(s),
        forall|i: int|
            0 <= i < s.len() && 2 * (s.len() - 1 - i) < s.len() ==> median_x2(s) <= 2 * (
            #[trigger] s[i]),
{
    let n = s.len() as int;
    let a = s[(n - 1) / 2];
    let b = s[n / 2];
    assert(a <= b);
    assert forall|i: int| 0 <= i < s.len() && 2 * i < s.len() implies 2 * (#[trigger] s[i])
        <= median_x2(s) by {
        assert(i <= (n - 1) / 2);
        assert(s[i] <= s[(n - 1) / 2]);
    }
    assert forall|i: int| 0 <= i < s.len() && 2 * (s.len() - 1 - i) < s.len() implies median_x2(s)
        <= 2 * (#[trigger] s[i]) by {
        assert(i >= n / 2);
        assert(s[n / 2] <= s[i]);
    }
}

/// Twice the median of sorted values.
pub fn median_sorted(s: &Vec<u64>) -> (m: u128)
    ensures
        m == median_x2(s@),
{
    let n: usize = s.len();
    if n == 0 {
        0
    } else if n % 2 == 1 {
        2 * (s[n / 2] as u128)
    } else {
        s[n / 2 - 1] as u128 + s[n / 2] as u128
    }
}

/// The values as keys that keep their order.
pub open spec fn order_keys(v: Seq<u64>) -> Seq<i64> {
    Seq::new(v.len(), |i: int| (v[i] - 0x8000_0000_0000_0000) as i64)
}

/// `out` holds the values of `v` in ascending order.
pub open spec fn sorts(v: Seq<u64>, out: Seq<u64>) -> bool {
    exists|order: Seq<usize>| #[trigger]
        tally::stable_order(order_keys(v), order) && out == Seq::new(
            order.len(),
            |i: int| v[order[i] as int],
        )
}

/// The values in ascending order.
pub fn sort_counts(v: &Vec<u64>) -> (out: Vec<u64>)
    ensures
        sorts(v@, out@),
        sorted(out@),
        out.len() == v.len(),
{
    let mut keys: Vec<i64> = Vec::new();
    let mut i: usize = 0;
    while i < v.len()
        invariant
            i <= v.len(),
            keys@ == order_keys(v@).take(i as int),
        decreases v.len() - i,
    {
        keys.push((v[i] as i128 - 0x8000_0000_0000_0000) as i64);
        i = i + 1;
    }
    assert(keys@ == order_keys(v@));
    let order = tally::stable_sort_order(&keys);
    let ghost want = Seq::new(order@.len(), |i: int| v@[order@[i] as int]);
    let mut out: Vec<u64> = Vec::new();
    let mut i: usize = 0;
    while i < order.len()
        invariant
            i <= order.len(),
            order.len() == v.len(),
            tally::stable_order(order_keys(v@), order@),
            want == Seq::new(order@.len(), |i: int| v@[order@[i] as int]),
            out@ == want.take(i as int),
        decreases order.len() - i,
    {
        out.push(v[order[i]]);
        i = i + 1;
    }
    assert(out@ == want);
    assert forall|i: int, j: int| 0 <= i <= j < out.len() implies (#[trigger] out@[i]) <= (
    #[trigger] out@[j]) by {
        if i < j {
            let a = order@[i] as int;
            let b = order@[j] as int;
            assert(order_keys(v@)[a] <= order_keys(v@)[b]);
        }
    }
    out
}

/// Number of the UTC date that holds an instant.
pub open spec fn utc_day(ts: i64) -> int {
    ts as int / MS_PER_DAY as int
}

/// UTC dates that a window touches.
pub open spec fn window_days(from_ts: i64, to_ts: i64) -> int {
    utc_day(to_ts) - utc_day(from_ts) + 1
}

/// Position of an instant's UTC date among those of a window.
pub open spec fn day_index(from_ts: i64, ts: i64) -> int {
    utc_day(ts) - utc_day(from_ts)
}

fn day_number(ts: i64) -> (d: i64)
    ensures
        d == utc_day(ts),
        -0x20_0000_0000 <= d <= 0x20_0000_0000,
{
    match ts.checked_div_euclid(MS_PER_DAY) {
        Some(d) => d,
        None => 0,
    }
}

/// UTC dates that a window touches.
pub fn days_touched(from_ts: i64, to_ts: i64) -> (n: i64)
    ensures
        n == window_days(from_ts, to_ts),
{
    day_number(to_ts) - day_number(from_ts) + 1
}

/// The instant lies in a window, both ends included.
pub open spec fn inside<T>(from_ts: i64, to_ts: i64) -> spec_fn((i64, T)) -> bool {
    |t: (i64, T)| from_ts <= t.0 <= to_ts
}

/// Bricks of tick `i` that count for date `d` of a window.
pub open spec fn bricks_on(ticks: Seq<(i64, u64)>, from_ts: i64, to_ts: i64, d: int) -> spec_fn(
    int,
) -> int {
    |i: int|
        if inside(from_ts, to_ts)(ticks[i]) && day_index(from_ts, ticks[i].0) == d {
            ticks[i].1 as int
        } else {
            0
        }
}

pub open spec fn saturated(n: int) -> int {
    if n > u64::MAX {
        u64::MAX as int
    } else {
        n
    }
}

/// Bricks per UTC date of a window, and their median over the clean days.
#[derive(Debug)]
pub struct DailyBpdStats {
    /// Consecutive UTC dates; 0 on a gap.
    pub bricks_per_day: Vec<u64>,
    /// Twice the median over the clean days.
    pub median_x2: u128,
    /// Clean days scored; 0 for a window that cannot be scored.
    pub days: usize,
}

/// The statistics of `per_day` are those of its clean days in order.
pub open spec fn scored(per_day: Seq<u64>, median: int, days: int) -> bool {
    let clean = clean_days(per_day, per_day.len() as int);
    if clean.len() == 0 || clean.len() < min_clean(per_day.len() as int) {
        median == 0 && days == 0
    } else {
        days == clean.len() && exists|s: Seq<u64>| #[trigger] sorts(clean, s) && sorted(s) && median
            == median_x2(s)
    }
}

/// Positions of the ticks in `[from_ts, to_ts]`, of ticks in time order.
pub fn tick_window(ts: &Vec<i64>, from_ts: i64, to_ts: i64) -> (w: (usize, usize))
    requires
        forall|i: int, j: int| 0 <= i <= j < ts.len() ==> (#[trigger] ts@[i]) <= (#[trigger] ts@[j]),
        from_ts <= to_ts,
    ensures
        w.0 <= w.1 <= ts.len(),
        forall|i: int| 0 <= i < ts.len() ==> (w.0 <= i < w.1 <==> from_ts <= #[trigger] ts@[i] <= to_ts),
{
    let lo: usize = below(ts, from_ts, false);
    let hi: usize = below(ts, to_ts, true);
    proof {
        if lo > hi {
            assert(ts@[hi as int] > to_ts);
            assert(ts@[hi as int] < from_ts);
        }
    }
    (lo, hi)
}

/// Number of ticks before `t`, or up to `t` where `inclusive`.
pub fn below(ts: &Vec<i64>, t: i64, inclusive: bool) -> (n: usize)
    requires
        forall|i: int, j: int| 0 <= i <= j < ts.len() ==> (#[trigger] ts@[i]) <= (#[trigger] ts@[j]),
    ensures
        n <= ts.len(),
        forall|i: int|
            0 <= i < n ==> ((#[trigger] ts@[i]) < t || (inclusive && ts@[i] == t)),
        forall|i: int|
            n <= i < ts.len() ==> !((#[trigger] ts@[i]) < t || (inclusive && ts@[i] == t)),
{
    let mut lo: usize = 0;
    let mut hi: usize = ts.len();
    while lo < hi
        invariant
            lo <= hi <= ts.len(),
            forall|i: int, j: int|
                0 <= i <= j < ts.len() ==> (#[trigger] ts@[i]) <= (#[trigger] ts@[j]),
            forall|i: int|
                0 <= i < lo ==> ((#[trigger] ts@[i]) < t || (inclusive && ts@[i] == t)),
            forall|i: int|
                hi <= i < ts.len() ==> !((#[trigger] ts@[i]) < t || (inclusive && ts@[i] == t)),
        decreases hi - lo,
    {
        let mid: usize = lo + (hi - lo) / 2;
        if ts[mid] < t || (inclusive && ts[mid] == t) {
            lo = mid + 1;
        } else {
            hi = mid;
        }
    }
    lo
}

proof fn lemma_total_nonneg(ticks: Seq<(i64, u64)>, from_ts: i64, to_ts: i64, d: int, n: int)
    ensures
        tally::total(n, bricks_on(ticks, from_ts, to_ts, d)) >= 0,
    decreases n,
{
    if n > 0 {
        lemma_total_nonneg(ticks, from_ts, to_ts, d, n - 1);
    }
}

/// The statistics are those of the ticks in a window: the bricks of each UTC
/// date, and their median over the clean days.
pub open spec fn counted(
    ticks: Seq<(i64, u64)>,
    from_ts: i64,
    to_ts: i64,
    s: DailyBpdStats,
) -> bool {
    if to_ts <= from_ts {
        s.bricks_per_day.len() == 0 && s.median_x2 == 0 && s.days == 0
    } else {
        &&& s.bricks_per_day.len() == window_days(from_ts, to_ts)
        &&& forall|d: int|
            0 <= d < s.bricks_per_day.len() ==> #[trigger] s.bricks_per_day@[d] == saturated(
                tally::total(ticks.len() as int, bricks_on(ticks, from_ts, to_ts, d)),
            )
        &&& scored(s.bricks_per_day@, s.median_x2 as int, s.days as int)
    }
}

/// Buckets the bricks that the ticks of a window drew into UTC dates, and takes
/// the median over the clean days. Ticks outside the window do not count.
pub fn count_bars_per_day_from_prices(
    ticks: &Vec<(i64, u64)>,
    from_ts: i64,
    to_ts: i64,
) -> (s: DailyBpdStats)
    requires
        window_days(from_ts, to_ts) <= usize::MAX,
    ensures
        counted(ticks@, from_ts, to_ts, s),
{
    if to_ts <= from_ts {
        return DailyBpdStats { bricks_per_day: Vec::new(), median_x2: 0, days: 0 };
    }
    let first_day: i64 = day_number(from_ts);
    let n_days: usize = days_touched(from_ts, to_ts) as usize;
    let mut per_day: Vec<u64> = Vec::new();
    let mut d: usize = 0;
    while d < n_days
        invariant
            d <= n_days,
            per_day.len() == d,
            forall|k: int| 0 <= k < d ==> #[trigger] per_day@[k] == 0,
        decreases n_days - d,
    {
        per_day.push(0);
        d = d + 1;
    }
    let mut i: usize = 0;
    while i < ticks.len()
        invariant
            i <= ticks.len(),
            per_day.len() == n_days,
            n_days == window_days(from_ts, to_ts),
            first_day == utc_day(from_ts),
            -0x20_0000_0000 <= first_day <= 0x20_0000_0000,
            to_ts > from_ts,
            forall|k: int|
                0 <= k < n_days ==> #[trigger] per_day@[k] == saturated(
                    tally::total(i as int, bricks_on(ticks@, from_ts, to_ts, k)),
                ),
        decreases ticks.len() - i,
    {
        let (ts, bricks) = ticks[i];
        let ghost was = per_day@;
        if from_ts <= ts && ts <= to_ts {
            let at: usize = (day_number(ts) - first_day) as usize;
            assert(at == day_index(from_ts, ts));
            let more: u64 = per_day[at].saturating_add(bricks);
            per_day[at] = more;
        }
        proof {
            assert forall|k: int| 0 <= k < n_days implies #[trigger] per_day@[k] == saturated(
                tally::total(i + 1, bricks_on(ticks@, from_ts, to_ts, k)),
            ) by {
                lemma_total_nonneg(ticks@, from_ts, to_ts, k, i as int);
                assert(was[k] == saturated(tally::total(i as int, bricks_on(ticks@, from_ts, to_ts, k))));
            }
        }
        i = i + 1;
    }
    match quarantine_clean_days(&per_day, n_days) {
        None => DailyBpdStats { bricks_per_day: per_day, median_x2: 0, days: 0 },
        Some(clean) => {
            let s = sort_counts(&clean);
            let median = median_sorted(&s);
            let days: usize = clean.len();
            assert(sorts(clean@, s@));
            DailyBpdStats { bricks_per_day: per_day, median_x2: median, days }
        },
    }
}

pub open spec fn bricks_inside(ticks: Seq<(i64, u64)>, from_ts: i64, to_ts: i64) -> spec_fn(
    int,
) -> int {
    |i: int|
        if from_ts <= ticks[i].0 <= to_ts {
            ticks[i].1 as int
        } else {
            0
        }
}

pub open spec fn bricks_by_day(ticks: Seq<(i64, u64)>, from_ts: i64, to_ts: i64, n: int) -> spec_fn(
    int,
) -> int {
    |d: int| tally::total(n, bricks_on(ticks, from_ts, to_ts, d))
}

/// Adding up over days, with one day a value more.
proof fn lemma_one_day_more(f: spec_fn(int) -> int, g: spec_fn(int) -> int, days: int, k: int, x: int)
    requires
        days >= 0,
        forall|d: int| 0 <= d < days ==> #[trigger] g(d) == f(d) + if d == k {
            x
        } else {
            0
        },
    ensures
        tally::total(days, g) == tally::total(days, f) + if 0 <= k < days {
            x
        } else {
            0
        },
    decreases days,
{
    if days > 0 {
        lemma_one_day_more(f, g, days - 1, k, x);
        assert(g(days - 1) == f(days - 1) + if days - 1 == k {
            x
        } else {
            0
        });
    }
}

/// No brick of a window is lost or counted twice: over its dates they add up to the
/// bricks of the ticks inside it.
pub proof fn bricks_add_up_over_the_dates(ticks: Seq<(i64, u64)>, from_ts: i64, to_ts: i64, n: int)
    requires
        0 <= n <= ticks.len(),
        from_ts <= to_ts,
    ensures
        tally::total(window_days(from_ts, to_ts), bricks_by_day(ticks, from_ts, to_ts, n))
            == tally::total(n, bricks_inside(ticks, from_ts, to_ts)),
    decreases n,
{
    let days = window_days(from_ts, to_ts);
    let g = bricks_by_day(ticks, from_ts, to_ts, n);
    if n == 0 {
        let f = |d: int| 0int;
        lemma_one_day_more(g, f, days, -1, 0);
        lemma_nothing(days);
    } else {
        bricks_add_up_over_the_dates(ticks, from_ts, to_ts, n - 1);
        let f = bricks_by_day(ticks, from_ts, to_ts, n - 1);
        let t = ticks[n - 1];
        let inside = from_ts <= t.0 <= to_ts;
        let k = if inside {
            day_index(from_ts, t.0)
        } else {
            -1
        };
        let x = if inside {
            t.1 as int
        } else {
            0
        };
        if inside {
            assert(utc_day(from_ts) <= utc_day(t.0) <= utc_day(to_ts));
        }
        assert forall|d: int| 0 <= d < days implies #[trigger] g(d) == f(d) + if d == k {
            x
        } else {
            0
        } by {
            assert(bricks_on(ticks, from_ts, to_ts, d)(n - 1) == if d == k {
                x
            } else {
                0
            });
        }
        lemma_one_day_more(f, g, days, k, x);
    }
}

proof fn lemma_nothing(days: int)
    ensures
        tally::total(days, |d: int| 0int) == 0,
    decreases days,
{
    if days > 0 {
        lemma_nothing(days - 1);
    }
}

/// A UTC date holds its instants from its midnight up to the next.
pub proof fn dates_hold_their_instants(ts: i64)
    ensures
        utc_day(ts) * 86_400_000 <= ts < (utc_day(ts) + 1) * 86_400_000,
{
}

/// Bricks of different UTC dates are never counted in the same entry.
pub proof fn dates_are_kept_apart(from_ts: i64, a: i64, b: i64)
    ensures
        day_index(from_ts, a) == day_index(from_ts, b) <==> utc_day(a) == utc_day(b),
{
}

/// The positions of prices in a window are those from `w.0` up to `w.1`, as
/// [`tick_window`] finds them.
pub open spec fn holds_window<T>(
    prices: Seq<(i64, T)>,
    from_ts: i64,
    to_ts: i64,
    w: (usize, usize),
) -> bool {
    &&& w.0 <= w.1 <= prices.len()
    &&& forall|i: int|
        0 <= i < prices.len() ==> (w.0 <= i < w.1 <==> from_ts <= (#[trigger] prices[i]).0 <= to_ts)
}

/// Of prices in time order, a window holds exactly those that lie inside it.
pub proof fn windows_hold_what_lies_inside<T>(
    prices: Seq<(i64, T)>,
    from_ts: i64,
    to_ts: i64,
    w: (usize, usize),
)
    requires
        holds_window(prices, from_ts, to_ts, w),
    ensures
        prices.subrange(w.0 as int, w.1 as int) == prices.filter(inside(from_ts, to_ts)),
{
    tally::lemma_range_is_filter(prices, inside(from_ts, to_ts), w.0 as int, w.1 as int);
}

/// Ticks outside a window have no effect: two series that agree inside it have
/// the same bricks per date, the same median and the same number of clean days.
pub proof fn outside_ticks_do_not_count(
    p: Seq<(i64, u64)>,
    q: Seq<(i64, u64)>,
    from_ts: i64,
    to_ts: i64,
    s: DailyBpdStats,
    t: DailyBpdStats,
)
    requires
        p.filter(inside(from_ts, to_ts)) == q.filter(inside(from_ts, to_ts)),
        counted(p, from_ts, to_ts, s),
        counted(q, from_ts, to_ts, t),
    ensures
        s.bricks_per_day@ == t.bricks_per_day@,
        s.median_x2 == t.median_x2,
        s.days == t.days,
{
    if to_ts > from_ts {
        assert forall|d: int| 0 <= d < s.bricks_per_day@.len() implies s.bricks_per_day@[d]
            == t.bricks_per_day@[d] by {
            lemma_total_inside(p, from_ts, to_ts, d);
            lemma_total_inside(q, from_ts, to_ts, d);
        }
        assert(s.bricks_per_day@ =~= t.bricks_per_day@);
        let clean = clean_days(s.bricks_per_day@, s.bricks_per_day@.len() as int);
        if !(clean.len() == 0 || clean.len() < min_clean(s.bricks_per_day@.len() as int)) {
            let a = choose|a: Seq<u64>| #[trigger]
                sorts(clean, a) && sorted(a) && s.median_x2 == median_x2(a);
            let b = choose|b: Seq<u64>| #[trigger]
                sorts(clean, b) && sorted(b) && t.median_x2 == median_x2(b);
            let x = choose|x: Seq<usize>| #[trigger]
                tally::stable_order(order_keys(clean), x) && a == Seq::new(
                    x.len(),
                    |i: int| clean[x[i] as int],
                );
            let y = choose|y: Seq<usize>| #[trigger]
                tally::stable_order(order_keys(clean), y) && b == Seq::new(
                    y.len(),
                    |i: int| clean[y[i] as int],
                );
            tally::lemma_stable_order_unique(order_keys(clean), x, y);
            assert(a == b);
        }
    }
}

/// Prices outside a window have no effect on the count: two series in time order
/// that agree inside the window hand the same prices to whatever draws the
/// bricks, and have the same bricks per date, median and number of clean days.
pub proof fn outside_prices_do_not_matter<T>(
    p: Seq<(i64, T)>,
    q: Seq<(i64, T)>,
    from_ts: i64,
    to_ts: i64,
    in_p: (usize, usize),
    in_q: (usize, usize),
    drawn: spec_fn(Seq<(i64, T)>) -> Seq<(i64, u64)>,
    s: DailyBpdStats,
    t: DailyBpdStats,
)
    requires
        p.filter(inside(from_ts, to_ts)) == q.filter(inside(from_ts, to_ts)),
        holds_window(p, from_ts, to_ts, in_p),
        holds_window(q, from_ts, to_ts, in_q),
        counted(drawn(p.subrange(in_p.0 as int, in_p.1 as int)), from_ts, to_ts, s),
        counted(drawn(q.subrange(in_q.0 as int, in_q.1 as int)), from_ts, to_ts, t),
    ensures
        p.subrange(in_p.0 as int, in_p.1 as int) == q.subrange(in_q.0 as int, in_q.1 as int),
        s.bricks_per_day@ == t.bricks_per_day@,
        s.median_x2 == t.median_x2,
        s.days == t.days,
{
    windows_hold_what_lies_inside(p, from_ts, to_ts, in_p);
    windows_hold_what_lies_inside(q, from_ts, to_ts, in_q);
    let ticks = drawn(p.subrange(in_p.0 as int, in_p.1 as int));
    outside_ticks_do_not_count(ticks, ticks, from_ts, to_ts, s, t);
}

proof fn lemma_total_inside(p: Seq<(i64, u64)>, from_ts: i64, to_ts: i64, d: int)
    ensures
        tally::total(p.len() as int, bricks_on(p, from_ts, to_ts, d)) == tally::total(
            p.filter(inside(from_ts, to_ts)).len() as int,
            bricks_on(p.filter(inside(from_ts, to_ts)), from_ts, to_ts, d),
        ),
    decreases p.len(),
{
    reveal(Seq::filter);
    if p.len() > 0 {
        let e = p.drop_last();
        let n = e.len() as int;
        let f = p.filter(inside(from_ts, to_ts));
        let g = e.filter(inside(from_ts, to_ts));
        lemma_total_inside(e, from_ts, to_ts, d);
        tally::lemma_total_same(n, bricks_on(p, from_ts, to_ts, d), bricks_on(e, from_ts, to_ts, d));
        if inside(from_ts, to_ts)(p.last()) {
            assert(f == g.push(p.last()));
            tally::lemma_total_same(
                g.len() as int,
                bricks_on(f, from_ts, to_ts, d),
                bricks_on(g, from_ts, to_ts, d),
            );
        }
    }
}

pub open spec fn held_up(shares: Seq<Double>, min_pct: Double) -> spec_fn(int) -> bool {
    |i: int| shares[i].at_most(min_pct)
}

/// Samples whose brick share is held up by the least one, and samples in all.
pub fn min_pct_clamped_fraction(shares: &Vec<Double>, min_pct: Double) -> (r: (usize, usize))
    ensures
        r.0 == tally::count(shares.len() as int, held_up(shares@, min_pct)),
        r.1 == shares.len(),
{
    let mut n: usize = 0;
    let mut i: usize = 0;
    while i < shares.len()
        invariant
            i <= shares.len(),
            n <= i,
            n == tally::count(i as int, held_up(shares@, min_pct)),
        decreases shares.len() - i,
    {
        if shares[i].le(min_pct) {
            n = n + 1;
        }
        i = i + 1;
    }
    (n, shares.len())
}

} // verus!
