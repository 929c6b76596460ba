//! Sweep over calibration windows: which candidates, which days, which ticks.

use vstd::prelude::*;
use crate::calendar;
use crate::calendar::Date;
use crate::calibrate;
use crate::ieee;
use crate::ieee::Double;
use crate::tally;
use crate::text;

verus! {

/// A set of calibration windows under test.
#[derive(Debug)]
pub struct Candidate {
    pub name: &'static str,
    pub windows: Vec<usize>,
}

/// Number of candidates.
pub const CANDIDATES: usize = 7;

/// Retention when no candidate has a window, in days.
pub const DEFAULT_RETENTION_DAYS: usize = 120;

/// The candidates, by position.
pub open spec fn candidate_name(i: int) -> Seq<char> {
    if i == 0 {
        "baseline_30_60_120"@
    } else if i == 1 {
        "spec_14_30_90"@
    } else if i == 2 {
        "resp_7_30_90"@
    } else if i == 3 {
        "compr_14_30_60"@
    } else if i == 4 {
        "two_30_90"@
    } else if i == 5 {
        "two_14_60"@
    } else {
        "short_7_14_30"@
    }
}

/// The windows of the candidates, in days, by position.
pub open spec fn candidate_windows(i: int) -> Seq<usize> {
    if i == 0 {
        seq![30usize, 60, 120]
    } else if i == 1 {
        seq![14usize, 30, 90]
    } else if i == 2 {
        seq![7usize, 30, 90]
    } else if i == 3 {
        seq![14usize, 30, 60]
    } else if i == 4 {
        seq![30usize, 90]
    } else if i == 5 {
        seq![14usize, 60]
    } else {
        seq![7usize, 14, 30]
    }
}

fn candidate(i: usize) -> (c: Candidate)
    requires
        i < CANDIDATES,
    ensures
        c.name@ == candidate_name(i as int),
        c.windows@ == candidate_windows(i as int),
{
    if i == 0 {
        Candidate { name: "baseline_30_60_120", windows: vec![30, 60, 120] }
    } else if i == 1 {
        Candidate { name: "spec_14_30_90", windows: vec![14, 30, 90] }
    } else if i == 2 {
        Candidate { name: "resp_7_30_90", windows: vec![7, 30, 90] }
    } else if i == 3 {
        Candidate { name: "compr_14_30_60", windows: vec![14, 30, 60] }
    } else if i == 4 {
        Candidate { name: "two_30_90", windows: vec![30, 90] }
    } else if i == 5 {
        Candidate { name: "two_14_60", windows: vec![14, 60] }
    } else {
        Candidate { name: "short_7_14_30", windows: vec![7, 14, 30] }
    }
}

/// A candidate takes part when no list is given or the list names it.
pub open spec fn chosen(arg: Option<&str>) -> spec_fn(int) -> bool {
    |i: int|
        match arg {
            None => true,
            Some(s) => text::csv_items(s@).contains(candidate_name(i)),
        }
}

/// The candidates at positions.
pub open spec fn are(cs: Seq<Candidate>, positions: Seq<int>) -> bool {
    &&& cs.len() == positions.len()
    &&& forall|k: int|
        0 <= k < cs.len() ==> (#[trigger] cs[k]).name@ == candidate_name(positions[k])
            && cs[k].windows@ == candidate_windows(positions[k])
}

/// The candidates that take part, in order.
pub fn parse_candidates(arg: Option<&str>) -> (cs: Vec<Candidate>)
    ensures
        are(cs@, tally::hits(CANDIDATES as int, chosen(arg))),
{
    let names: Option<Vec<String>> = match arg {
        None => None,
        Some(s) => Some(text::split_csv(s)),
    };
    let mut cs: Vec<Candidate> = Vec::new();
    let mut i: usize = 0;
    while i < CANDIDATES
        invariant
            i <= CANDIDATES,
            names is Some <==> arg is Some,
            names matches Some(v) ==> text::texts(v@) == text::csv_items(arg->0@),
            are(cs@, tally::hits(i as int, chosen(arg))),
        decreases CANDIDATES - i,
    {
        let c = candidate(i);
        let wanted = match &names {
            None => true,
            Some(v) => text::holds(v, c.name),
        };
        let ghost was = cs@;
        let ghost head = tally::hits(i as int, chosen(arg));
        if wanted {
            cs.push(c);
            assert(tally::hits(i + 1, chosen(arg)) == head.push(i as int));
            assert forall|k: int| 0 <= k < cs.len() implies (#[trigger] cs@[k]).name@
                == candidate_name(head.push(i as int)[k]) && cs@[k].windows@ == candidate_windows(
                head.push(i as int)[k],
            ) by {
                if k < was.len() {
                    assert(cs@[k] == was[k]);
                }
            }
        }
        i = i + 1;
    }
    cs
}

/// The longest window of the first `n` candidates, nothing without one.
pub open spec fn longest(cs: Seq<Candidate>, n: int) -> Option<usize>
    decreases n,
{
    if n <= 0 {
        None
    } else {
        longest_window(longest(cs, n - 1), cs[n - 1].windows@, cs[n - 1].windows@.len() as int)
    }
}

pub open spec fn longest_window(so_far: Option<usize>, w: Seq<usize>, n: int) -> Option<usize>
    decreases n,
{
    if n <= 0 {
        so_far
    } else {
        match longest_window(so_far, w, n - 1) {
            Some(m) => if w[n - 1] > m {
                Some(w[n - 1])
            } else {
                Some(m)
            },
            None => Some(w[n - 1]),
        }
    }
}

proof fn lemma_longest_window(so_far: Option<usize>, w: Seq<usize>, n: int)
    requires
        0 <= n <= w.len(),
    ensures
        longest_window(so_far, w, n) is None <==> so_far is None && n == 0,
        longest_window(so_far, w, n) matches Some(m) ==> {
            &&& forall|j: int| 0 <= j < n ==> (#[trigger] w[j]) <= m
            &&& so_far matches Some(s) ==> s <= m
            &&& so_far == Some(m) || exists|j: int| 0 <= j < n && (#[trigger] w[j]) == m
        },
    decreases n,
{
    if n > 0 {
        lemma_longest_window(so_far, w, n - 1);
        assert(w[n - 1] == w[n - 1]);
    }
}

/// Candidate `i` has a window of so many days.
pub open spec fn has_window(cs: Seq<Candidate>, i: int, days: usize) -> bool {
    exists|j: int| 0 <= j < cs[i].windows@.len() && (#[trigger] cs[i].windows@[j]) == days
}

/// No window of a candidate is longer than the longest, which is a candidate's; there is
/// none only if no candidate has a window.
pub proof fn no_window_is_longer(cs: Seq<Candidate>, n: int)
    requires
        0 <= n <= cs.len(),
    ensures
        longest(cs, n) is None ==> forall|i: int|
            0 <= i < n ==> (#[trigger] cs[i]).windows@.len() == 0,
        longest(cs, n) matches Some(m) ==> {
            &&& forall|i: int, d: usize| 0 <= i < n && #[trigger] has_window(cs, i, d) ==> d <= m
            &&& exists|i: int| 0 <= i < n && #[trigger] has_window(cs, i, m)
        },
    decreases n,
{
    if n > 0 {
        no_window_is_longer(cs, n - 1);
        let w = cs[n - 1].windows@;
        let before = longest(cs, n - 1);
        lemma_longest_window(before, w, w.len() as int);
        if let Some(m) = longest(cs, n) {
            assert forall|i: int, d: usize| 0 <= i < n && #[trigger] has_window(cs, i, d) implies d
                <= m by {
                if i == n - 1 {
                    let j = choose|j: int| 0 <= j < w.len() && (#[trigger] cs[i].windows@[j]) == d;
                    assert(w[j] == d);
                }
            }
            if before != Some(m) {
                let j = choose|j: int| 0 <= j < w.len() && (#[trigger] w[j]) == m;
                assert(cs[n - 1].windows@[j] == m);
                assert(has_window(cs, n - 1, m));
            }
        }
    }
}

/// Days of ticks to retain before the first evaluated day: the longest window.
pub fn retention_days(cs: &Vec<Candidate>) -> (d: usize)
    ensures
        d == (match longest(cs@, cs.len() as int) {
            Some(m) => m,
            None => DEFAULT_RETENTION_DAYS,
        }),
{
    let mut best: Option<usize> = None;
    let mut i: usize = 0;
    while i < cs.len()
        invariant
            i <= cs.len(),
            best == longest(cs@, i as int),
        decreases cs.len() - i,
    {
        let mut j: usize = 0;
        while j < cs[i].windows.len()
            invariant
                i < cs.len(),
                j <= cs[i as int].windows.len(),
                best == longest_window(
                    longest(cs@, i as int),
                    cs@[i as int].windows@,
                    j as int,
                ),
            decreases cs[i as int].windows.len() - j,
        {
            let w: usize = cs[i].windows[j];
            best = match best {
                Some(m) => if w > m {
                    Some(w)
                } else {
                    Some(m)
                },
                None => Some(w),
            };
            j = j + 1;
        }
        i = i + 1;
    }
    match best {
        Some(m) => m,
        None => DEFAULT_RETENTION_DAYS,
    }
}

/// The last day to evaluate: closed, stored, and not after the one asked for.
pub open spec fn last_day(stored: Date, today: Date, asked: Option<Date>) -> Date {
    let closed = day_before(today);
    let until = if closed.precedes(stored) {
        closed
    } else {
        stored
    };
    match asked {
        Some(d) => if until.precedes(d) {
            until
        } else {
            d
        },
        None => until,
    }
}

/// The day before, where there is one.
pub open spec fn day_before(d: Date) -> Date {
    if d.ordinal() > calendar::first_ordinal() {
        choose|x: Date| #[trigger] x.valid() && x.ordinal() == d.ordinal() - 1
    } else {
        d
    }
}

fn yesterday(d: Date) -> (r: Date)
    requires
        d.valid(),
    ensures
        r == day_before(d),
        r.valid(),
        d.ordinal() > calendar::first_ordinal() ==> r.ordinal() == d.ordinal() - 1,
{
    proof {
        calendar::lemma_days_fit(d);
    }
    match calendar::minus_days(d, 1) {
        Some(x) => {
            proof {
                let y = day_before(d);
                calendar::ordinal_is_calendar_order(x, y);
                calendar::ordinal_is_calendar_order(y, x);
            }
            x
        },
        None => d,
    }
}

/// The days to evaluate: up to `max_days` of them, ending with the last day; all
/// that are stored when `max_days` is 0.
pub fn sweep_window(
    first: Date,
    stored: Date,
    today: Date,
    asked: Option<Date>,
    max_days: usize,
) -> (w: (Date, Date))
    requires
        first.valid(),
        stored.valid(),
        today.valid(),
        asked matches Some(d) ==> d.valid(),
        max_days > 0 ==> last_day(stored, today, asked).ordinal() - (max_days - 1)
            >= calendar::first_ordinal(),
    ensures
        w.1 == last_day(stored, today, asked),
        w.1.valid(),
        w.0.valid(),
        max_days == 0 ==> w.0 == first,
        max_days > 0 ==> w.0.ordinal() == (if w.1.ordinal() - (max_days - 1) > first.ordinal() {
            w.1.ordinal() - (max_days - 1)
        } else {
            first.ordinal()
        }),
        today.ordinal() > calendar::first_ordinal() ==> w.1.ordinal() < today.ordinal(),
        w.1.ordinal() <= stored.ordinal(),
        asked matches Some(d) ==> w.1.ordinal() <= d.ordinal(),
        today.ordinal() > calendar::first_ordinal() ==> w.1.ordinal() == today.ordinal() - 1 || w.1
            == stored || asked == Some(w.1),
{
    let closed = yesterday(today);
    let until = stored.earlier(closed);
    let to = match asked {
        Some(d) => d.earlier(until),
        None => until,
    };
    proof {
        calendar::ordinal_is_calendar_order(closed, stored);
        calendar::ordinal_is_calendar_order(stored, closed);
        if let Some(d) = asked {
            calendar::ordinal_is_calendar_order(until, d);
            calendar::ordinal_is_calendar_order(d, until);
        }
    }
    if max_days == 0 {
        return (first, to);
    }
    proof {
        calendar::lemma_days_fit(to);
    }
    match calendar::minus_days(to, (max_days - 1) as i64) {
        Some(d) => {
            proof {
                calendar::ordinal_is_calendar_order(first, d);
                calendar::ordinal_is_calendar_order(d, first);
            }
            (first.later(d), to)
        },
        None => (first, to),
    }
}

/// Every `stride`-th day from the first on.
pub open spec fn strided(days: Seq<Date>, from: Date, to: Date, stride: int) -> bool {
    &&& days.len() == (if to.ordinal() < from.ordinal() {
        0
    } else {
        (to.ordinal() - from.ordinal()) / stride + 1
    })
    &&& forall|k: int|
        0 <= k < days.len() ==> (#[trigger] days[k]).valid() && days[k].ordinal() == from.ordinal()
            + k * stride
}

/// Every `stride`-th day from `from` to `to`.
pub fn sample_days(from: Date, to: Date, stride: usize) -> (days: Vec<Date>)
    requires
        from.valid(),
        to.valid(),
        stride > 0,
    ensures
        strided(days@, from, to, stride as int),
{
    let mut days: Vec<Date> = Vec::new();
    let mut d = from;
    let mut until: usize = 0;
    let mut more = !to.before(from);
    let ghost mut gone: int = 0;
    proof {
        calendar::ordinal_is_calendar_order(to, from);
        assert(0 * (stride as int) == 0);
    }
    while more
        invariant
            from.valid(),
            to.valid(),
            d.valid(),
            stride > 0,
            gone >= 0,
            more ==> d.ordinal() == from.ordinal() + gone && d.ordinal() <= to.ordinal(),
            !more ==> gone == (if to.ordinal() < from.ordinal() {
                0
            } else {
                to.ordinal() - from.ordinal() + 1
            }),
            until < stride,
            days.len() * stride == gone + until,
            forall|k: int|
                0 <= k < days.len() ==> (#[trigger] days@[k]).valid() && days@[k].ordinal()
                    == from.ordinal() + k * stride,
        decreases
            if more {
                to.ordinal() - d.ordinal() + 1
            } else {
                0
            },
    {
        if until == 0 {
            days.push(d);
            until = stride;
            proof {
                let n = days.len() as int;
                assert(n * stride == (n - 1) * stride + stride) by (nonlinear_arith);
            }
        }
        until = until - 1;
        proof {
            calendar::ordinal_is_calendar_order(d, to);
            calendar::lemma_days_fit(to);
            gone = gone + 1;
        }
        if d == to {
            more = false;
        } else {
            match calendar::succ_opt(d) {
                Some(n) => {
                    d = n;
                },
                None => {
                    more = false;
                },
            }
        }
    }
    proof {
        let n = days.len() as int;
        if to.ordinal() >= from.ordinal() {
            lemma_count(to.ordinal() - from.ordinal(), stride as int, n, until as int);
        } else {
            assert(n == 0) by (nonlinear_arith)
                requires
                    n * stride == until,
                    0 <= until < stride,
                    n >= 0,
            ;
        }
    }
    days
}

proof fn lemma_count(span: int, stride: int, n: int, until: int)
    requires
        span >= 0,
        stride > 0,
        0 <= until < stride,
        n * stride == span + 1 + until,
    ensures
        n == span / stride + 1,
{
    let r = stride - 1 - until;
    assert((n - 1) * stride == n * stride - stride) by (nonlinear_arith);
    assert(span == (n - 1) * stride + r);
    vstd::arithmetic::div_mod::lemma_fundamental_div_mod_converse(span, stride, n - 1, r);
}

/// The ticks before a day, and the end of the day's own ticks.
pub fn day_slice(ts: &Vec<i64>, start: i64) -> (s: (usize, usize))
    requires
        forall|i: int, j: int| 0 <= i <= j < ts.len() ==> (#[trigger] ts@[i]) <= (#[trigger] ts@[j]),
        start + calibrate::MS_PER_DAY <= i64::MAX,
    ensures
        s.0 <= s.1 <= ts.len(),
        forall|i: int| 0 <= i < ts.len() ==> (i < s.0 <==> (#[trigger] ts@[i]) < start),
        forall|i: int|
            0 <= i < ts.len() ==> (i < s.1 <==> (#[trigger] ts@[i]) < start + calibrate::MS_PER_DAY),
{
    let lo: usize = calibrate::below(ts, start, false);
    let hi: usize = calibrate::below(ts, start + calibrate::MS_PER_DAY, false);
    proof {
        if lo > hi {
            assert(ts@[hi as int] < start);
        }
    }
    (lo, hi)
}

/// Whether a day can be evaluated: it has ticks, and there are two before it.
pub fn is_scorable(slice: (usize, usize)) -> (b: bool)
    ensures
        b == (slice.0 >= 2 && slice.1 > slice.0),
{
    slice.0 >= 2 && slice.1 > slice.0
}

/// The multiplier to count with, where a calibration gave one.
pub fn effective_k(k: Double, k_floor: Double) -> (r: Option<Double>)
    ensures
        r == (if k.positive() && k.finite() {
            Some(ieee::larger(k, k_floor))
        } else {
            None
        }),
{
    if k.is_positive() && k.is_finite() {
        Some(ieee::max_of(k, k_floor))
    } else {
        None
    }
}

pub open spec fn out_of_band(samples: Seq<Double>, lo: Double, hi: Double) -> spec_fn(int) -> bool {
    |i: int| samples[i].below(lo) || hi.below(samples[i])
}

/// Number of samples outside a band.
pub fn count_out_of_band(samples: &Vec<Double>, lo: Double, hi: Double) -> (n: usize)
    ensures
        n == tally::count(samples.len() as int, out_of_band(samples@, lo, hi)),
{
    let mut n: usize = 0;
    let mut i: usize = 0;
    while i < samples.len()
        invariant
            i <= samples.len(),
            n <= i,
            n == tally::count(i as int, out_of_band(samples@, lo, hi)),
        decreases samples.len() - i,
    {
        if samples[i].lt(lo) || hi.lt(samples[i]) {
            n = n + 1;
        }
        i = i + 1;
    }
    n
}

/// The upper median of counts: the one in the middle of their ascending order,
/// 0 without any.
pub fn upper_median(samples: &Vec<u64>) -> (m: u64)
    ensures
        samples.len() == 0 ==> m == 0,
        samples.len() > 0 ==> exists|s: Seq<u64>| #[trigger]
            calibrate::sorts(samples@, s) && calibrate::sorted(s) && s.len() == samples.len() && m
                == s[s.len() as int / 2],
{
    if samples.len() == 0 {
        return 0;
    }
    let s = calibrate::sort_counts(samples);
    s[s.len() / 2]
}

pub open spec fn first_seen(keys: Seq<String>) -> spec_fn(int) -> bool {
    |i: int| forall|j: int| 0 <= j < i ==> (#[trigger] keys[j])@ != keys[i]@
}

fn seen_before(keys: &Vec<String>, i: usize) -> (b: bool)
    requires
        i < keys.len(),
    ensures
        b == !first_seen(keys@)(i as int),
{
    let mut j: usize = 0;
    while j < i
        invariant
            j <= i,
            i < keys.len(),
            forall|k: int| 0 <= k < j ==> (#[trigger] keys@[k])@ != keys@[i as int]@,
        decreases i - j,
    {
        if text::same(keys[j].as_str(), keys[i].as_str()) {
            assert(keys@[j as int]@ == keys@[i as int]@);
            return true;
        }
        j = j + 1;
    }
    false
}

/// Positions of the keys that did not occur before.
pub fn distinct(keys: &Vec<String>) -> (at: Vec<usize>)
    ensures
        at@.map_values(|i: usize| i as int) == tally::hits(keys.len() as int, first_seen(keys@)),
{
    let mut at: Vec<usize> = Vec::new();
    let mut i: usize = 0;
    assert(at@.map_values(|i: usize| i as int) =~= Seq::<int>::empty());
    while i < keys.len()
        invariant
            i <= keys.len(),
            at@.map_values(|i: usize| i as int) == tally::hits(i as int, first_seen(keys@)),
        decreases keys.len() - i,
    {
        let ghost was = at@.map_values(|i: usize| i as int);
        if !seen_before(keys, i) {
            at.push(i);
            assert(at@.map_values(|i: usize| i as int) =~= was.push(i as int));
        }
        i = i + 1;
    }
    at
}

} // verus!
