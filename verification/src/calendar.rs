//! Civil dates of the proleptic Gregorian calendar, over `chrono`.
//!
//! A date is its year, month and day; `ordinal` numbers the days, with
//! 0001-01-01 as day 1. Date arithmetic is `chrono`'s.

use vstd::prelude::*;
use chrono::Datelike;
use crate::text;

verus! {

/// First year that `chrono::NaiveDate` can hold.
pub const MIN_YEAR: i32 = -262143;

/// Last year that `chrono::NaiveDate` can hold.
pub const MAX_YEAR: i32 = 262142;

pub const MS_PER_DAY: i64 = 86_400_000;

/// Ordinal of 1970-01-01.
pub const EPOCH_ORDINAL: i64 = 719_163;

#[derive(Clone, Copy, Debug, PartialEq, Eq, Structural)]
pub struct Date {
    pub year: i32,
    pub month: u32,
    pub day: u32,
}

pub open spec fn leap(y: int) -> bool {
    y % 4 == 0 && (y % 100 != 0 || y % 400 == 0)
}

pub open spec fn month_len(y: int, m: int) -> int {
    if m == 2 {
        if leap(y) {
            29
        } else {
            28
        }
    } else if m == 4 || m == 6 || m == 9 || m == 11 {
        30
    } else {
        31
    }
}

/// Days from 0001-01-01 up to, not counting, the first day of year `y`.
pub open spec fn days_before_year(y: int) -> int {
    let p = y - 1;
    365 * p + p / 4 - p / 100 + p / 400
}

/// Days of year `y` before month `m`.
pub open spec fn days_before_month(y: int, m: int) -> int
    decreases m,
{
    if m <= 1 {
        0
    } else {
        days_before_month(y, m - 1) + month_len(y, m - 1)
    }
}

impl Date {
    /// A date that exists and that `chrono` can hold.
    pub open spec fn valid(self) -> bool {
        &&& MIN_YEAR <= self.year <= MAX_YEAR
        &&& 1 <= self.month <= 12
        &&& 1 <= self.day <= month_len(self.year as int, self.month as int)
    }

    /// Day number; 0001-01-01 is 1.
    pub open spec fn ordinal(self) -> int {
        days_before_year(self.year as int) + days_before_month(self.year as int, self.month as int)
            + self.day
    }

    /// Calendar order.
    pub open spec fn precedes(self, other: Date) -> bool {
        self.year < other.year || (self.year == other.year && (self.month < other.month || (
        self.month == other.month && self.day < other.day)))
    }

    pub open spec fn same_month(self, other: Date) -> bool {
        self.year == other.year && self.month == other.month
    }

    /// `self < other`.
    pub fn before(self, other: Date) -> (b: bool)
        ensures
            b == self.precedes(other),
    {
        self.year < other.year || (self.year == other.year && (self.month < other.month || (
        self.month == other.month && self.day < other.day)))
    }

    /// The earlier of two dates.
    pub fn earlier(self, other: Date) -> (d: Date)
        ensures
            d == if other.precedes(self) {
                other
            } else {
                self
            },
    {
        if other.before(self) {
            other
        } else {
            self
        }
    }

    /// The later of two dates.
    pub fn later(self, other: Date) -> (d: Date)
        ensures
            d == if self.precedes(other) {
                other
            } else {
                self
            },
    {
        if self.before(other) {
            other
        } else {
            self
        }
    }
}

pub open spec fn first_ordinal() -> int {
    (Date { year: MIN_YEAR, month: 1, day: 1 }).ordinal()
}

pub open spec fn last_ordinal() -> int {
    (Date { year: MAX_YEAR, month: 12, day: 31 }).ordinal()
}

/// `chrono::NaiveDate::from_ymd_opt`. Claimed: a date comes back exactly when
/// year, month and day name an existing day in range, and it is that day.
#[verifier::external_body]
fn from_ymd_opt(year: i32, month: u32, day: u32) -> (r: Option<Date>)
    ensures
        r == if (Date { year, month, day }).valid() {
            Some(Date { year, month, day })
        } else {
            None
        },
{
    let d = chrono::NaiveDate::from_ymd_opt(year, month, day)?;
    Some(Date { year: d.year(), month: d.month(), day: d.day() })
}

/// `chrono::NaiveDate::succ_opt`. Claimed: the next day, or nothing on the last
/// day in range.
#[verifier::external_body]
pub(crate) fn succ_opt(d: Date) -> (r: Option<Date>)
    requires
        d.valid(),
    ensures
        r is Some <==> d.ordinal() < last_ordinal(),
        r matches Some(x) ==> x.valid() && x.ordinal() == d.ordinal() + 1,
{
    let n = chrono::NaiveDate::from_ymd_opt(d.year, d.month, d.day)?.succ_opt()?;
    Some(Date { year: n.year(), month: n.month(), day: n.day() })
}

/// `chrono::NaiveDate::checked_sub_signed` with a span of whole days. Claimed:
/// the day `days` earlier, or nothing when that is out of range.
#[verifier::external_body]
pub(crate) fn minus_days(d: Date, days: i64) -> (r: Option<Date>)
    requires
        d.valid(),
    ensures
        r is Some <==> first_ordinal() <= d.ordinal() - days <= last_ordinal(),
        r matches Some(x) ==> x.valid() && x.ordinal() == d.ordinal() - days,
{
    let n = chrono::NaiveDate::from_ymd_opt(d.year, d.month, d.day)?.checked_sub_signed(
        chrono::TimeDelta::try_days(days)?,
    )?;
    Some(Date { year: n.year(), month: n.month(), day: n.day() })
}

/// `chrono::NaiveDate::signed_duration_since`, in whole days. Claimed: the
/// difference of the two day numbers.
#[verifier::external_body]
pub(crate) fn days_since(later: Date, earlier: Date) -> (n: i64)
    requires
        later.valid(),
        earlier.valid(),
    ensures
        n == later.ordinal() - earlier.ordinal(),
{
    match (
        chrono::NaiveDate::from_ymd_opt(later.year, later.month, later.day),
        chrono::NaiveDate::from_ymd_opt(earlier.year, earlier.month, earlier.day),
    ) {
        (Some(a), Some(b)) => a.signed_duration_since(b).num_days(),
        _ => 0,
    }
}

/// `chrono::DateTime::from_timestamp_millis`, its date in UTC. Claimed: the day
/// that holds the instant, or nothing when that day is out of range.
#[verifier::external_body]
pub(crate) fn utc_date(ts_ms: i64) -> (r: Option<Date>)
    ensures
        r is Some <==> first_ordinal() <= EPOCH_ORDINAL + ts_ms as int / MS_PER_DAY as int
            <= last_ordinal(),
        r matches Some(x) ==> x.valid() && x.ordinal() == EPOCH_ORDINAL + ts_ms as int
            / MS_PER_DAY as int,
{
    let d = chrono::DateTime::from_timestamp_millis(ts_ms)?.date_naive();
    Some(Date { year: d.year(), month: d.month(), day: d.day() })
}

/// A year, month or day in decimal digits, with zeros in front up to `width`.
pub open spec fn padded(n: int, width: int) -> Seq<char> {
    let digits = text::decimal(n);
    Seq::new(
        if digits.len() < width {
            (width - digits.len()) as nat
        } else {
            0
        },
        |i: int| '0',
    ) + digits
}

/// A number in decimal digits, with zeros in front up to `width`.
pub fn pad(n: u64, width: usize) -> (s: String)
    ensures
        s@ == padded(n as int, width as int),
{
    let digits = text::decimal_string(n);
    let have: usize = digits.as_str().unicode_len();
    let mut s: String = String::new();
    let mut i: usize = have;
    proof {
        reveal_strlit("0");
    }
    while i < width
        invariant
            have <= i,
            i <= width || i == have,
            s@ == Seq::new((i - have) as nat, |k: int| '0'),
            "0"@ =~= seq!['0'],
        decreases width - i,
    {
        let ghost was = s@;
        s.append("0");
        assert(s@ =~= Seq::new((i + 1 - have) as nat, |k: int| '0'));
        i = i + 1;
    }
    s.append(digits.as_str());
    assert(s@ =~= padded(n as int, width as int));
    s
}

/// A date as `YYYY-MM-DD`. A year that does not fit four digits has a sign.
pub open spec fn label(d: Date) -> Seq<char> {
    let year = if d.year < 0 {
        seq!['-'] + padded(-d.year, 4)
    } else if d.year > 9999 {
        seq!['+'] + padded(d.year as int, 4)
    } else {
        padded(d.year as int, 4)
    };
    year + seq!['-'] + padded(d.month as int, 2) + seq!['-'] + padded(d.day as int, 2)
}

/// `chrono::NaiveDate::format` with `%Y-%m-%d`. Claimed: the label of the date.
#[verifier::external_body]
fn format_date(d: Date) -> (r: Option<String>)
    requires
        d.valid(),
    ensures
        r is Some,
        r->0@ == label(d),
{
    let n = chrono::NaiveDate::from_ymd_opt(d.year, d.month, d.day)?;
    Some(n.format("%Y-%m-%d").to_string())
}

impl Date {
    /// The date with a year, month and day, where it exists.
    pub fn new(year: i32, month: u32, day: u32) -> (r: Option<Date>)
        ensures
            r == if (Date { year, month, day }).valid() {
                Some(Date { year, month, day })
            } else {
                None
            },
    {
        from_ymd_opt(year, month, day)
    }

    /// The day that holds an instant, in UTC.
    pub fn of_instant(ts_ms: i64) -> (r: Option<Date>)
        ensures
            r is Some <==> first_ordinal() <= EPOCH_ORDINAL + ts_ms as int / MS_PER_DAY as int
                <= last_ordinal(),
            r matches Some(x) ==> x.valid() && x.ordinal() == EPOCH_ORDINAL + ts_ms as int
                / MS_PER_DAY as int,
    {
        utc_date(ts_ms)
    }

    /// The day so many days earlier, where the calendar has it.
    pub fn days_before(self, days: i64) -> (r: Option<Date>)
        requires
            self.valid(),
        ensures
            r is Some <==> first_ordinal() <= self.ordinal() - days <= last_ordinal(),
            r matches Some(x) ==> x.valid() && x.ordinal() == self.ordinal() - days,
    {
        minus_days(self, days)
    }

    /// Days from an earlier date to this one; negative from a later one.
    pub fn days_after(self, earlier: Date) -> (n: i64)
        requires
            self.valid(),
            earlier.valid(),
        ensures
            n == self.ordinal() - earlier.ordinal(),
    {
        days_since(self, earlier)
    }

    /// The date as `YYYY-MM-DD`.
    pub fn to_label(self) -> (s: String)
        requires
            self.valid(),
        ensures
            s@ == label(self),
    {
        match format_date(self) {
            Some(s) => s,
            None => "".to_owned(),
        }
    }
}

proof fn lemma_year_len(y: int)
    ensures
        days_before_year(y + 1) == days_before_year(y) + 365 + if leap(y) {
            1int
        } else {
            0
        },
{
    let p = y - 1;
    assert(y / 4 == p / 4 + if y % 4 == 0 { 1int } else { 0 });
    assert(y / 100 == p / 100 + if y % 100 == 0 { 1int } else { 0 });
    assert(y / 400 == p / 400 + if y % 400 == 0 { 1int } else { 0 });
    assert(y % 400 == 0 ==> y % 100 == 0);
    assert(y % 100 == 0 ==> y % 4 == 0);
}

proof fn lemma_years_monotone(a: int, b: int)
    requires
        a <= b,
    ensures
        days_before_year(b) >= days_before_year(a) + 365 * (b - a),
    decreases b - a,
{
    if a < b {
        lemma_years_monotone(a, b - 1);
        lemma_year_len(b - 1);
    }
}

proof fn lemma_month_within_year(y: int, m: int)
    requires
        1 <= m <= 12,
    ensures
        days_before_month(y, m) >= 0,
        days_before_month(y, m) + month_len(y, m) <= 365 + if leap(y) {
            1int
        } else {
            0
        },
        m == 12 ==> days_before_month(y, m) + 31 == 365 + if leap(y) {
            1int
        } else {
            0
        },
{
    reveal_with_fuel(days_before_month, 13);
}

proof fn lemma_months_monotone(y: int, a: int, b: int)
    requires
        1 <= a < b <= 12,
    ensures
        days_before_month(y, a) + month_len(y, a) <= days_before_month(y, b),
{
    reveal_with_fuel(days_before_month, 13);
}

/// Calendar order is day-number order, and a day number names one date.
pub proof fn ordinal_is_calendar_order(a: Date, b: Date)
    requires
        a.valid(),
        b.valid(),
    ensures
        a.precedes(b) <==> a.ordinal() < b.ordinal(),
        a == b <==> a.ordinal() == b.ordinal(),
{
    if a.precedes(b) {
        lemma_precedes_ordinal(a, b);
    } else if b.precedes(a) {
        lemma_precedes_ordinal(b, a);
    }
}

proof fn lemma_precedes_ordinal(a: Date, b: Date)
    requires
        a.valid(),
        b.valid(),
        a.precedes(b),
    ensures
        a.ordinal() < b.ordinal(),
{
    lemma_month_within_year(a.year as int, a.month as int);
    lemma_month_within_year(b.year as int, b.month as int);
    if a.year < b.year {
        lemma_years_monotone(a.year as int + 1, b.year as int);
        lemma_year_len(a.year as int);
    } else if a.month < b.month {
        lemma_months_monotone(a.year as int, a.month as int, b.month as int);
    }
}

/// The first day of the month after `d`'s.
pub open spec fn month_after(d: Date) -> Date {
    if d.month == 12 {
        Date { year: (d.year + 1) as i32, month: 1, day: 1 }
    } else {
        Date { year: d.year, month: (d.month + 1) as u32, day: 1 }
    }
}

/// The first day of the month before `d`'s.
pub open spec fn month_before(d: Date) -> Date {
    if d.month == 1 {
        Date { year: (d.year - 1) as i32, month: 12, day: 1 }
    } else {
        Date { year: d.year, month: (d.month - 1) as u32, day: 1 }
    }
}

pub open spec fn in_last_month(d: Date) -> bool {
    d.year == MAX_YEAR && d.month == 12
}

pub open spec fn in_first_month(d: Date) -> bool {
    d.year == MIN_YEAR && d.month == 1
}

/// The last day of `d`'s month.
pub open spec fn month_end(d: Date) -> Date {
    Date { year: d.year, month: d.month, day: month_len(d.year as int, d.month as int) as u32 }
}

/// The first day of a month follows the last day of the month before it.
pub proof fn month_after_follows_month_end(d: Date)
    requires
        d.valid(),
        !in_last_month(d),
    ensures
        month_end(d).valid(),
        month_after(d).valid(),
        month_after(d).ordinal() == month_end(d).ordinal() + 1,
        month_before(month_after(d)) == (Date { year: d.year, month: d.month, day: 1 }),
{
    lemma_month_within_year(d.year as int, d.month as int);
    if d.month == 12 {
        lemma_year_len(d.year as int);
    }
    reveal_with_fuel(days_before_month, 2);
}

/// First day of the next calendar month.
pub fn next_month_start(d: Date) -> (n: Date)
    requires
        d.valid(),
        !in_last_month(d),
    ensures
        n == month_after(d),
        n.valid(),
{
    let next = if d.month == 12 {
        from_ymd_opt(d.year + 1, 1, 1)
    } else {
        from_ymd_opt(d.year, d.month + 1, 1)
    };
    next.unwrap()
}

/// First day of the next calendar month.
pub fn next_month(d: Date) -> (n: Date)
    requires
        d.valid(),
        !in_last_month(d),
    ensures
        n == month_after(d),
        n.valid(),
{
    next_month_start(d)
}

/// First day of the previous calendar month.
pub fn prev_month(d: Date) -> (n: Date)
    requires
        d.valid(),
        !in_first_month(d),
    ensures
        n == month_before(d),
        n.valid(),
{
    let previous = if d.month == 1 {
        from_ymd_opt(d.year - 1, 12, 1)
    } else {
        from_ymd_opt(d.year, d.month - 1, 1)
    };
    previous.unwrap()
}

/// `windows` cut `[from, to]` into calendar months: they start at `from`, end at
/// `to`, follow one another day by day, and every inner cut is a month boundary.
pub open spec fn cut_by_month(windows: Seq<(Date, Date)>, from: Date, to: Date) -> bool {
    &&& to.precedes(from) <==> windows.len() == 0
    &&& forall|i: int|
        0 <= i < windows.len() ==> {
            let (start, end) = #[trigger] windows[i];
            &&& start.valid() && end.valid()
            &&& !end.precedes(start)
            &&& start.same_month(end)
            &&& start == if i == 0 {
                from
            } else {
                month_after(windows[i - 1].1)
            }
            &&& end == if i == windows.len() - 1 {
                to
            } else {
                month_end(start)
            }
        }
}

/// Splits `[from, to]`, both inclusive, into one window per calendar month.
pub fn month_windows(from: Date, to: Date) -> (windows: Vec<(Date, Date)>)
    requires
        from.valid(),
        to.valid(),
        !in_last_month(to),
    ensures
        cut_by_month(windows@, from, to),
{
    let mut out: Vec<(Date, Date)> = Vec::new();
    let mut cur = from;
    while !to.before(cur)
        invariant
            from.valid(),
            to.valid(),
            !in_last_month(to),
            cur.valid(),
            out.len() == 0 ==> cur == from,
            out.len() > 0 ==> cur == month_after(out@[out.len() - 1].1) && !to.precedes(from),
            to.precedes(cur) && out.len() > 0 ==> out@[out.len() - 1].1 == to,
            forall|i: int|
                0 <= i < out.len() ==> {
                    let (start, end) = #[trigger] out@[i];
                    &&& start.valid() && end.valid()
                    &&& !end.precedes(start)
                    &&& start.same_month(end)
                    &&& start == if i == 0 {
                        from
                    } else {
                        month_after(out@[i - 1].1)
                    }
                    &&& (i == out.len() - 1 && to.precedes(cur)) || end == month_end(start)
                },
        decreases
            if to.precedes(cur) {
                0
            } else {
                to.ordinal() - cur.ordinal() + 1
            },
    {
        let next = next_month_start(cur);
        proof {
            month_after_follows_month_end(cur);
            ordinal_is_calendar_order(cur, to);
            ordinal_is_calendar_order(cur, month_end(cur));
            ordinal_is_calendar_order(month_end(cur), to);
            ordinal_is_calendar_order(month_after(cur), to);
            lemma_days_fit(month_end(cur));
        }
        let last = match minus_days(next, 1) {
            Some(last) => last,
            None => next,
        };
        proof {
            ordinal_is_calendar_order(last, month_end(cur));
        }
        let end = last.earlier(to);
        let ghost before = out@;
        out.push((cur, end));
        proof {
            if to.precedes(month_after(cur)) {
                assert(end == to);
            } else {
                assert(month_end(cur).precedes(to));
                assert(end == month_end(cur));
            }
            assert(month_after(end) == next);
            assert forall|i: int| 0 <= i < out.len() implies {
                let (start, end) = #[trigger] out@[i];
                &&& start.valid() && end.valid()
                &&& !end.precedes(start)
                &&& start.same_month(end)
                &&& start == if i == 0 {
                    from
                } else {
                    month_after(out@[i - 1].1)
                }
                &&& (i == out.len() - 1 && to.precedes(next)) || end == month_end(start)
            } by {
                if i < before.len() {
                    assert(out@[i] == before[i]);
                }
            }
        }
        cur = next;
    }
    out
}

/// Month windows tile the range: each starts the day after the one before it
/// ends, and every day of the range lies in exactly one of them.
pub proof fn month_windows_tile(windows: Seq<(Date, Date)>, from: Date, to: Date, d: Date)
    requires
        from.valid(),
        to.valid(),
        d.valid(),
        cut_by_month(windows, from, to),
    ensures
        forall|i: int|
            0 < i < windows.len() ==> (#[trigger] windows[i]).0.ordinal() == windows[i - 1].1.ordinal()
                + 1,
        !d.precedes(from) && !to.precedes(d) <==> exists|i: int|
            0 <= i < windows.len() && day_in(d, #[trigger] windows[i]),
        forall|i: int, j: int|
            0 <= i < windows.len() && 0 <= j < windows.len() && day_in(d, #[trigger] windows[i])
                && day_in(d, #[trigger] windows[j]) ==> i == j,
{
    assert forall|i: int| 0 < i < windows.len() implies (#[trigger] windows[i]).0.ordinal()
        == windows[i - 1].1.ordinal() + 1 by {
        let (s0, e0) = windows[i - 1];
        ordinal_is_calendar_order(s0, e0);
        lemma_month_end(s0);
        assert(month_after(e0) == month_after(s0));
        month_after_follows_month_end_any(s0, windows[i].0);
    }
    ordinal_is_calendar_order(d, from);
    ordinal_is_calendar_order(to, d);
    assert forall|i: int| 0 <= i < windows.len() implies (day_in(d, #[trigger] windows[i]) <==> windows[i].0.ordinal()
        <= d.ordinal() <= windows[i].1.ordinal()) && windows[i].0.ordinal() <= windows[i].1.ordinal() by {
        let w = windows[i];
        ordinal_is_calendar_order(d, w.0);
        ordinal_is_calendar_order(w.1, d);
        ordinal_is_calendar_order(w.1, w.0);
    }
    assert forall|i: int, j: int| 0 <= i <= j < windows.len() implies (#[trigger] windows[i]).0.ordinal()
        <= (#[trigger] windows[j]).0.ordinal() && windows[i].1.ordinal() <= windows[j].1.ordinal() && (i < j
        ==> windows[i].1.ordinal() < windows[j].0.ordinal()) by {
        lemma_windows_ascend(windows, i, j);
    }
    if !d.precedes(from) && !to.precedes(d) {
        ordinal_is_calendar_order(to, from);
        assert(windows.len() > 0);
        lemma_window_of(windows, d, windows.len() - 1);
    } else if exists|i: int| 0 <= i < windows.len() && day_in(d, #[trigger] windows[i]) {
        let i = choose|i: int| 0 <= i < windows.len() && day_in(d, #[trigger] windows[i]);
        assert(windows[0].0.ordinal() <= windows[i].0.ordinal());
        assert(windows[i].1.ordinal() <= windows[windows.len() - 1].1.ordinal());
    }
}

/// `d` lies in the window, both ends counted.
pub open spec fn day_in(d: Date, w: (Date, Date)) -> bool {
    !d.precedes(w.0) && !w.1.precedes(d)
}

proof fn lemma_month_end(d: Date)
    requires
        d.valid(),
    ensures
        month_end(d).valid(),
        month_after(month_end(d)) == month_after(d),
        month_end(month_end(d)) == month_end(d),
{
}

proof fn month_after_follows_month_end_any(d: Date, next: Date)
    requires
        d.valid(),
        next.valid(),
        next == month_after(d),
    ensures
        next.ordinal() == month_end(d).ordinal() + 1,
{
    assert(!in_last_month(d));
    month_after_follows_month_end(d);
}

proof fn lemma_windows_ascend(windows: Seq<(Date, Date)>, i: int, j: int)
    requires
        0 <= i <= j < windows.len(),
        forall|k: int|
            0 < k < windows.len() ==> (#[trigger] windows[k]).0.ordinal() == windows[k - 1].1.ordinal()
                + 1,
        forall|k: int|
            0 <= k < windows.len() ==> (#[trigger] windows[k]).0.ordinal() <= windows[k].1.ordinal(),
    ensures
        windows[i].0.ordinal() <= windows[j].0.ordinal(),
        windows[i].1.ordinal() <= windows[j].1.ordinal(),
        i < j ==> windows[i].1.ordinal() < windows[j].0.ordinal(),
    decreases j - i,
{
    if i < j {
        lemma_windows_ascend(windows, i, j - 1);
        assert(windows[j].0.ordinal() == windows[j - 1].1.ordinal() + 1);
    }
}

proof fn lemma_window_of(windows: Seq<(Date, Date)>, d: Date, k: int)
    requires
        0 <= k < windows.len(),
        windows[0].0.ordinal() <= d.ordinal() <= windows[k].1.ordinal(),
        forall|k: int|
            0 < k < windows.len() ==> (#[trigger] windows[k]).0.ordinal() == windows[k - 1].1.ordinal()
                + 1,
        forall|i: int|
            0 <= i < windows.len() ==> (day_in(d, #[trigger] windows[i]) <==> windows[i].0.ordinal()
                <= d.ordinal() <= windows[i].1.ordinal()),
    ensures
        exists|i: int| 0 <= i < windows.len() && day_in(d, #[trigger] windows[i]),
    decreases k,
{
    if windows[k].0.ordinal() <= d.ordinal() {
        assert(day_in(d, windows[k]));
    } else {
        assert(windows[k].0.ordinal() == windows[k - 1].1.ordinal() + 1);
        lemma_window_of(windows, d, k - 1);
    }
}

/// The days of `[first, last]` that `present` lacks, ascending.
pub open spec fn lists_missing(
    missing: Seq<Date>,
    present: Seq<Date>,
    first: Date,
    last: Date,
) -> bool {
    &&& forall|i: int|
        0 <= i < missing.len() ==> {
            let d = #[trigger] missing[i];
            d.valid() && day_in(d, (first, last)) && !present.contains(d)
        }
    &&& forall|i: int, j: int|
        0 <= i < j < missing.len() ==> (#[trigger] missing[i]).precedes(#[trigger] missing[j])
    &&& forall|d: Date|
        d.valid() && day_in(d, (first, last)) && !present.contains(d) ==> #[trigger] missing.contains(d)
}

fn holds_date(dates: &Vec<Date>, d: Date) -> (b: bool)
    ensures
        b == dates@.contains(d),
{
    let mut i: usize = 0;
    while i < dates.len()
        invariant
            i <= dates.len(),
            forall|k: int| 0 <= k < i ==> dates@[k] != d,
        decreases dates.len() - i,
    {
        if dates[i] == d {
            assert(dates@[i as int] == d);
            return true;
        }
        i = i + 1;
    }
    false
}

/// Every day of `[first, last]` without an entry in `present`.
pub fn missing_dates(present: &Vec<Date>, first: Date, last: Date) -> (missing: Vec<Date>)
    requires
        first.valid(),
        last.valid(),
    ensures
        lists_missing(missing@, present@, first, last),
{
    let mut missing: Vec<Date> = Vec::new();
    let mut d = first;
    let mut more = !last.before(first);
    let ghost mut upto = first.ordinal();
    proof {
        ordinal_is_calendar_order(last, first);
        assert forall|x: Date| x.valid() && day_in(x, (first, last)) && x.ordinal() < upto
            && !present@.contains(x) implies #[trigger] missing@.contains(x) by {
            ordinal_is_calendar_order(x, first);
        }
    }
    while more
        invariant
            first.valid(),
            last.valid(),
            d.valid(),
            first.ordinal() <= d.ordinal(),
            more ==> upto == d.ordinal() && d.ordinal() <= last.ordinal(),
            !more ==> last.ordinal() < upto,
            forall|i: int|
                0 <= i < missing.len() ==> {
                    let x = #[trigger] missing@[i];
                    x.valid() && day_in(x, (first, last)) && !present@.contains(x) && x.ordinal()
                        < upto
                },
            forall|i: int, j: int|
                0 <= i < j < missing.len() ==> (#[trigger] missing@[i]).precedes(
                    #[trigger] missing@[j],
                ),
            forall|x: Date|
                x.valid() && day_in(x, (first, last)) && x.ordinal() < upto && !present@.contains(x)
                    ==> #[trigger] missing@.contains(x),
        decreases
            if more {
                last.ordinal() - d.ordinal() + 1
            } else {
                0
            },
    {
        let ghost before = missing@;
        let absent = !holds_date(present, d);
        proof {
            ordinal_is_calendar_order(last, d);
            ordinal_is_calendar_order(d, first);
            ordinal_is_calendar_order(d, last);
            lemma_days_fit(last);
            upto = upto + 1;
        }
        if absent {
            missing.push(d);
        }
        proof {
            assert forall|x: Date|
                x.valid() && day_in(x, (first, last)) && x.ordinal() < upto && !present@.contains(x)
                implies #[trigger] missing@.contains(x) by {
                ordinal_is_calendar_order(x, d);
                if x == d {
                    assert(missing@[before.len() as int] == d);
                } else {
                    assert(before.contains(x));
                    let k = choose|k: int| 0 <= k < before.len() && before[k] == x;
                    assert(missing@[k] == x);
                }
            }
            assert forall|i: int, j: int| 0 <= i < j < missing.len() implies (
            #[trigger] missing@[i]).precedes(#[trigger] missing@[j]) by {
                ordinal_is_calendar_order(missing@[i], d);
            }
        }
        if d == last {
            more = false;
        } else {
            match succ_opt(d) {
                Some(next) => {
                    d = next;
                },
                None => {
                    more = false;
                },
            }
        }
    }
    proof {
        assert forall|x: Date| x.valid() && day_in(x, (first, last)) && !present@.contains(x)
            implies #[trigger] missing@.contains(x) by {
            ordinal_is_calendar_order(last, x);
        }
    }
    missing
}

/// There is one list of the missing days.
pub proof fn missing_days_are_unique(
    a: Seq<Date>,
    b: Seq<Date>,
    present: Seq<Date>,
    first: Date,
    last: Date,
)
    requires
        lists_missing(a, present, first, last),
        lists_missing(b, present, first, last),
    ensures
        a == b,
{
    assert forall|k: int| 0 <= k < a.len() && k < b.len() implies a[k] == b[k] by {
        lemma_missing_agree(a, b, present, first, last, k);
    }
    lemma_missing_covered(a, b, present, first, last);
    lemma_missing_covered(b, a, present, first, last);
    assert(a =~= b);
}

proof fn lemma_missing_covered(
    a: Seq<Date>,
    b: Seq<Date>,
    present: Seq<Date>,
    first: Date,
    last: Date,
)
    requires
        lists_missing(a, present, first, last),
        lists_missing(b, present, first, last),
        forall|k: int| 0 <= k < a.len() && k < b.len() ==> a[k] == b[k],
    ensures
        a.len() <= b.len(),
{
    if a.len() > b.len() {
        let d = a[b.len() as int];
        assert(b.contains(d));
        let j = choose|j: int| 0 <= j < b.len() && b[j] == d;
        assert(a[j] == b[j]);
        assert(a[j].precedes(a[b.len() as int]));
    }
}

proof fn lemma_missing_agree(
    a: Seq<Date>,
    b: Seq<Date>,
    present: Seq<Date>,
    first: Date,
    last: Date,
    k: int,
)
    requires
        lists_missing(a, present, first, last),
        lists_missing(b, present, first, last),
        0 <= k < a.len(),
        k < b.len(),
    ensures
        a[k] == b[k],
    decreases k,
{
    assert forall|i: int| 0 <= i < k implies a[i] == b[i] by {
        lemma_missing_agree(a, b, present, first, last, i);
    }
    if a[k] != b[k] {
        assert(b.contains(a[k]) && a.contains(b[k]));
        let m = choose|m: int| 0 <= m < b.len() && b[m] == a[k];
        let l = choose|l: int| 0 <= l < a.len() && a[l] == b[k];
        if m < k {
            assert(a[m].precedes(a[k]));
        } else if l < k {
            assert(b[l].precedes(b[k]));
        } else {
            assert(b[k].precedes(b[m]));
            assert(a[k].precedes(a[l]));
        }
    }
}

pub proof fn lemma_days_fit(d: Date)
    requires
        d.valid(),
    ensures
        first_ordinal() <= d.ordinal() <= last_ordinal(),
        last_ordinal() - first_ordinal() < 200_000_000,
{
    reveal_with_fuel(days_before_month, 13);
    let lo = Date { year: MIN_YEAR, month: 1, day: 1 };
    let hi = Date { year: MAX_YEAR, month: 12, day: 31 };
    ordinal_is_calendar_order(lo, d);
    ordinal_is_calendar_order(d, hi);
}

} // verus!
