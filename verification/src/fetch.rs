//! Fetching history: which months an archive covers, and which rows of an answer
//! are usable.

use vstd::prelude::*;
use crate::calendar;
use crate::calendar::Date;
use crate::ieee::Double;
use crate::merge;
use crate::tally;
use crate::text;
use crate::yaml;
use crate::yaml::{Tree, Yaml};

verus! {

/// A probe asks about at most this many months in each direction.
pub const MAX_PROBE_MONTHS: usize = 72;

/// What a probe does next.
#[derive(Clone, Copy, Debug, PartialEq, Eq, Structural)]
pub enum ProbeStep {
    /// Ask whether the archive has this month.
    Ask { month: Date },
    Done { has_data: bool, first: Option<Date>, last: Option<Date> },
}

/// The month `k` months after `d`'s.
pub open spec fn months_later(d: Date, k: int) -> Date
    decreases k,
{
    if k <= 0 {
        Date { year: d.year, month: d.month, day: 1 }
    } else {
        calendar::month_after(months_later(d, k - 1))
    }
}

/// The month `k` months before `d`'s.
pub open spec fn months_earlier(d: Date, k: int) -> Date
    decreases k,
{
    if k <= 0 {
        Date { year: d.year, month: d.month, day: 1 }
    } else {
        calendar::month_before(months_earlier(d, k - 1))
    }
}

/// Position of the first `true` from `from` on; the length where there is none.
pub open spec fn first_true(answers: Seq<bool>, from: int) -> int
    decreases answers.len() - from,
{
    if from >= answers.len() {
        answers.len() as int
    } else if answers[from] {
        from
    } else {
        first_true(answers, from + 1)
    }
}

/// The probe walks forward from the first month of the window to the earliest
/// that the archive has, then back from the last month to the latest.
pub open spec fn step_of(from: Date, to: Date, answers: Seq<bool>) -> ProbeStep {
    let n = answers.len() as int;
    let f = first_true(answers, 0);
    let stop = months_later(to, 0);
    if f == n {
        if n < MAX_PROBE_MONTHS && !stop.precedes(months_later(from, n)) {
            ProbeStep::Ask { month: months_later(from, n) }
        } else {
            ProbeStep::Done { has_data: false, first: None, last: None }
        }
    } else {
        let first = months_later(from, f);
        let g = first_true(answers, f + 1);
        let back = n - (f + 1);
        if g < n {
            ProbeStep::Done {
                has_data: true,
                first: Some(first),
                last: Some(months_earlier(to, g - (f + 1))),
            }
        } else if back < MAX_PROBE_MONTHS && (back == 0 || !months_earlier(to, back).precedes(
            first,
        )) {
            ProbeStep::Ask { month: months_earlier(to, back) }
        } else {
            ProbeStep::Done { has_data: true, first: Some(first), last: None }
        }
    }
}

fn find_true(answers: &Vec<bool>, from: usize) -> (k: usize)
    requires
        from <= answers.len(),
    ensures
        k == first_true(answers@, from as int),
        from <= k <= answers.len(),
{
    let mut k: usize = from;
    while k < answers.len()
        invariant
            from <= k <= answers.len(),
            first_true(answers@, from as int) == first_true(answers@, k as int),
        decreases answers.len() - k,
    {
        if answers[k] {
            return k;
        }
        k = k + 1;
    }
    k
}

/// Months are numbered on from one another.
pub open spec fn month_number(d: Date) -> int {
    12 * d.year + d.month
}

pub open spec fn first_month() -> int {
    12 * calendar::MIN_YEAR + 1
}

pub open spec fn last_month() -> int {
    12 * calendar::MAX_YEAR + 12
}

/// Months back from the end of the window that the answers speak of.
pub open spec fn steps_back(answers: Seq<bool>) -> int {
    let f = first_true(answers, 0);
    if f < answers.len() {
        answers.len() - (f + 1)
    } else {
        0
    }
}

/// The walk that the answers record stays within the calendar.
pub open spec fn walk_in_range(from: Date, to: Date, answers: Seq<bool>) -> bool {
    month_number(from) + first_true(answers, 0) <= last_month() && month_number(to) - steps_back(
        answers,
    ) >= first_month()
}

proof fn lemma_months_later(d: Date, k: int)
    requires
        d.valid(),
        k >= 0,
        month_number(d) + k <= last_month(),
    ensures
        months_later(d, k).valid(),
        months_later(d, k).day == 1,
        month_number(months_later(d, k)) == month_number(d) + k,
        k > 0 ==> !calendar::in_last_month(months_later(d, k - 1)),
    decreases k,
{
    if k > 0 {
        lemma_months_later(d, k - 1);
    }
}

proof fn lemma_months_earlier(d: Date, k: int)
    requires
        d.valid(),
        k >= 0,
        month_number(d) - k >= first_month(),
    ensures
        months_earlier(d, k).valid(),
        months_earlier(d, k).day == 1,
        month_number(months_earlier(d, k)) == month_number(d) - k,
        k > 0 ==> !calendar::in_first_month(months_earlier(d, k - 1)),
    decreases k,
{
    if k > 0 {
        lemma_months_earlier(d, k - 1);
    }
}

fn later_month(d: Date, k: usize) -> (m: Date)
    requires
        d.valid(),
        month_number(d) + k <= last_month(),
    ensures
        m == months_later(d, k as int),
        m.valid(),
{
    let mut m = Date { year: d.year, month: d.month, day: 1 };
    let mut i: usize = 0;
    proof {
        lemma_months_later(d, 0);
    }
    while i < k
        invariant
            i <= k,
            d.valid(),
            month_number(d) + k <= last_month(),
            m == months_later(d, i as int),
            m.valid(),
        decreases k - i,
    {
        proof {
            lemma_months_later(d, i + 1);
        }
        m = calendar::next_month(m);
        i = i + 1;
    }
    m
}

fn earlier_month(d: Date, k: usize) -> (m: Date)
    requires
        d.valid(),
        month_number(d) - k >= first_month(),
    ensures
        m == months_earlier(d, k as int),
        m.valid(),
{
    let mut m = Date { year: d.year, month: d.month, day: 1 };
    let mut i: usize = 0;
    proof {
        lemma_months_earlier(d, 0);
    }
    while i < k
        invariant
            i <= k,
            d.valid(),
            month_number(d) - k >= first_month(),
            m == months_earlier(d, i as int),
            m.valid(),
        decreases k - i,
    {
        proof {
            lemma_months_earlier(d, i + 1);
        }
        m = calendar::prev_month(m);
        i = i + 1;
    }
    m
}

/// The next step of a probe over `[from, to]`, given the answers so far. An
/// archive that cannot be probed counts as covered, without dates.
pub fn probe_step(from: Date, to: Date, probeable: bool, answers: &Vec<bool>) -> (s: ProbeStep)
    requires
        from.valid(),
        to.valid(),
        probeable ==> walk_in_range(from, to, answers@),
    ensures
        s == if !probeable && !months_later(to, 0).precedes(months_later(from, 0)) {
            ProbeStep::Done { has_data: true, first: None, last: None }
        } else if !probeable {
            ProbeStep::Done { has_data: false, first: None, last: None }
        } else {
            step_of(from, to, answers@)
        },
{
    let stop = later_month(to, 0);
    if !probeable {
        let start = later_month(from, 0);
        return ProbeStep::Done { has_data: !stop.before(start), first: None, last: None };
    }
    let n: usize = answers.len();
    let f: usize = find_true(answers, 0);
    if f == n {
        let month = later_month(from, n);
        if n < MAX_PROBE_MONTHS && !stop.before(month) {
            return ProbeStep::Ask { month };
        }
        return ProbeStep::Done { has_data: false, first: None, last: None };
    }
    let first = later_month(from, f);
    let g: usize = find_true(answers, f + 1);
    let back: usize = n - (f + 1);
    if g < n {
        let last = earlier_month(to, g - (f + 1));
        return ProbeStep::Done { has_data: true, first: Some(first), last: Some(last) };
    }
    let month = earlier_month(to, back);
    if back < MAX_PROBE_MONTHS && (back == 0 || !month.before(first)) {
        ProbeStep::Ask { month }
    } else {
        ProbeStep::Done { has_data: true, first: Some(first), last: None }
    }
}

/// A year in at least four characters, with zeros in front and a sign where it is
/// negative.
pub open spec fn year_text(year: i32) -> Seq<char> {
    if year < 0 {
        "-"@ + calendar::padded(-year, 3)
    } else {
        calendar::padded(year as int, 4)
    }
}

/// Exchanges whose archives can be asked for a month.
pub open spec fn has_months(exchange: Seq<char>) -> bool {
    exchange == "binance"@ || exchange == "bybit"@
}

/// Where an exchange keeps its months: what stands under its name in the exchanges of a
/// configuration, then under `archive_url_template` and `probe`, where that is a text
/// and not empty.
pub open spec fn listed_template(t: Tree, exchange: Seq<char>) -> Option<Seq<char>> {
    let place = match merge::exchanges_in(t) {
        Some(all) => match yaml::under(all, exchange) {
            Some(own) => match yaml::under(own, "archive_url_template"@) {
                Some(templates) => yaml::under(templates, "probe"@),
                None => None,
            },
            None => None,
        },
        None => None,
    };
    match place {
        Some(Tree::Text(s)) => if has_months(exchange) && s.len() > 0 {
            Some(s)
        } else {
            None
        },
        _ => None,
    }
}

/// A text that may be missing.
pub open spec fn said(s: Option<String>) -> Option<Seq<char>> {
    match s {
        Some(s) => Some(s@),
        None => None,
    }
}

/// Where an exchange keeps its months, with places for the symbol and the date.
pub fn template_in(doc: &Yaml, exchange: &str) -> (s: Option<String>)
    ensures
        said(s) == listed_template(yaml::tree(*doc), exchange@),
{
    let cexs = yaml::find(doc, "cexs")?;
    let all = yaml::find(cexs, "exchanges")?;
    let own = yaml::find(all, exchange)?;
    let templates = yaml::find(own, "archive_url_template")?;
    let place = yaml::find(templates, "probe")?;
    match place {
        Yaml::Text(s) => if (text::same(exchange, "binance") || text::same(exchange, "bybit"))
            && s.as_str().unicode_len() > 0 {
            Some(s.as_str().to_owned())
        } else {
            None
        },
        _ => None,
    }
}

/// Where an exchange keeps its months, from the text of a configuration.
pub fn probe_template(config: &str, exchange: &str) -> (s: Option<String>)
    ensures
        said(s) == match yaml::yaml_tree(config@) {
            Some(t) => listed_template(t, exchange@),
            None => None,
        },
{
    match yaml::parse_yaml(config) {
        Some(doc) => template_in(&doc, exchange),
        None => None,
    }
}

/// The address of a month's archive: a template with its symbol, year and month
/// filled in.
pub open spec fn address(template: Seq<char>, symbol: Seq<char>, month: Date) -> Seq<char> {
    text::replaced(
        text::replaced(
            text::replaced(template, "{sym}"@, symbol),
            "{y:04}"@,
            year_text(month.year),
        ),
        "{m:02}"@,
        calendar::padded(month.month as int, 2),
    )
}

/// The address of a month's archive: a template with its symbol, year and month
/// filled in.
pub fn archive_address(template: &str, symbol: &str, month: Date) -> (url: String)
    ensures
        url@ == address(template@, symbol@, month),
{
    proof {
        reveal_strlit("{sym}");
        reveal_strlit("{y:04}");
        reveal_strlit("{m:02}");
    }
    let year = if month.year < 0 {
        let mut s: String = "-".to_owned();
        s.append(calendar::pad((-(month.year as i64)) as u64, 3).as_str());
        s
    } else {
        calendar::pad(month.year as u64, 4)
    };
    let named = text::replace(template, "{sym}", symbol);
    let dated = text::replace(named.as_str(), "{y:04}", year.as_str());
    text::replace(dated.as_str(), "{m:02}", calendar::pad(month.month as u64, 2).as_str())
}

/// The month that answer `i` is about.
pub open spec fn asked(from: Date, to: Date, answers: Seq<bool>, i: int) -> Date {
    let f = first_true(answers, 0);
    if i <= f {
        months_later(from, i)
    } else {
        months_earlier(to, i - (f + 1))
    }
}

/// A finished probe tells the truth: with answers true to the archive, `first`
/// is covered and no earlier month of the walk is, and `last` is covered and no
/// later month of the walk is.
pub proof fn probe_finds_first_and_last(
    from: Date,
    to: Date,
    answers: Seq<bool>,
    covered: spec_fn(Date) -> bool,
)
    requires
        forall|i: int| 0 <= i < answers.len() ==> #[trigger] answers[i] == covered(asked(from, to, answers, i)),
    ensures
        step_of(from, to, answers) matches ProbeStep::Done { has_data, first, last } ==> {
            let f = first_true(answers, 0);
            &&& has_data <==> first is Some
            &&& first matches Some(d) ==> d == months_later(from, f) && covered(d) && forall|k: int|
                0 <= k < f ==> !covered(#[trigger] months_later(from, k))
            &&& last matches Some(d) ==> exists|b: int|
                #![trigger months_earlier(to, b)]
                0 <= b && d == months_earlier(to, b) && covered(d) && forall|k: int|
                    0 <= k < b ==> !covered(#[trigger] months_earlier(to, k))
        },
{
    let n = answers.len() as int;
    let f = first_true(answers, 0);
    lemma_first_true(answers, 0);
    if f < n {
        assert(answers[f] == covered(asked(from, to, answers, f)));
        assert forall|k: int| 0 <= k < f implies !covered(#[trigger] months_later(from, k)) by {
            assert(answers[k] == covered(asked(from, to, answers, k)));
        }
        lemma_first_true(answers, f + 1);
        let g = first_true(answers, f + 1);
        if g < n {
            let b = g - (f + 1);
            assert(answers[g] == covered(asked(from, to, answers, g)));
            assert forall|k: int| 0 <= k < b implies !covered(#[trigger] months_earlier(to, k)) by {
                assert(answers[f + 1 + k] == covered(asked(from, to, answers, f + 1 + k)));
            }
            assert(months_earlier(to, b) == months_earlier(to, b));
        }
    }
}

/// A probe gives up only at the end: without data only once no month asked about was
/// covered and the window or the limit was passed; without a last month only once none
/// was covered on the way back and the first month or the limit was passed. Until that
/// it asks about the next month of its walk.
pub proof fn probes_give_up_only_at_the_end(from: Date, to: Date, answers: Seq<bool>)
    ensures
        ({
            let n = answers.len() as int;
            let none = forall|i: int| 0 <= i < n ==> !(#[trigger] answers[i]);
            let f = first_true(answers, 0);
            let back = n - (f + 1);
            &&& none <==> f == n
            &&& step_of(from, to, answers) matches ProbeStep::Done { has_data, first, last } ==> {
                &&& !has_data ==> none && (n >= MAX_PROBE_MONTHS || months_later(to, 0).precedes(
                    months_later(from, n),
                ))
                &&& has_data ==> f < n && answers[f]
                &&& has_data && last is None ==> (forall|i: int| f < i < n ==> !(
                #[trigger] answers[i])) && (back >= MAX_PROBE_MONTHS || (back > 0 && months_earlier(
                    to,
                    back,
                ).precedes(months_later(from, f))))
            }
            &&& step_of(from, to, answers) matches ProbeStep::Ask { month } ==> {
                &&& none ==> month == months_later(from, n) && n < MAX_PROBE_MONTHS
                &&& !none ==> month == months_earlier(to, back) && back < MAX_PROBE_MONTHS && (
                forall|i: int| f < i < n ==> !(#[trigger] answers[i]))
            }
        }),
{
    let n = answers.len() as int;
    lemma_first_true(answers, 0);
    let f = first_true(answers, 0);
    if f < n {
        assert(answers[f]);
        lemma_first_true(answers, f + 1);
    }
}

proof fn lemma_first_true(answers: Seq<bool>, from: int)
    requires
        0 <= from <= answers.len(),
    ensures
        from <= first_true(answers, from) <= answers.len(),
        first_true(answers, from) < answers.len() ==> answers[first_true(answers, from)],
        forall|k: int| from <= k < first_true(answers, from) ==> !(#[trigger] answers[k]),
    decreases answers.len() - from,
{
    if from < answers.len() && !answers[from] {
        lemma_first_true(answers, from + 1);
    }
}

/// `SystemTime::elapsed` of the Unix epoch, in seconds; nothing when the clock
/// stands before it. The time is whatever the machine says: nothing is claimed.
#[verifier::external_body]
fn clock_secs() -> (s: Option<u64>) {
    std::time::UNIX_EPOCH.elapsed().ok().map(|d| d.as_secs())
}

/// Seconds since the epoch as a signed number; 0 for a clock before the epoch.
pub open spec fn seconds_of(elapsed: Option<u64>) -> i64 {
    match elapsed {
        Some(e) => e as i64,
        None => 0,
    }
}

/// Seconds since the epoch as a signed number; 0 for a clock before the epoch.
pub fn unix_seconds(elapsed: Option<u64>) -> (s: i64)
    ensures
        s == seconds_of(elapsed),
{
    match elapsed {
        Some(e) => e as i64,
        None => 0,
    }
}

/// The time now, in seconds since the epoch: [`unix_seconds`] of what the clock
/// says. Which time that is, is the machine's to say.
pub fn now_unix() -> (s: i64) {
    let elapsed = clock_secs();
    unix_seconds(elapsed)
}

/// Thirty days.
pub const DEFAULT_HISTORY_SECS: i64 = 2_592_000;

/// The window of a history request: it ends now and starts thirty days before,
/// unless told otherwise.
pub fn history_window(from: Option<i64>, to: Option<i64>, now: i64) -> (w: (i64, i64))
    requires
        from is None ==> (match to {
            Some(t) => t,
            None => now,
        }) >= i64::MIN + DEFAULT_HISTORY_SECS,
    ensures
        w.1 == match to {
            Some(t) => t,
            None => now,
        },
        w.0 == match from {
            Some(f) => f as int,
            None => w.1 - DEFAULT_HISTORY_SECS,
        },
{
    let end: i64 = match to {
        Some(t) => t,
        None => now,
    };
    let start: i64 = match from {
        Some(f) => f,
        None => end - DEFAULT_HISTORY_SECS,
    };
    (start, end)
}

/// How a history answer is taken.
#[derive(Debug)]
pub enum HistoryPlan {
    /// The service reports a failure.
    BadStatus,
    /// No rows: nothing to write.
    Empty,
    /// Times and closes do not pair up.
    Mismatch,
    /// No row has a usable close.
    AllCorrupt,
    /// Positions of the usable rows, with their time in milliseconds.
    Rows(Vec<(usize, i64)>),
}

/// A close that is a price. A corrupt row is passed over, never repaired.
pub open spec fn has_price(closes: Seq<Double>) -> spec_fn(int) -> bool {
    |i: int| closes[i].finite() && closes[i].positive()
}

pub open spec fn usable_rows(t: Seq<i64>, closes: Seq<Double>, n: int) -> Seq<(usize, i64)> {
    tally::hits(n, has_price(closes)).map_values(|i: int| (i as usize, (t[i] * 1000) as i64))
}

/// A row of a history is taken exactly if its close is a finite number above zero, with
/// its time in milliseconds.
pub proof fn priced_rows_are_taken(t: Seq<i64>, closes: Seq<Double>, n: int, i: int)
    requires
        0 <= i < n <= usize::MAX,
        i64::MIN <= t[i] * 1000 <= i64::MAX,
    ensures
        usable_rows(t, closes, n).contains((i as usize, (t[i] * 1000) as i64)) <==> closes[i].finite()
            && closes[i].positive(),
{
    let p = has_price(closes);
    tally::lemma_hits(n, p);
    let h = tally::hits(n, p);
    let rows = usable_rows(t, closes, n);
    let x = (i as usize, (t[i] * 1000) as i64);
    if p(i) {
        assert(h.contains(i));
        let k = choose|k: int| 0 <= k < h.len() && h[k] == i;
        assert(rows[k] == x);
    }
    if rows.contains(x) {
        let k = choose|k: int| 0 <= k < rows.len() && rows[k] == x;
        assert(0 <= h[k] < n && p(h[k]));
        assert(h[k] == i);
    }
}

/// Reads a history answer: times in seconds and closes.
pub fn plan_history(status_ok: bool, t: &Vec<i64>, closes: &Vec<Double>) -> (p: HistoryPlan)
    requires
        forall|i: int| 0 <= i < t.len() ==> i64::MIN <= (#[trigger] t@[i]) * 1000 <= i64::MAX,
    ensures
        match p {
            HistoryPlan::BadStatus => !status_ok,
            HistoryPlan::Empty => status_ok && t.len() == 0,
            HistoryPlan::Mismatch => status_ok && t.len() > 0 && t.len() != closes.len(),
            HistoryPlan::AllCorrupt => status_ok && t.len() > 0 && t.len() == closes.len()
                && usable_rows(t@, closes@, t.len() as int).len() == 0,
            HistoryPlan::Rows(rows) => status_ok && t.len() > 0 && t.len() == closes.len()
                && rows@ == usable_rows(t@, closes@, t.len() as int) && rows.len() > 0,
        },
{
    if !status_ok {
        return HistoryPlan::BadStatus;
    }
    if t.len() == 0 {
        return HistoryPlan::Empty;
    }
    if t.len() != closes.len() {
        return HistoryPlan::Mismatch;
    }
    let mut rows: Vec<(usize, i64)> = Vec::new();
    assert(usable_rows(t@, closes@, 0) =~= Seq::<(usize, i64)>::empty());
    let mut i: usize = 0;
    while i < t.len()
        invariant
            i <= t.len(),
            t.len() == closes.len(),
            forall|k: int| 0 <= k < t.len() ==> i64::MIN <= (#[trigger] t@[k]) * 1000 <= i64::MAX,
            rows@ == usable_rows(t@, closes@, i as int),
        decreases t.len() - i,
    {
        let ghost was = rows@;
        let secs: i64 = t[i];
        assert(i64::MIN <= t@[i as int] * 1000 <= i64::MAX);
        if closes[i].is_finite() && closes[i].is_positive() {
            rows.push((i, secs * 1000));
            assert(usable_rows(t@, closes@, i + 1) =~= was.push((i, (secs * 1000) as i64)));
        } else {
            assert(usable_rows(t@, closes@, i + 1) =~= was);
        }
        i = i + 1;
    }
    if rows.len() == 0 {
        HistoryPlan::AllCorrupt
    } else {
        HistoryPlan::Rows(rows)
    }
}

/// Tasks that ended well, and tasks that did not.
pub open spec fn succeeded(results: Seq<bool>) -> spec_fn(int) -> bool {
    |i: int| results[i]
}

/// Counts the fetches that ended well and those that failed.
pub fn count_fetches(results: &Vec<bool>) -> (c: (usize, usize))
    ensures
        c.0 == tally::count(results.len() as int, succeeded(results@)),
        c.0 + c.1 == results.len(),
{
    let mut good: usize = 0;
    let mut i: usize = 0;
    while i < results.len()
        invariant
            i <= results.len(),
            good == tally::count(i as int, succeeded(results@)),
            good <= i,
        decreases results.len() - i,
    {
        if results[i] {
            good = good + 1;
        }
        i = i + 1;
    }
    (good, results.len() - good)
}

} // verus!
