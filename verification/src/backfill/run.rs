//! The course of one ticker through its backfill.
//!
//! A [`Run`] says what to do next ([`Phase`]) and takes what came of it
//! ([`Event`]); it collects the reports of the steps and decides how the ticker
//! ended. Raw ticks are fetched and folded one month at a time, and swept
//! before the next month.

use vstd::prelude::*;
use crate::text;
use crate::backfill::steps;
use crate::backfill::steps::{Status, Step, StepReport};

verus! {

/// The steps that are wanted.
#[derive(Clone, Copy, Debug)]
pub struct Wanted {
    pub fetch: bool,
    pub t2i: bool,
    pub merge: bool,
    pub s10: bool,
    pub renko: bool,
    pub validate: bool,
}

/// How a ticker is to be run.
#[derive(Clone, Copy, Debug)]
pub struct Plan {
    pub wanted: Wanted,
    /// Steps whose output is complete are skipped.
    pub resume: bool,
    /// Raw ticks and per-exchange indexes are kept.
    pub keep_staging: bool,
    /// Exchanges are not probed for coverage.
    pub skip_probe: bool,
}

/// What to do next.
#[derive(Clone, Copy, Debug, PartialEq, Eq, Structural)]
pub enum Phase {
    /// Ask the exchanges whether they cover the ticker.
    Probe,
    /// See whether every per-exchange index is there and clean.
    CheckFolded,
    /// Remove what raw ticks a previous run left.
    SweepLeftovers,
    /// Remove per-exchange indexes, so that months are folded from empty.
    DropStale,
    /// Fetch a month of raw ticks.
    Fetch { month: usize },
    /// Fold a month of raw ticks into the per-exchange indexes.
    Fold { month: usize },
    /// Remove a month's raw ticks; a failure ends the months there.
    Sweep { month: usize, failed: bool },
    /// Take the sizes of the per-exchange indexes.
    SizeFolded { failed: bool },
    /// Remove the staging of a ticker that failed.
    CleanupFailed,
    CheckMerge,
    Merge,
    /// Check the merged shards.
    MergedShards,
    /// Remove the staging of a ticker whose composite is built.
    CleanupMerged,
    CheckS10,
    S10,
    CheckRenko,
    Renko,
    IdxShards,
    S10Shards,
    RenkoShards,
    /// Check the volatility file, if there is one.
    Vol,
    Done { status: Status },
}

/// What came of a phase.
#[derive(Debug)]
pub enum Event {
    /// The exchanges that cover the ticker.
    Probed { active: Vec<String> },
    /// Whether every per-exchange index is clean, and their sizes.
    Folded { clean: bool, sizes: Vec<u64> },
    Performed,
    /// A process ran, or a group of checks.
    Ran { report: StepReport },
    /// The folding of a month, by exchange.
    FoldedMonth { reports: Vec<StepReport> },
    /// Bytes freed.
    Freed { bytes: u64 },
    /// Sizes of the per-exchange indexes.
    Sized { sizes: Vec<u64> },
    /// Whether a step's output is complete, and its size.
    Output { complete: bool, bytes: u64 },
    /// There is no file to check.
    NoFile,
}

/// A run, as mathematical values.
pub struct Course {
    pub plan: Plan,
    /// Labels of the months' first days.
    pub months: Seq<Seq<char>>,
    pub exchanges: Seq<Seq<char>>,
    pub phase: Phase,
    pub steps: Seq<Step>,
    /// No exchange covers the ticker.
    pub uncovered: bool,
    pub fetch_ms: int,
    pub fetch_errors: Seq<Seq<char>>,
    /// Time spent on folding, by exchange.
    pub folds: Seq<(Seq<char>, int)>,
    pub fold_errors: Seq<Seq<char>>,
    pub freed: int,
}

// What comes after each part of the course.

/// How a ticker ended that went through all its steps: failed with any of them,
/// skipped with all of them.
#[verifier::opaque]
pub open spec fn ended(s: Seq<Step>) -> Status {
    if exists|i: int| 0 <= i < s.len() && steps::failed(#[trigger] s[i]) {
        Status::Failed
    } else if s.len() > 0 && forall|i: int| 0 <= i < s.len() ==> (#[trigger] s[i]).skipped {
        Status::Skipped
    } else {
        Status::Completed
    }
}

pub open spec fn finish(plan: Plan, s: Seq<Step>) -> Phase {
    Phase::Done { status: ended(s) }
}

#[verifier::opaque]
pub open spec fn to_validate(plan: Plan, s: Seq<Step>) -> Phase {
    if !plan.wanted.validate {
        finish(plan, s)
    } else if plan.wanted.merge {
        Phase::S10Shards
    } else {
        Phase::IdxShards
    }
}

#[verifier::opaque]
pub open spec fn to_renko(plan: Plan, s: Seq<Step>) -> Phase {
    if !plan.wanted.renko {
        to_validate(plan, s)
    } else if plan.resume {
        Phase::CheckRenko
    } else {
        Phase::Renko
    }
}

#[verifier::opaque]
pub open spec fn to_s10(plan: Plan, s: Seq<Step>) -> Phase {
    if !plan.wanted.s10 {
        to_renko(plan, s)
    } else if plan.resume {
        Phase::CheckS10
    } else {
        Phase::S10
    }
}

#[verifier::opaque]
pub open spec fn to_merge(plan: Plan, s: Seq<Step>) -> Phase {
    if !plan.wanted.merge {
        to_s10(plan, s)
    } else if plan.resume {
        Phase::CheckMerge
    } else {
        Phase::Merge
    }
}

pub open spec fn to_month(c: Course, month: int) -> Phase {
    if month >= c.months.len() {
        Phase::SizeFolded { failed: false }
    } else if c.plan.wanted.fetch {
        Phase::Fetch { month: month as usize }
    } else {
        Phase::Fold { month: month as usize }
    }
}

pub open spec fn to_fresh(c: Course) -> Phase {
    if c.plan.wanted.t2i {
        Phase::DropStale
    } else {
        to_month(c, 0)
    }
}

pub open spec fn to_fold(c: Course) -> Phase {
    if !(c.plan.wanted.fetch || c.plan.wanted.t2i) {
        to_merge(c.plan, c.steps)
    } else if c.plan.resume && c.plan.wanted.t2i && c.exchanges.len() > 0 {
        Phase::CheckFolded
    } else {
        to_fresh(c)
    }
}

/// Where a failed ticker goes: its staging is removed, unless it is to be kept.
pub open spec fn abort(c: Course) -> Phase {
    if c.plan.keep_staging {
        Phase::Done { status: Status::Failed }
    } else {
        Phase::CleanupFailed
    }
}

pub open spec fn at(c: Course, phase: Phase) -> Course {
    Course { phase, ..c }
}

/// The course with one more report, under a name.
pub open spec fn with_step(c: Course, name: Seq<char>, s: Step) -> Course {
    Course { steps: c.steps.push(Step { name, ..s }), ..c }
}

/// The report of a step whose output was complete.
pub open spec fn skipped_step(name: Seq<char>, bytes: int) -> Step {
    Step {
        name,
        duration_ms: 0,
        exit_code: 0,
        bytes,
        skipped: true,
        errors: Seq::empty(),
    }
}

pub open spec fn fold_name(exchange: Seq<char>) -> Seq<char> {
    "ticks-to-idx["@ + exchange + "]"@
}

pub open spec fn tag(exchange: Seq<char>) -> Seq<char> {
    "["@ + exchange + "]"@
}

/// The reports of per-exchange indexes that were clean.
pub open spec fn clean_folds(exchanges: Seq<Seq<char>>, bytes: Seq<u64>) -> Seq<Step> {
    Seq::new(exchanges.len(), |i: int| skipped_step(fold_name(exchanges[i]), bytes[i] as int))
}

pub open spec fn fetch_message(month: Seq<char>, code: int) -> Seq<char> {
    month + ": monthly fetch exit "@ + text::signed_decimal(code)
}

pub open spec fn fold_message(month: Seq<char>, exchange: Seq<char>, code: int) -> Seq<char> {
    month + " "@ + tag(exchange) + ": t2i exit "@ + text::signed_decimal(code)
}

/// The errors of a month's folding, of the first `n` exchanges.
pub open spec fn month_errors(
    month: Seq<char>,
    exchanges: Seq<Seq<char>>,
    reports: Seq<Step>,
    n: int,
) -> Seq<Seq<char>>
    decreases n,
{
    if n <= 0 {
        Seq::empty()
    } else {
        let head = month_errors(month, exchanges, reports, n - 1);
        let r = reports[n - 1];
        if r.exit_code != 0 {
            head.push(fold_message(month, exchanges[n - 1], r.exit_code)) + r.errors
        } else {
            head
        }
    }
}

pub open spec fn any_nonzero(reports: Seq<Step>) -> bool {
    exists|i: int| 0 <= i < reports.len() && (#[trigger] reports[i]).exit_code != 0
}

/// Time spent on an exchange.
pub open spec fn spent(folds: Seq<(Seq<char>, int)>, exchange: Seq<char>) -> int
    decreases folds.len(),
{
    if folds.len() == 0 {
        0
    } else {
        spent(folds.drop_last(), exchange) + if folds.last().0 == exchange {
            folds.last().1
        } else {
            0
        }
    }
}

/// An exchange is blamed when some error of the folding names it.
pub open spec fn blamed(errors: Seq<Seq<char>>, exchange: Seq<char>) -> bool {
    exists|i: int| 0 <= i < errors.len() && text::occurs(tag(exchange), #[trigger] errors[i])
}

/// The report of all months' fetching.
pub open spec fn fetch_step(c: Course, failed: bool) -> Step {
    Step {
        name: "fetch-crypto-history[monthly]"@,
        duration_ms: c.fetch_ms,
        exit_code: if failed && c.fetch_errors.len() > 0 {
            -1
        } else {
            0
        },
        bytes: c.freed,
        skipped: false,
        errors: c.fetch_errors,
    }
}

/// The report of all months' folding on an exchange.
pub open spec fn fold_step(c: Course, exchange: Seq<char>, bytes: int) -> Step {
    Step {
        name: fold_name(exchange),
        duration_ms: spent(c.folds, exchange),
        exit_code: if blamed(c.fold_errors, exchange) {
            1
        } else {
            0
        },
        bytes,
        skipped: false,
        errors: Seq::empty(),
    }
}

/// The reports of all months.
pub open spec fn month_steps(c: Course, failed: bool, bytes: Seq<u64>) -> Seq<Step> {
    let fetched = if c.plan.wanted.fetch {
        seq![fetch_step(c, failed)]
    } else {
        Seq::empty()
    };
    let folded = if c.plan.wanted.t2i {
        Seq::new(c.exchanges.len(), |i: int| fold_step(c, c.exchanges[i], bytes[i] as int))
    } else {
        Seq::empty()
    };
    fetched + folded
}

/// The course after a month was fetched. A process that could not run ends the
/// months; any other failure is noted, since an exchange may lack a month.
pub open spec fn fetched(c: Course, month: int, s: Step) -> Course {
    let timed = Course { fetch_ms: c.fetch_ms + s.duration_ms, ..c };
    if s.exit_code == -1 {
        Course {
            fetch_errors: c.fetch_errors + s.errors,
            phase: Phase::SizeFolded { failed: true },
            ..timed
        }
    } else {
        Course {
            fetch_errors: if s.exit_code != 0 {
                c.fetch_errors.push(fetch_message(c.months[month], s.exit_code))
            } else {
                c.fetch_errors
            },
            phase: if c.plan.wanted.t2i {
                Phase::Fold { month: month as usize }
            } else {
                Phase::Sweep { month: month as usize, failed: false }
            },
            ..timed
        }
    }
}

/// The course after a month was folded. A failure on any exchange ends the
/// months once the raw ticks are swept.
pub open spec fn folded(c: Course, month: int, reports: Seq<Step>) -> Course {
    Course {
        folds: c.folds + Seq::new(
            reports.len(),
            |i: int| (c.exchanges[i], reports[i].duration_ms),
        ),
        fold_errors: c.fold_errors + month_errors(
            c.months[month],
            c.exchanges,
            reports,
            reports.len() as int,
        ),
        phase: Phase::Sweep { month: month as usize, failed: any_nonzero(reports) },
        ..c
    }
}

/// The course after a step that decides over the ticker.
pub open spec fn decided(c: Course, name: Seq<char>, s: Step, then: Phase) -> Course {
    let d = with_step(c, name, s);
    if s.exit_code != 0 {
        at(d, abort(d))
    } else {
        at(d, then)
    }
}

/// A phase of the months.
pub open spec fn early(p: Phase) -> bool {
    p is Probe || p is CheckFolded || p is SweepLeftovers || p is DropStale || p is Fetch
        || p is Fold || p is Sweep || p is SizeFolded
}

/// What follows an event.
pub open spec fn next(c: Course, e: Event) -> Course {
    if early(c.phase) {
        next_early(c, e)
    } else {
        next_late(c, e)
    }
}

/// What follows an event, up to the last month.
pub open spec fn next_early(c: Course, e: Event) -> Course {
    match (c.phase, e) {
        (Phase::Probe, Event::Probed { active }) => if active@.len() == 0 {
            Course { uncovered: true, phase: Phase::Done { status: Status::Skipped }, ..c }
        } else {
            let d = Course { exchanges: text::texts(active@), ..c };
            at(d, to_fold(d))
        },
        (Phase::CheckFolded, Event::Folded { clean, sizes }) => if clean {
            Course {
                steps: c.steps + clean_folds(c.exchanges, sizes@),
                phase: Phase::SweepLeftovers,
                ..c
            }
        } else {
            at(c, to_fresh(c))
        },
        (Phase::SweepLeftovers, Event::Performed) => at(c, to_merge(c.plan, c.steps)),
        (Phase::DropStale, Event::Performed) => at(c, to_month(c, 0)),
        (Phase::Fetch { month }, Event::Ran { report }) => fetched(c, month as int, report@),
        (Phase::Fold { month }, Event::FoldedMonth { reports }) => folded(
            c,
            month as int,
            steps::reports(reports@),
        ),
        (Phase::Sweep { month, failed }, Event::Freed { bytes }) => {
            let d = Course { freed: c.freed + bytes, ..c };
            at(
                d,
                if failed {
                    Phase::SizeFolded { failed: true }
                } else {
                    to_month(d, month + 1)
                },
            )
        },
        (Phase::SizeFolded { failed }, Event::Sized { sizes }) => {
            let d = Course { steps: c.steps + month_steps(c, failed, sizes@), ..c };
            at(
                d,
                if failed {
                    abort(d)
                } else {
                    to_merge(d.plan, d.steps)
                },
            )
        },
        _ => c,
    }
}

/// What follows an event, from the merge on.
pub open spec fn next_late(c: Course, e: Event) -> Course {
    match (c.phase, e) {
        (Phase::CleanupFailed, Event::Ran { report }) => at(
            with_step(c, "cleanup-staging"@, report@),
            Phase::Done { status: Status::Failed },
        ),
        (Phase::CheckMerge, Event::Output { complete, bytes }) => if complete {
            at(
                with_step(c, "merge-idx"@, skipped_step("merge-idx"@, bytes as int)),
                Phase::MergedShards,
            )
        } else {
            at(c, Phase::Merge)
        },
        (Phase::Merge, Event::Ran { report }) => decided(
            c,
            "merge-idx"@,
            report@,
            Phase::MergedShards,
        ),
        (Phase::MergedShards, Event::Ran { report }) => {
            let name = steps::shards_name("idx"@);
            let d = with_step(c, name, report@);
            decided(
                c,
                name,
                report@,
                if c.plan.keep_staging {
                    to_s10(d.plan, d.steps)
                } else {
                    Phase::CleanupMerged
                },
            )
        },
        (Phase::CleanupMerged, Event::Ran { report }) => {
            let d = with_step(c, "cleanup-staging"@, report@);
            at(d, to_s10(d.plan, d.steps))
        },
        (Phase::CheckS10, Event::Output { complete, bytes }) => if complete {
            let d = with_step(c, "s10-from-idx"@, skipped_step("s10-from-idx"@, bytes as int));
            at(d, to_renko(d.plan, d.steps))
        } else {
            at(c, Phase::S10)
        },
        (Phase::S10, Event::Ran { report }) => decided(
            c,
            "s10-from-idx"@,
            report@,
            to_renko(c.plan, with_step(c, "s10-from-idx"@, report@).steps),
        ),
        (Phase::CheckRenko, Event::Output { complete, bytes }) => if complete {
            let d = with_step(c, "renko-from-idx"@, skipped_step("renko-from-idx"@, bytes as int));
            at(d, to_validate(d.plan, d.steps))
        } else {
            at(c, Phase::Renko)
        },
        (Phase::Renko, Event::Ran { report }) => decided(
            c,
            "renko-from-idx"@,
            report@,
            to_validate(c.plan, with_step(c, "renko-from-idx"@, report@).steps),
        ),
        (Phase::IdxShards, Event::Ran { report }) => at(
            with_step(c, steps::shards_name("idx"@), report@),
            Phase::S10Shards,
        ),
        (Phase::S10Shards, Event::Ran { report }) => at(
            with_step(c, steps::shards_name("s10"@), report@),
            Phase::RenkoShards,
        ),
        (Phase::RenkoShards, Event::Ran { report }) => at(
            with_step(c, steps::shards_name("renko"@), report@),
            Phase::Vol,
        ),
        (Phase::Vol, Event::NoFile) => at(c, finish(c.plan, c.steps)),
        (Phase::Vol, Event::Ran { report }) => {
            let d = with_step(c, "integrity-check[vol]"@, report@);
            at(d, finish(d.plan, d.steps))
        },
        _ => c,
    }
}

/// An event of the kind that the phase waits for, with numbers that fit.
pub open spec fn fits(c: Course, e: Event) -> bool {
    match (c.phase, e) {
        (Phase::Probe, Event::Probed { .. }) => true,
        (Phase::CheckFolded, Event::Folded { sizes, .. }) => sizes@.len() == c.exchanges.len(),
        (Phase::SweepLeftovers, Event::Performed) => true,
        (Phase::DropStale, Event::Performed) => true,
        (Phase::Fetch { .. }, Event::Ran { report }) => c.fetch_ms + report@.duration_ms
            <= u128::MAX,
        (Phase::Fold { .. }, Event::FoldedMonth { reports }) => {
            &&& reports@.len() == c.exchanges.len()
            &&& forall|i: int|
                0 <= i < reports@.len() ==> (#[trigger] reports@[i]).duration_ms <= u64::MAX
        },
        (Phase::Sweep { .. }, Event::Freed { bytes }) => c.freed + bytes <= u64::MAX,
        (Phase::SizeFolded { .. }, Event::Sized { sizes }) => sizes@.len() == c.exchanges.len(),
        (Phase::CheckMerge, Event::Output { .. }) => true,
        (Phase::CheckS10, Event::Output { .. }) => true,
        (Phase::CheckRenko, Event::Output { .. }) => true,
        (Phase::Vol, Event::NoFile) => true,
        (
            Phase::CleanupFailed
            | Phase::Merge
            | Phase::MergedShards
            | Phase::CleanupMerged
            | Phase::S10
            | Phase::Renko
            | Phase::IdxShards
            | Phase::S10Shards
            | Phase::RenkoShards
            | Phase::Vol,
            Event::Ran { .. },
        ) => true,
        _ => false,
    }
}

/// The course of one ticker.
#[derive(Debug)]
pub struct Run {
    pub plan: Plan,
    pub months: Vec<String>,
    pub exchanges: Vec<String>,
    pub phase: Phase,
    pub steps: Vec<StepReport>,
    pub uncovered: bool,
    pub fetch_ms: u128,
    pub fetch_errors: Vec<String>,
    pub folds: Vec<(String, u128)>,
    pub fold_errors: Vec<String>,
    pub freed: u64,
}

pub open spec fn fold_log(folds: Seq<(String, u128)>) -> Seq<(Seq<char>, int)> {
    Seq::new(folds.len(), |i: int| (folds[i].0@, folds[i].1 as int))
}

impl View for Run {
    type V = Course;

    open spec fn view(&self) -> Course {
        Course {
            plan: self.plan,
            months: text::texts(self.months@),
            exchanges: text::texts(self.exchanges@),
            phase: self.phase,
            steps: steps::reports(self.steps@),
            uncovered: self.uncovered,
            fetch_ms: self.fetch_ms as int,
            fetch_errors: text::texts(self.fetch_errors@),
            folds: fold_log(self.folds@),
            fold_errors: text::texts(self.fold_errors@),
            freed: self.freed as int,
        }
    }
}

fn fold_title(exchange: &str) -> (s: String)
    ensures
        s@ == fold_name(exchange@),
{
    let mut s: String = "ticks-to-idx[".to_owned();
    s.append(exchange);
    s.append("]");
    s
}

fn exchange_tag(exchange: &str) -> (s: String)
    ensures
        s@ == tag(exchange@),
{
    let mut s: String = "[".to_owned();
    s.append(exchange);
    s.append("]");
    s
}

fn skipped_report(name: &str, bytes: u64) -> (r: StepReport)
    ensures
        r@ == skipped_step(name@, bytes as int),
{
    let errors: Vec<String> = Vec::new();
    assert(text::texts(errors@) =~= Seq::<Seq<char>>::empty());
    StepReport {
        name: name.to_owned(),
        duration_ms: 0,
        exit_code: 0,
        bytes,
        skipped: true,
        errors,
    }
}

fn clean_rows(exchanges: &Vec<String>, bytes: &Vec<u64>) -> (rows: Vec<StepReport>)
    requires
        bytes.len() == exchanges.len(),
    ensures
        steps::reports(rows@) == clean_folds(text::texts(exchanges@), bytes@),
{
    let mut rows: Vec<StepReport> = Vec::new();
    let mut i: usize = 0;
    while i < exchanges.len()
        invariant
            i <= exchanges.len(),
            bytes.len() == exchanges.len(),
            rows.len() == i,
            forall|k: int|
                0 <= k < i ==> (#[trigger] rows@[k])@ == skipped_step(
                    fold_name(exchanges@[k]@),
                    bytes@[k] as int,
                ),
        decreases exchanges.len() - i,
    {
        let name = fold_title(exchanges[i].as_str());
        rows.push(skipped_report(name.as_str(), bytes[i]));
        i = i + 1;
    }
    assert(steps::reports(rows@) =~= clean_folds(text::texts(exchanges@), bytes@));
    rows
}

fn is_blamed(errors: &Vec<String>, exchange: &str) -> (b: bool)
    ensures
        b == blamed(text::texts(errors@), exchange@),
{
    let t = exchange_tag(exchange);
    let mut i: usize = 0;
    while i < errors.len()
        invariant
            i <= errors.len(),
            t@ == tag(exchange@),
            forall|k: int| 0 <= k < i ==> !text::occurs(t@, #[trigger] text::texts(errors@)[k]),
        decreases errors.len() - i,
    {
        if text::contains(errors[i].as_str(), t.as_str()) {
            assert(text::occurs(t@, text::texts(errors@)[i as int]));
            return true;
        }
        assert(!text::occurs(t@, text::texts(errors@)[i as int]));
        i = i + 1;
    }
    false
}

fn time_spent(folds: &Vec<(String, u128)>, exchange: &str) -> (t: u128)
    requires
        forall|i: int| 0 <= i < folds.len() ==> (#[trigger] folds@[i]).1 <= u64::MAX,
    ensures
        t == spent(fold_log(folds@), exchange@),
{
    let mut t: u128 = 0;
    let mut i: usize = 0;
    assert(fold_log(folds@).take(0) =~= Seq::<(Seq<char>, int)>::empty());
    while i < folds.len()
        invariant
            i <= folds.len(),
            forall|k: int| 0 <= k < folds.len() ==> (#[trigger] folds@[k]).1 <= u64::MAX,
            t == spent(fold_log(folds@).take(i as int), exchange@),
            t <= i * u64::MAX,
        decreases folds.len() - i,
    {
        let ghost grown = fold_log(folds@).take(i + 1);
        assert(grown.drop_last() =~= fold_log(folds@).take(i as int));
        assert(grown.last() == fold_log(folds@)[i as int]);
        assert((i + 1) * u64::MAX == i * u64::MAX + u64::MAX) by (nonlinear_arith);
        assert(i * u64::MAX <= usize::MAX * u64::MAX) by (nonlinear_arith)
            requires
                0 <= i <= usize::MAX,
        ;
        assert(folds@[i as int].1 <= u64::MAX);
        if text::same(folds[i].0.as_str(), exchange) {
            t = t + folds[i].1;
        }
        i = i + 1;
    }
    assert(fold_log(folds@).take(i as int) =~= fold_log(folds@));
    t
}

fn fetch_line(month: &str, code: i32) -> (s: String)
    ensures
        s@ == fetch_message(month@, code as int),
{
    let mut s: String = month.to_owned();
    s.append(": monthly fetch exit ");
    s.append(text::signed_string(code).as_str());
    s
}

fn fold_line(month: &str, exchange: &str, code: i32) -> (s: String)
    ensures
        s@ == fold_message(month@, exchange@, code as int),
{
    let mut s: String = month.to_owned();
    s.append(" ");
    s.append(exchange_tag(exchange).as_str());
    s.append(": t2i exit ");
    s.append(text::signed_string(code).as_str());
    s
}

impl Run {
    /// Every month that the run is at exists, and its times can be added up.
    pub open spec fn wf(&self) -> bool {
        &&& match self.phase {
            Phase::Fetch { month } => month < self.months.len(),
            Phase::Fold { month } => month < self.months.len(),
            Phase::Sweep { month, .. } => month < self.months.len(),
            _ => true,
        }
        &&& forall|i: int| 0 <= i < self.folds.len() ==> (#[trigger] self.folds@[i]).1 <= u64::MAX
    }

    /// Starts a ticker.
    pub fn new(plan: Plan, exchanges: Vec<String>, months: Vec<String>) -> (r: Run)
        ensures
            r.wf(),
            ({
                let c = Course {
                    plan,
                    months: text::texts(months@),
                    exchanges: text::texts(exchanges@),
                    phase: Phase::Probe,
                    steps: Seq::empty(),
                    uncovered: false,
                    fetch_ms: 0,
                    fetch_errors: Seq::empty(),
                    folds: Seq::empty(),
                    fold_errors: Seq::empty(),
                    freed: 0,
                };
                r@ == if !plan.skip_probe && plan.wanted.fetch {
                    c
                } else {
                    at(c, to_fold(c))
                }
            }),
            caught_up(r@),
    {
        let mut r = Run {
            plan,
            months,
            exchanges,
            phase: Phase::Probe,
            steps: Vec::new(),
            uncovered: false,
            fetch_ms: 0,
            fetch_errors: Vec::new(),
            folds: Vec::new(),
            fold_errors: Vec::new(),
            freed: 0,
        };
        assert(r@.steps =~= Seq::<Step>::empty());
        assert(r@.fetch_errors =~= Seq::<Seq<char>>::empty());
        assert(r@.fold_errors =~= Seq::<Seq<char>>::empty());
        assert(r@.folds =~= Seq::<(Seq<char>, int)>::empty());
        if plan.skip_probe || !plan.wanted.fetch {
            r.phase = r.fold_phase();
        }
        proof {
            lemma_passes_over(plan, Seq::empty());
        }
        r
    }

    fn finish_phase(&self) -> (p: Phase)
        ensures
            p == finish(self.plan, self@.steps),
    {
        reveal(ended);
        let mut all_skipped = true;
        let mut i: usize = 0;
        while i < self.steps.len()
            invariant
                i <= self.steps.len(),
                forall|k: int| 0 <= k < i ==> !steps::failed(#[trigger] self@.steps[k]),
                all_skipped == forall|k: int| 0 <= k < i ==> (#[trigger] self@.steps[k]).skipped,
            decreases self.steps.len() - i,
        {
            assert(self@.steps[i as int] == self.steps@[i as int]@);
            if self.steps[i].exit_code != 0 && !self.steps[i].skipped {
                proof {
                    reveal(ended);
                    assert(steps::failed(self@.steps[i as int]));
                }
                return Phase::Done { status: Status::Failed };
            }
            if !self.steps[i].skipped {
                all_skipped = false;
                assert(!self@.steps[i as int].skipped);
            }
            i = i + 1;
        }
        if self.steps.len() > 0 && all_skipped {
            Phase::Done { status: Status::Skipped }
        } else {
            Phase::Done { status: Status::Completed }
        }
    }

    fn validate_phase(&self) -> (p: Phase)
        ensures
            p == to_validate(self.plan, self@.steps),
            !early(p),
    {
        reveal(to_validate);
        if !self.plan.wanted.validate {
            self.finish_phase()
        } else if self.plan.wanted.merge {
            Phase::S10Shards
        } else {
            Phase::IdxShards
        }
    }

    fn renko_phase(&self) -> (p: Phase)
        ensures
            p == to_renko(self.plan, self@.steps),
            !early(p),
    {
        reveal(to_renko);
        if !self.plan.wanted.renko {
            self.validate_phase()
        } else if self.plan.resume {
            Phase::CheckRenko
        } else {
            Phase::Renko
        }
    }

    fn s10_phase(&self) -> (p: Phase)
        ensures
            p == to_s10(self.plan, self@.steps),
            !early(p),
    {
        reveal(to_s10);
        if !self.plan.wanted.s10 {
            self.renko_phase()
        } else if self.plan.resume {
            Phase::CheckS10
        } else {
            Phase::S10
        }
    }

    fn merge_phase(&self) -> (p: Phase)
        ensures
            p == to_merge(self.plan, self@.steps),
            !early(p),
    {
        reveal(to_merge);
        if !self.plan.wanted.merge {
            self.s10_phase()
        } else if self.plan.resume {
            Phase::CheckMerge
        } else {
            Phase::Merge
        }
    }

    fn month_phase(&self, month: usize) -> (p: Phase)
        ensures
            p == to_month(self@, month as int),
            in_range(at(self@, p)),
    {
        if month >= self.months.len() {
            Phase::SizeFolded { failed: false }
        } else if self.plan.wanted.fetch {
            Phase::Fetch { month }
        } else {
            Phase::Fold { month }
        }
    }

    fn fresh_phase(&self) -> (p: Phase)
        ensures
            p == to_fresh(self@),
            in_range(at(self@, p)),
    {
        if self.plan.wanted.t2i {
            Phase::DropStale
        } else {
            self.month_phase(0)
        }
    }

    fn fold_phase(&self) -> (p: Phase)
        ensures
            p == to_fold(self@),
            in_range(at(self@, p)),
    {
        if !(self.plan.wanted.fetch || self.plan.wanted.t2i) {
            self.merge_phase()
        } else if self.plan.resume && self.plan.wanted.t2i && self.exchanges.len() > 0 {
            Phase::CheckFolded
        } else {
            self.fresh_phase()
        }
    }

    fn abort_phase(&self) -> (p: Phase)
        ensures
            p == abort(self@),
    {
        if self.plan.keep_staging {
            Phase::Done { status: Status::Failed }
        } else {
            Phase::CleanupFailed
        }
    }
}

fn month_lines(month: &str, exchanges: &Vec<String>, reports: &Vec<StepReport>) -> (r: (
    Vec<String>,
    bool,
))
    requires
        reports.len() == exchanges.len(),
    ensures
        text::texts(r.0@) == month_errors(
            month@,
            text::texts(exchanges@),
            steps::reports(reports@),
            reports.len() as int,
        ),
        r.1 == any_nonzero(steps::reports(reports@)),
{
    let mut errors: Vec<String> = Vec::new();
    let mut bad = false;
    let ghost rows = steps::reports(reports@);
    let ghost names = text::texts(exchanges@);
    let mut i: usize = 0;
    assert(text::texts(errors@) =~= Seq::<Seq<char>>::empty());
    while i < reports.len()
        invariant
            i <= reports.len(),
            reports.len() == exchanges.len(),
            rows == steps::reports(reports@),
            names == text::texts(exchanges@),
            text::texts(errors@) == month_errors(month@, names, rows, i as int),
            bad == exists|k: int| 0 <= k < i && (#[trigger] rows[k]).exit_code != 0,
        decreases reports.len() - i,
    {
        assert(rows[i as int] == reports@[i as int]@);
        if reports[i].exit_code != 0 {
            bad = true;
            let line = fold_line(month, exchanges[i].as_str(), reports[i].exit_code);
            text::put(&mut errors, line.as_str());
            text::put_all(&mut errors, &reports[i].errors);
        }
        i = i + 1;
    }
    (errors, bad)
}

impl Run {
    fn put_step(&mut self, name: &str, report: StepReport)
        ensures
            final(self)@ == with_step(old(self)@, name@, report@),
            final(self).folds == old(self).folds,
            final(self).months == old(self).months,
            final(self).phase == old(self).phase,
    {
        let mut named = report;
        named.name = name.to_owned();
        let ghost was = steps::reports(self.steps@);
        self.steps.push(named);
        assert(steps::reports(self.steps@) =~= was.push(Step { name: name@, ..report@ }));
    }

    /// Takes the report of a step that decides over the ticker.
    fn decide(&mut self, name: &str, report: StepReport) -> (ok: bool)
        ensures
            ok == (report@.exit_code == 0),
            final(self)@ == (if ok {
                with_step(old(self)@, name@, report@)
            } else {
                decided(old(self)@, name@, report@, old(self)@.phase)
            }),
            final(self).folds == old(self).folds,
            final(self).months == old(self).months,
            ok ==> final(self).phase == old(self).phase,
    {
        let ok = report.exit_code == 0;
        self.put_step(name, report);
        if !ok {
            self.phase = self.abort_phase();
        }
        ok
    }

    fn take_fetch(&mut self, month: usize, report: StepReport)
        requires
            month < old(self).months.len(),
            old(self).fetch_ms + report.duration_ms <= u128::MAX,
        ensures
            final(self)@ == fetched(old(self)@, month as int, report@),
            final(self).folds == old(self).folds,
            final(self).months == old(self).months,
    {
        self.fetch_ms = self.fetch_ms + report.duration_ms;
        if report.exit_code == -1 {
            text::put_all(&mut self.fetch_errors, &report.errors);
            self.phase = Phase::SizeFolded { failed: true };
        } else {
            if report.exit_code != 0 {
                let line = fetch_line(self.months[month].as_str(), report.exit_code);
                text::put(&mut self.fetch_errors, line.as_str());
            }
            self.phase = if self.plan.wanted.t2i {
                Phase::Fold { month }
            } else {
                Phase::Sweep { month, failed: false }
            };
        }
    }

    fn take_fold(&mut self, month: usize, reports: Vec<StepReport>)
        requires
            old(self).wf(),
            month < old(self).months.len(),
            reports.len() == old(self).exchanges.len(),
            forall|i: int|
                0 <= i < reports.len() ==> (#[trigger] reports@[i]).duration_ms <= u64::MAX,
        ensures
            final(self).wf(),
            final(self)@ == folded(old(self)@, month as int, steps::reports(reports@)),
    {
        let (mut lines, failed) = month_lines(
            self.months[month].as_str(),
            &self.exchanges,
            &reports,
        );
        let mut times: Vec<(String, u128)> = Vec::new();
        let ghost rows = steps::reports(reports@);
        let ghost names = text::texts(self.exchanges@);
        let ghost want = Seq::new(rows.len(), |i: int| (names[i], rows[i].duration_ms));
        let mut i: usize = 0;
        while i < reports.len()
            invariant
                i <= reports.len(),
                reports.len() == self.exchanges.len(),
                rows == steps::reports(reports@),
                names == text::texts(self.exchanges@),
                times.len() == i,
                forall|k: int|
                    0 <= k < reports.len() ==> (#[trigger] reports@[k]).duration_ms <= u64::MAX,
                forall|k: int|
                    0 <= k < i ==> (#[trigger] times@[k]).0@ == names[k] && times@[k].1
                        == rows[k].duration_ms && times@[k].1 <= u64::MAX,
            decreases reports.len() - i,
        {
            assert(reports@[i as int].duration_ms <= u64::MAX);
            times.push((self.exchanges[i].clone(), reports[i].duration_ms));
            i = i + 1;
        }
        let ghost was = self.folds@;
        let ghost added = times@;
        let ghost lines_before = lines@;
        let ghost errors_before = self.fold_errors@;
        self.folds.append(&mut times);
        self.fold_errors.append(&mut lines);
        self.phase = Phase::Sweep { month, failed };
        proof {
            assert(self.folds@ == was + added);
            assert(fold_log(self.folds@) =~= fold_log(was) + want);
            assert(text::texts(self.fold_errors@) =~= text::texts(errors_before) + text::texts(
                lines_before,
            ));
            assert(self@ == folded(old(self)@, month as int, rows));
        }
    }

    fn fold_rows(&self, bytes: &Vec<u64>) -> (rows: Vec<StepReport>)
        requires
            self.wf(),
            bytes.len() == self.exchanges.len(),
        ensures
            rows.len() == self.exchanges.len(),
            forall|k: int|
                0 <= k < rows.len() ==> (#[trigger] rows@[k])@ == fold_step(
                    self@,
                    self@.exchanges[k],
                    bytes@[k] as int,
                ),
    {
        let mut rows: Vec<StepReport> = Vec::new();
        let mut i: usize = 0;
        while i < self.exchanges.len()
            invariant
                i <= self.exchanges.len(),
                self.wf(),
                bytes.len() == self.exchanges.len(),
                rows.len() == i,
                forall|k: int|
                    0 <= k < i ==> (#[trigger] rows@[k])@ == fold_step(
                        self@,
                        self@.exchanges[k],
                        bytes@[k] as int,
                    ),
            decreases self.exchanges.len() - i,
        {
            let exchange = self.exchanges[i].as_str();
            let name = fold_title(exchange);
            let exit_code: i32 = if is_blamed(&self.fold_errors, exchange) {
                1
            } else {
                0
            };
            let errors: Vec<String> = Vec::new();
            assert(text::texts(errors@) =~= Seq::<Seq<char>>::empty());
            rows.push(
                StepReport {
                    name,
                    duration_ms: time_spent(&self.folds, exchange),
                    exit_code,
                    bytes: bytes[i],
                    skipped: false,
                    errors,
                },
            );
            i = i + 1;
        }
        rows
    }

    fn month_rows(&self, failed: bool, bytes: &Vec<u64>) -> (rows: Vec<StepReport>)
        requires
            self.wf(),
            bytes.len() == self.exchanges.len(),
        ensures
            steps::reports(rows@) == month_steps(self@, failed, bytes@),
    {
        let mut rows: Vec<StepReport> = Vec::new();
        if self.plan.wanted.fetch {
            rows.push(
                StepReport {
                    name: "fetch-crypto-history[monthly]".to_owned(),
                    duration_ms: self.fetch_ms,
                    exit_code: if failed && self.fetch_errors.len() > 0 {
                        -1
                    } else {
                        0
                    },
                    bytes: self.freed,
                    skipped: false,
                    errors: text::copy_strings(&self.fetch_errors),
                },
            );
        }
        let ghost first = rows@;
        if self.plan.wanted.t2i {
            let mut more = self.fold_rows(bytes);
            let ghost added = more@;
            rows.append(&mut more);
            assert(rows@ == first + added);
        }
        assert(steps::reports(rows@) =~= month_steps(self@, failed, bytes@));
        rows
    }

    fn take_sizes(&mut self, failed: bool, bytes: Vec<u64>)
        requires
            old(self).wf(),
            bytes.len() == old(self).exchanges.len(),
            old(self).phase == (Phase::SizeFolded { failed }),
        ensures
            final(self).wf(),
            final(self)@ == next(old(self)@, Event::Sized { sizes: bytes }),
    {
        let mut rows = self.month_rows(failed, &bytes);
        let ghost added = rows@;
        let ghost was = self.steps@;
        self.steps.append(&mut rows);
        assert(self.steps@ == was + added);
        assert(self@.steps =~= old(self)@.steps + month_steps(old(self)@, failed, bytes@));
        self.phase = if failed {
            self.abort_phase()
        } else {
            self.merge_phase()
        };
    }

    fn take_clean(&mut self, bytes: Vec<u64>)
        requires
            old(self).wf(),
            bytes.len() == old(self).exchanges.len(),
        ensures
            final(self).wf(),
            final(self)@ == (Course {
                steps: old(self)@.steps + clean_folds(old(self)@.exchanges, bytes@),
                phase: Phase::SweepLeftovers,
                ..old(self)@
            }),
    {
        let mut rows = clean_rows(&self.exchanges, &bytes);
        let ghost added = rows@;
        let ghost was = self.steps@;
        self.steps.append(&mut rows);
        assert(self.steps@ == was + added);
        assert(self@.steps =~= old(self)@.steps + clean_folds(old(self)@.exchanges, bytes@));
        self.phase = Phase::SweepLeftovers;
    }
}

impl Run {
    /// Takes what came of the current phase.
    pub fn advance(&mut self, event: Event)
        requires
            old(self).wf(),
            fits(old(self)@, event),
        ensures
            final(self).wf(),
            final(self)@ == next(old(self)@, event),
    {
        let phase = self.phase;
        match phase {
            Phase::Probe | Phase::CheckFolded | Phase::SweepLeftovers | Phase::DropStale =>
                self.advance_opening(phase, event),
            Phase::Fetch { .. }
            | Phase::Fold { .. }
            | Phase::Sweep { .. }
            | Phase::SizeFolded { .. } => self.advance_months(phase, event),
            _ => self.advance_composite(phase, event),
        }
    }

    /// Takes what came of a phase before the months.
    fn advance_opening(&mut self, phase: Phase, event: Event)
        requires
            old(self).wf(),
            old(self).phase == phase,
            fits(old(self)@, event),
            phase is Probe || phase is CheckFolded || phase is SweepLeftovers || phase is DropStale,
        ensures
            final(self).wf(),
            final(self)@ == next_early(old(self)@, event),
    {
        match (phase, event) {
            (Phase::Probe, Event::Probed { active }) => {
                if active.len() == 0 {
                    self.uncovered = true;
                    self.phase = Phase::Done { status: Status::Skipped };
                } else {
                    self.exchanges = active;
                    self.phase = self.fold_phase();
                }
            },
            (Phase::CheckFolded, Event::Folded { clean, sizes }) => {
                if clean {
                    self.take_clean(sizes);
                } else {
                    self.phase = self.fresh_phase();
                }
            },
            (Phase::SweepLeftovers, Event::Performed) => {
                self.phase = self.merge_phase();
            },
            (Phase::DropStale, Event::Performed) => {
                self.phase = self.month_phase(0);
            },
            _ => {},
        }
    }

    /// Takes what came of a phase of the months.
    fn advance_months(&mut self, phase: Phase, event: Event)
        requires
            old(self).wf(),
            old(self).phase == phase,
            fits(old(self)@, event),
            phase is Fetch || phase is Fold || phase is Sweep || phase is SizeFolded,
        ensures
            final(self).wf(),
            final(self)@ == next_early(old(self)@, event),
    {
        match (phase, event) {
            (Phase::Fetch { month }, Event::Ran { report }) => {
                self.take_fetch(month, report);
            },
            (Phase::Fold { month }, Event::FoldedMonth { reports }) => {
                self.take_fold(month, reports);
            },
            (Phase::Sweep { month, failed }, Event::Freed { bytes }) => {
                self.freed = self.freed + bytes;
                self.phase = if failed {
                    Phase::SizeFolded { failed: true }
                } else {
                    self.month_phase(month + 1)
                };
            },
            (Phase::SizeFolded { failed }, Event::Sized { sizes }) => {
                self.take_sizes(failed, sizes);
            },
            _ => {},
        }
    }

    /// Takes what came of a phase after the months.
    fn advance_composite(&mut self, phase: Phase, event: Event)
        requires
            old(self).wf(),
            old(self).phase == phase,
            fits(old(self)@, event),
            !early(phase),
        ensures
            final(self).wf(),
            final(self)@ == next_late(old(self)@, event),
    {
        match phase {
            Phase::CleanupFailed | Phase::CheckMerge | Phase::Merge | Phase::MergedShards
            | Phase::CleanupMerged => self.advance_merge(phase, event),
            Phase::CheckS10 | Phase::S10 => self.advance_s10(phase, event),
            Phase::CheckRenko | Phase::Renko => self.advance_renko(phase, event),
            _ => self.advance_checks(phase, event),
        }
    }

    fn advance_merge(&mut self, phase: Phase, event: Event)
        requires
            old(self).wf(),
            old(self).phase == phase,
            fits(old(self)@, event),
            phase is CleanupFailed || phase is CheckMerge || phase is Merge || phase is MergedShards
                || phase is CleanupMerged,
        ensures
            final(self).wf(),
            final(self)@ == next_late(old(self)@, event),
    {
        match (phase, event) {
            (Phase::CleanupFailed, Event::Ran { report }) => {
                self.put_step("cleanup-staging", report);
                self.phase = Phase::Done { status: Status::Failed };
            },
            (Phase::CheckMerge, Event::Output { complete, bytes }) => {
                if complete {
                    self.put_step("merge-idx", skipped_report("merge-idx", bytes));
                    self.phase = Phase::MergedShards;
                } else {
                    self.phase = Phase::Merge;
                }
            },
            (Phase::Merge, Event::Ran { report }) => {
                if self.decide("merge-idx", report) {
                    self.phase = Phase::MergedShards;
                }
            },
            (Phase::MergedShards, Event::Ran { report }) => {
                let name = shards_title("idx");
                if self.decide(name.as_str(), report) {
                    self.phase = if self.plan.keep_staging {
                        self.s10_phase()
                    } else {
                        Phase::CleanupMerged
                    };
                }
            },
            (Phase::CleanupMerged, Event::Ran { report }) => {
                self.put_step("cleanup-staging", report);
                self.phase = self.s10_phase();
            },
            _ => {},
        }
    }

    fn advance_s10(&mut self, phase: Phase, event: Event)
        requires
            old(self).wf(),
            old(self).phase == phase,
            fits(old(self)@, event),
            phase is CheckS10 || phase is S10,
        ensures
            final(self).wf(),
            final(self)@ == next_late(old(self)@, event),
    {
        match (phase, event) {
            (Phase::CheckS10, Event::Output { complete, bytes }) => {
                if complete {
                    self.put_step("s10-from-idx", skipped_report("s10-from-idx", bytes));
                    self.phase = self.renko_phase();
                } else {
                    self.phase = Phase::S10;
                }
            },
            (Phase::S10, Event::Ran { report }) => {
                if self.decide("s10-from-idx", report) {
                    self.phase = self.renko_phase();
                }
            },
            _ => {},
        }
    }

    fn advance_renko(&mut self, phase: Phase, event: Event)
        requires
            old(self).wf(),
            old(self).phase == phase,
            fits(old(self)@, event),
            phase is CheckRenko || phase is Renko,
        ensures
            final(self).wf(),
            final(self)@ == next_late(old(self)@, event),
    {
        match (phase, event) {
            (Phase::CheckRenko, Event::Output { complete, bytes }) => {
                if complete {
                    self.put_step("renko-from-idx", skipped_report("renko-from-idx", bytes));
                    self.phase = self.validate_phase();
                } else {
                    self.phase = Phase::Renko;
                }
            },
            (Phase::Renko, Event::Ran { report }) => {
                if self.decide("renko-from-idx", report) {
                    self.phase = self.validate_phase();
                }
            },
            _ => {},
        }
    }

    fn advance_checks(&mut self, phase: Phase, event: Event)
        requires
            old(self).wf(),
            old(self).phase == phase,
            fits(old(self)@, event),
            phase is IdxShards || phase is S10Shards || phase is RenkoShards || phase is Vol
                || phase is Done,
        ensures
            final(self).wf(),
            final(self)@ == next_late(old(self)@, event),
    {
        match (phase, event) {
            (Phase::IdxShards, Event::Ran { report }) => {
                let name = shards_title("idx");
                self.put_step(name.as_str(), report);
                self.phase = Phase::S10Shards;
            },
            (Phase::S10Shards, Event::Ran { report }) => {
                let name = shards_title("s10");
                self.put_step(name.as_str(), report);
                self.phase = Phase::RenkoShards;
            },
            (Phase::RenkoShards, Event::Ran { report }) => {
                let name = shards_title("renko");
                self.put_step(name.as_str(), report);
                self.phase = Phase::Vol;
            },
            (Phase::Vol, Event::NoFile) => {
                self.phase = self.finish_phase();
            },
            (Phase::Vol, Event::Ran { report }) => {
                self.put_step("integrity-check[vol]", report);
                self.phase = self.finish_phase();
            },
            _ => {},
        }
    }

    /// How the ticker ended; nothing while it goes on.
    pub fn status(&self) -> (s: Option<Status>)
        ensures
            s == (match self.phase {
                Phase::Done { status } => Some(status),
                _ => None,
            }),
    {
        match self.phase {
            Phase::Done { status } => Some(status),
            _ => None,
        }
    }

    /// Why a ticker was skipped without a step.
    pub fn skip_reason(&self) -> (r: Option<&'static str>)
        ensures
            r is Some <==> self.uncovered,
            r matches Some(s) ==> s@ == "no archive coverage in any exchange"@,
    {
        if self.uncovered {
            Some("no archive coverage in any exchange")
        } else {
            None
        }
    }
}

fn shards_title(kind: &str) -> (s: String)
    ensures
        s@ == steps::shards_name(kind@),
{
    let mut s: String = "integrity-check-shards[".to_owned();
    s.append(kind);
    s.append("]");
    s
}

/// How far a phase is along the course.
pub open spec fn rank(months: int, p: Phase) -> int {
    let base = 3 * months;
    match p {
        Phase::Probe => 0,
        Phase::CheckFolded => 1,
        Phase::DropStale => 2,
        Phase::Fetch { month } => 3 + 3 * month,
        Phase::Fold { month } => 4 + 3 * month,
        Phase::Sweep { month, .. } => 5 + 3 * month,
        Phase::SizeFolded { .. } => base + 6,
        Phase::SweepLeftovers => base + 7,
        Phase::CheckMerge => base + 8,
        Phase::Merge => base + 9,
        Phase::MergedShards => base + 10,
        Phase::CleanupMerged => base + 11,
        Phase::CheckS10 => base + 12,
        Phase::S10 => base + 13,
        Phase::CheckRenko => base + 14,
        Phase::Renko => base + 15,
        Phase::IdxShards => base + 16,
        Phase::S10Shards => base + 17,
        Phase::RenkoShards => base + 18,
        Phase::Vol => base + 19,
        Phase::CleanupFailed => base + 20,
        Phase::Done { .. } => base + 21,
    }
}

pub open spec fn in_range(c: Course) -> bool {
    match c.phase {
        Phase::Fetch { month } => month < c.months.len(),
        Phase::Fold { month } => month < c.months.len(),
        Phase::Sweep { month, .. } => month < c.months.len(),
        _ => true,
    }
}

/// A phase that follows the months, at or after the one of a rank above them.
pub open spec fn late_phase(p: Phase, least: int) -> bool {
    !early(p) && !(p is CleanupFailed || p is CleanupMerged) && least <= rank(0, p)
}

pub open spec fn well_ended(p: Phase, s: Seq<Step>) -> bool {
    match p {
        Phase::Done { status } => status != Status::Failed ==> all_well(s),
        _ => true,
    }
}

proof fn lemma_phases(plan: Plan, s: Seq<Step>)
    ensures
        late_phase(to_validate(plan, s), 16),
        late_phase(to_renko(plan, s), 14),
        late_phase(to_s10(plan, s), 12),
        late_phase(to_merge(plan, s), 8),
        well_ended(finish(plan, s), s),
        well_ended(to_validate(plan, s), s),
        well_ended(to_renko(plan, s), s),
        well_ended(to_s10(plan, s), s),
        well_ended(to_merge(plan, s), s),
{
    reveal(to_validate);
    reveal(to_renko);
    reveal(to_s10);
    reveal(to_merge);
    reveal(ended);
}

/// What every event does to a course: it stays in range and moves forward, it
/// ends well only without a failed step, and it removes no staging that is kept.
pub open spec fn proper(c: Course, d: Course) -> bool {
    let n = c.months.len() as int;
    &&& in_range(d)
    &&& d.months == c.months
    &&& d.plan == c.plan
    &&& rank(n, c.phase) < rank(n, d.phase) <= 3 * n + 21
    &&& (c.steps.len() == 0 || !(c.phase is Probe)) ==> well_ended(d.phase, d.steps)
    &&& c.plan.keep_staging && !removes(c.phase) ==> !removes(d.phase)
}

/// Phases that belong to a month.
pub open spec fn in_month(p: Phase) -> bool {
    p is Fetch || p is Fold || p is Sweep || p is SizeFolded
}

pub open spec fn removes(p: Phase) -> bool {
    p is CleanupFailed || p is CleanupMerged
}

#[verifier::spinoff_prover]
proof fn lemma_opening(c: Course, e: Event)
    requires
        fits(c, e),
        in_range(c),
        c.months.len() <= usize::MAX,
        early(c.phase),
        !in_month(c.phase),
    ensures
        proper(c, next_early(c, e)),
{
    lemma_phases(c.plan, c.steps);
    lemma_phases(c.plan, next_early(c, e).steps);
}

#[verifier::spinoff_prover]
proof fn lemma_month(c: Course, e: Event)
    requires
        fits(c, e),
        in_range(c),
        c.months.len() <= usize::MAX,
        in_month(c.phase),
    ensures
        proper(c, next_early(c, e)),
{
    lemma_phases(c.plan, c.steps);
    lemma_phases(c.plan, next_early(c, e).steps);
}

proof fn lemma_merging(c: Course, e: Event)
    requires
        fits(c, e),
        removes(c.phase) || c.phase is CheckMerge || c.phase is Merge || c.phase is MergedShards,
    ensures
        proper(c, next_late(c, e)),
{
    lemma_phases(c.plan, next_late(c, e).steps);
}

proof fn lemma_bars(c: Course, e: Event)
    requires
        fits(c, e),
        c.phase is CheckS10 || c.phase is S10 || c.phase is CheckRenko || c.phase is Renko,
    ensures
        proper(c, next_late(c, e)),
{
    lemma_phases(c.plan, next_late(c, e).steps);
}

proof fn lemma_checks(c: Course, e: Event)
    requires
        fits(c, e),
        c.phase is IdxShards || c.phase is S10Shards || c.phase is RenkoShards || c.phase is Vol,
    ensures
        proper(c, next_late(c, e)),
{
    lemma_phases(c.plan, next_late(c, e).steps);
}

proof fn lemma_events(c: Course, e: Event)
    requires
        fits(c, e),
        in_range(c),
        c.months.len() <= usize::MAX,
    ensures
        proper(c, next(c, e)),
{
    match c.phase {
        Phase::CleanupFailed
        | Phase::CheckMerge
        | Phase::Merge
        | Phase::MergedShards
        | Phase::CleanupMerged => lemma_merging(c, e),
        Phase::CheckS10 | Phase::S10 | Phase::CheckRenko | Phase::Renko => lemma_bars(c, e),
        Phase::IdxShards | Phase::S10Shards | Phase::RenkoShards | Phase::Vol => lemma_checks(c, e),
        Phase::Done { .. } => {},
        Phase::Fetch { .. } | Phase::Fold { .. } | Phase::Sweep { .. } | Phase::SizeFolded { .. } =>
            lemma_month(c, e),
        _ => lemma_opening(c, e),
    }
}

/// Every event moves a ticker along its course, so it ends after finitely many:
/// `3 * months + 21` at most.
pub proof fn events_move_forward(c: Course, e: Event)
    requires
        fits(c, e),
        in_range(c),
        c.months.len() <= usize::MAX,
    ensures
        in_range(next(c, e)),
        next(c, e).months == c.months,
        rank(c.months.len() as int, c.phase) < rank(c.months.len() as int, next(c, e).phase),
        rank(c.months.len() as int, next(c, e).phase) <= 3 * c.months.len() + 21,
{
    lemma_events(c, e);
}

pub open spec fn all_well(s: Seq<Step>) -> bool {
    forall|i: int| 0 <= i < s.len() ==> !steps::failed(#[trigger] s[i])
}

/// A ticker is reported as completed or skipped only when no step failed.
pub proof fn a_failed_step_fails_the_ticker(c: Course, e: Event)
    requires
        fits(c, e),
        in_range(c),
        c.months.len() <= usize::MAX,
        c.steps.len() == 0 || !(c.phase is Probe),
    ensures
        well_ended(next(c, e).phase, next(c, e).steps),
{
    lemma_events(c, e);
}

/// With staging to be kept, no event leads to its removal.
pub proof fn kept_staging_is_never_removed(c: Course, e: Event)
    requires
        fits(c, e),
        in_range(c),
        c.months.len() <= usize::MAX,
        c.plan.keep_staging,
        !removes(c.phase),
    ensures
        !removes(next(c, e).phase),
        next(c, e).plan == c.plan,
{
    lemma_events(c, e);
}

/// Without staging to be kept, a step that decides over the ticker and fails
/// leads to the removal of its staging, and then to failure.
pub proof fn failures_remove_staging(c: Course, report: StepReport)
    requires
        !c.plan.keep_staging,
        c.phase is Merge || c.phase is MergedShards || c.phase is S10 || c.phase is Renko,
        report.exit_code != 0,
    ensures
        next(c, Event::Ran { report }).phase is CleanupFailed,
        forall|cleanup: StepReport|
            (#[trigger] next(next(c, Event::Ran { report }), Event::Ran { report: cleanup })).phase
                == (Phase::Done { status: Status::Failed }),
{
}

/// A ticker that went through its steps failed exactly if one of them did, and was
/// skipped exactly if there were some and all were.
pub proof fn endings_follow_the_steps(s: Seq<Step>)
    ensures
        ended(s) == Status::Failed <==> exists|i: int|
            0 <= i < s.len() && (#[trigger] s[i]).exit_code != 0 && !s[i].skipped,
        ended(s) == Status::Skipped <==> s.len() > 0 && forall|i: int|
            0 <= i < s.len() ==> (#[trigger] s[i]).skipped,
{
    reveal(ended);
    if exists|i: int| 0 <= i < s.len() && (#[trigger] s[i]).exit_code != 0 && !s[i].skipped {
        let i = choose|i: int| 0 <= i < s.len() && (#[trigger] s[i]).exit_code != 0 && !s[i].skipped;
        assert(steps::failed(s[i]));
    }
}

/// A step that decides over the ticker and fails ends it: at once with staging to be
/// kept. One that succeeds does not.
pub proof fn failures_end_the_ticker(c: Course, report: StepReport)
    requires
        c.phase is Merge || c.phase is MergedShards || c.phase is S10 || c.phase is Renko,
    ensures
        report.exit_code != 0 && c.plan.keep_staging ==> next(c, Event::Ran { report }).phase == (
        Phase::Done { status: Status::Failed }),
        report.exit_code == 0 ==> !(next(c, Event::Ran { report }).phase is CleanupFailed),
        report.exit_code == 0 && c.phase is Merge ==> next(c, Event::Ran { report }).phase
            == Phase::MergedShards,
        report.exit_code == 0 && c.phase is MergedShards && !c.plan.keep_staging ==> next(
            c,
            Event::Ran { report },
        ).phase == Phase::CleanupMerged,
{
    let d = next(c, Event::Ran { report });
    lemma_phases(c.plan, d.steps);
}

/// A step whose output is complete is not run again; one whose output is not is run.
pub proof fn complete_steps_are_not_run_again(c: Course, bytes: u64)
    ensures
        c.phase is CheckMerge ==> {
            &&& next(c, Event::Output { complete: false, bytes }).phase == Phase::Merge
            &&& next(c, Event::Output { complete: true, bytes }).phase == Phase::MergedShards
        },
        c.phase is CheckS10 ==> {
            &&& next(c, Event::Output { complete: false, bytes }).phase == Phase::S10
            &&& late_phase(next(c, Event::Output { complete: true, bytes }).phase, 14)
        },
        c.phase is CheckRenko ==> {
            &&& next(c, Event::Output { complete: false, bytes }).phase == Phase::Renko
            &&& late_phase(next(c, Event::Output { complete: true, bytes }).phase, 16)
        },
        c.phase is CheckMerge || c.phase is CheckS10 || c.phase is CheckRenko ==> {
            let d = next(c, Event::Output { complete: true, bytes });
            &&& d.steps.len() == c.steps.len() + 1
            &&& d.steps.last().skipped && d.steps.last().exit_code == 0 && d.steps.last().bytes == bytes
            &&& next(c, Event::Output { complete: false, bytes }).steps == c.steps
        },
{
    let d = next(c, Event::Output { complete: true, bytes });
    lemma_phases(c.plan, d.steps);
}

/// A ticker that no exchange covers is skipped. Any other goes on with the exchanges that
/// do: to the merge if neither fetching nor folding is wanted; to a look at the folded
/// indexes if it is resumed, folds and has exchanges; to the first month otherwise, once
/// what earlier folding left was dropped. Clean indexes are not folded again, others are
/// folded from empty.
pub proof fn openings_follow_the_plan(c: Course, active: Vec<String>, sizes: Vec<u64>)
    ensures
        c.phase is Probe && active@.len() == 0 ==> {
            let d = next(c, Event::Probed { active });
            d.phase == (Phase::Done { status: Status::Skipped }) && d.uncovered
        },
        c.phase is Probe && active@.len() > 0 ==> {
            let d = next(c, Event::Probed { active });
            &&& d.exchanges == text::texts(active@) && d.phase == to_fold(d) && d.uncovered
                == c.uncovered
        },
        !c.plan.wanted.fetch && !c.plan.wanted.t2i ==> late_phase(to_fold(c), 8),
        c.plan.wanted.t2i && c.plan.resume && c.exchanges.len() > 0 ==> to_fold(c)
            == Phase::CheckFolded,
        c.plan.wanted.t2i && (!c.plan.resume || c.exchanges.len() == 0) ==> to_fold(c)
            == Phase::DropStale,
        c.plan.wanted.fetch && !c.plan.wanted.t2i ==> to_fold(c) == if c.months.len() > 0 {
            Phase::Fetch { month: 0 }
        } else {
            Phase::SizeFolded { failed: false }
        },
        c.phase is CheckFolded ==> next(c, Event::Folded { clean: true, sizes }).phase
            == Phase::SweepLeftovers,
        c.phase is CheckFolded && c.plan.wanted.t2i ==> next(
            c,
            Event::Folded { clean: false, sizes },
        ).phase == Phase::DropStale,
        c.phase is SweepLeftovers ==> late_phase(next(c, Event::Performed).phase, 8),
{
    lemma_phases(c.plan, c.steps);
}

/// Months follow each other without one left out: a month is fetched if that is wanted,
/// folded if that is wanted, and swept before the next begins; the first is the first.
/// Nothing follows a month on which an exchange failed, or whose fetch could not run.
pub proof fn months_follow_each_other(c: Course, e: Event)
    requires
        fits(c, e),
        in_range(c),
        c.months.len() <= usize::MAX,
        in_month(c.phase) || c.phase is DropStale,
    ensures
        ({
            let d = next(c, e);
            let begin = |m: int|
                if m >= c.months.len() {
                    d.phase == (Phase::SizeFolded { failed: false })
                } else if c.plan.wanted.fetch {
                    d.phase == (Phase::Fetch { month: m as usize })
                } else {
                    d.phase == (Phase::Fold { month: m as usize })
                };
            &&& c.phase is DropStale ==> begin(0)
            &&& c.phase matches Phase::Fetch { month } ==> (e matches Event::Ran { report } && {
                &&& report.exit_code == -1 ==> d.phase == (Phase::SizeFolded { failed: true })
                &&& report.exit_code != -1 && c.plan.wanted.t2i ==> d.phase == (Phase::Fold {
                    month,
                })
                &&& report.exit_code != -1 && !c.plan.wanted.t2i ==> d.phase == (Phase::Sweep {
                    month,
                    failed: false,
                })
                &&& d.fetch_ms == c.fetch_ms + report.duration_ms
                &&& report.exit_code == 0 ==> d.fetch_errors == c.fetch_errors
                &&& report.exit_code != 0 && report.exit_code != -1 ==> d.fetch_errors.len()
                    == c.fetch_errors.len() + 1
            })
            &&& c.phase matches Phase::Fold { month } ==> (d.phase matches Phase::Sweep {
                month: m,
                failed,
            } && m == month && (e matches Event::FoldedMonth { reports } && (failed <==> exists|
                i: int,
            |
                0 <= i < reports@.len() && (#[trigger] reports@[i]).exit_code != 0)))
            &&& c.phase matches Phase::Sweep { month, failed } ==> (e matches Event::Freed { bytes } && {
                &&& d.freed == c.freed + bytes
                &&& failed ==> d.phase == (Phase::SizeFolded { failed: true })
                &&& !failed ==> begin(month + 1)
            })
            &&& c.phase == (Phase::SizeFolded { failed: true }) ==> d.phase is CleanupFailed
                || d.phase == (Phase::Done { status: Status::Failed })
            &&& c.phase == (Phase::SizeFolded { failed: false }) ==> late_phase(d.phase, 8)
        }),
{
    let d = next(c, e);
    lemma_phases(c.plan, d.steps);
    if let Event::FoldedMonth { reports } = e {
        let steps = steps::reports(reports@);
        assert forall|i: int| 0 <= i < reports@.len() implies (#[trigger] steps[i]).exit_code
            == reports@[i].exit_code by {}
        if exists|i: int| 0 <= i < reports@.len() && (#[trigger] reports@[i]).exit_code != 0 {
            let i = choose|i: int| 0 <= i < reports@.len() && (#[trigger] reports@[i]).exit_code != 0;
            assert(steps[i].exit_code != 0);
        }
    }
}

/// The time spent on the folding of an exchange grows by that of its own report, where
/// each exchange is named once.
pub proof fn time_is_added_up_by_exchange(c: Course, month: int, reports: Seq<Step>, i: int)
    requires
        reports.len() == c.exchanges.len(),
        c.exchanges.no_duplicates(),
        0 <= i < reports.len(),
    ensures
        spent(folded(c, month, reports).folds, c.exchanges[i]) == spent(c.folds, c.exchanges[i])
            + reports[i].duration_ms,
{
    let more = Seq::new(reports.len(), |k: int| (c.exchanges[k], reports[k].duration_ms));
    lemma_spent(c, reports, more, i, reports.len() as int);
    assert(c.folds + more.take(reports.len() as int) =~= c.folds + more);
}

proof fn lemma_spent(
    c: Course,
    reports: Seq<Step>,
    more: Seq<(Seq<char>, int)>,
    i: int,
    n: int,
)
    requires
        reports.len() == c.exchanges.len(),
        more == Seq::new(reports.len(), |k: int| (c.exchanges[k], reports[k].duration_ms)),
        c.exchanges.no_duplicates(),
        0 <= i < reports.len(),
        0 <= n <= reports.len(),
    ensures
        spent(c.folds + more.take(n), c.exchanges[i]) == spent(c.folds, c.exchanges[i]) + if i < n {
            reports[i].duration_ms
        } else {
            0
        },
    decreases n,
{
    if n == 0 {
        assert(c.folds + more.take(0) =~= c.folds);
    } else {
        lemma_spent(c, reports, more, i, n - 1);
        let all = c.folds + more.take(n);
        assert(all.drop_last() =~= c.folds + more.take(n - 1));
        assert(all.last() == more[n - 1]);
    }
}

/// A report stands under a name.
pub open spec fn listed(s: Seq<Step>, name: Seq<char>) -> bool {
    exists|i: int| 0 <= i < s.len() && (#[trigger] s[i]).name == name
}

/// The phase lies at or past a point of the way to a good end.
pub open spec fn past(c: Course, least: int) -> bool {
    match c.phase {
        Phase::Done { status } => status != Status::Failed && !c.uncovered,
        Phase::CleanupFailed => false,
        p => !early(p) && least <= rank(0, p),
    }
}

/// Every step that is wanted and lies behind has its report.
pub open spec fn caught_up(c: Course) -> bool {
    let w = c.plan.wanted;
    &&& c.phase is CheckFolded || c.phase is SweepLeftovers ==> c.plan.resume
    &&& c.phase is SweepLeftovers ==> forall|i: int|
        0 <= i < c.exchanges.len() ==> listed(c.steps, fold_name(#[trigger] c.exchanges[i]))
    &&& past(c, 8) && w.fetch && !c.plan.resume ==> listed(c.steps, "fetch-crypto-history[monthly]"@)
    &&& past(c, 8) && w.t2i ==> forall|i: int|
        0 <= i < c.exchanges.len() ==> listed(c.steps, fold_name(#[trigger] c.exchanges[i]))
    &&& past(c, 10) && w.merge ==> listed(c.steps, "merge-idx"@)
    &&& past(c, 11) && w.merge ==> listed(c.steps, steps::shards_name("idx"@))
    &&& past(c, 14) && w.s10 ==> listed(c.steps, "s10-from-idx"@)
    &&& past(c, 16) && w.renko ==> listed(c.steps, "renko-from-idx"@)
    &&& past(c, 17) && w.validate ==> listed(c.steps, steps::shards_name("idx"@))
    &&& past(c, 18) && w.validate ==> listed(c.steps, steps::shards_name("s10"@))
    &&& past(c, 19) && w.validate ==> listed(c.steps, steps::shards_name("renko"@))
}

proof fn lemma_listed(s: Seq<Step>, t: Seq<Step>)
    requires
        s.len() <= t.len(),
        t.take(s.len() as int) == s,
    ensures
        forall|name: Seq<char>| #[trigger] listed(s, name) ==> listed(t, name),
{
    assert forall|name: Seq<char>| #[trigger] listed(s, name) implies listed(t, name) by {
        let i = choose|i: int| 0 <= i < s.len() && (#[trigger] s[i]).name == name;
        assert(t.take(s.len() as int)[i] == t[i]);
    }
}

/// Where a part of the course leads, what it passes over is not wanted.
spec fn passes_over(plan: Plan, p: Phase, least: int) -> bool {
    let w = plan.wanted;
    let r = rank(0, p);
    &&& late_phase(p, least)
    &&& !(p is MergedShards)
    &&& r >= 10 && least <= 8 ==> !w.merge
    &&& r >= 14 && least <= 12 ==> !w.s10
    &&& r >= 16 && least <= 14 ==> !w.renko
    &&& r == 17 ==> w.merge
    &&& r >= 18 ==> p is Done && !w.validate
}

proof fn lemma_passes_over(plan: Plan, s: Seq<Step>)
    ensures
        passes_over(plan, to_validate(plan, s), 16),
        passes_over(plan, to_renko(plan, s), 14),
        passes_over(plan, to_s10(plan, s), 12),
        passes_over(plan, to_merge(plan, s), 8),
{
    reveal(to_validate);
    reveal(to_renko);
    reveal(to_s10);
    reveal(to_merge);
    lemma_phases(plan, s);
}

/// A course loses no report: those so far stay, in their order.
pub proof fn reports_are_never_lost(c: Course, e: Event)
    ensures
        c.steps.len() <= next(c, e).steps.len(),
        next(c, e).steps.take(c.steps.len() as int) == c.steps,
{
    let d = next(c, e);
    assert(d.steps.take(c.steps.len() as int) =~= c.steps);
}

#[verifier::spinoff_prover]
proof fn lemma_caught_up_early(c: Course, e: Event)
    requires
        fits(c, e),
        in_range(c),
        early(c.phase),
        caught_up(c),
    ensures
        caught_up(next_early(c, e)),
{
    let d = next_early(c, e);
    lemma_passes_over(d.plan, d.steps);
    match (c.phase, e) {
        (Phase::CheckFolded, Event::Folded { clean, sizes }) => {
            if clean {
                assert forall|i: int| 0 <= i < d.exchanges.len() implies listed(
                    d.steps,
                    fold_name(#[trigger] d.exchanges[i]),
                ) by {
                    assert(d.steps[c.steps.len() + i] == skipped_step(
                        fold_name(c.exchanges[i]),
                        sizes@[i] as int,
                    ));
                }
            }
        },
        (Phase::SizeFolded { failed }, Event::Sized { sizes }) => {
            let first: int = if c.plan.wanted.fetch {
                1
            } else {
                0
            };
            if c.plan.wanted.fetch {
                assert(d.steps[c.steps.len() as int] == fetch_step(c, failed));
            }
            if c.plan.wanted.t2i {
                assert forall|i: int| 0 <= i < d.exchanges.len() implies listed(
                    d.steps,
                    fold_name(#[trigger] d.exchanges[i]),
                ) by {
                    assert(d.steps[c.steps.len() + first + i] == fold_step(
                        c,
                        c.exchanges[i],
                        sizes@[i] as int,
                    ));
                }
            }
        },
        _ => {},
    }
}

#[verifier::spinoff_prover]
proof fn lemma_caught_up_merging(c: Course, e: Event)
    requires
        fits(c, e),
        caught_up(c),
        removes(c.phase) || c.phase is CheckMerge || c.phase is Merge || c.phase is MergedShards,
    ensures
        caught_up(next_late(c, e)),
{
    let d = next_late(c, e);
    lemma_passes_over(d.plan, d.steps);
    assert(d.steps.take(c.steps.len() as int) =~= c.steps);
    lemma_listed(c.steps, d.steps);
    if d.steps.len() > c.steps.len() {
        assert(d.steps[c.steps.len() as int] == d.steps.last());
    }
}

#[verifier::spinoff_prover]
proof fn lemma_caught_up_bars(c: Course, e: Event)
    requires
        fits(c, e),
        caught_up(c),
        c.phase is CheckS10 || c.phase is S10 || c.phase is CheckRenko || c.phase is Renko,
    ensures
        caught_up(next_late(c, e)),
{
    let d = next_late(c, e);
    lemma_passes_over(d.plan, d.steps);
    assert(d.steps.take(c.steps.len() as int) =~= c.steps);
    lemma_listed(c.steps, d.steps);
    if d.steps.len() > c.steps.len() {
        assert(d.steps[c.steps.len() as int] == d.steps.last());
    }
}

#[verifier::spinoff_prover]
proof fn lemma_caught_up_checks(c: Course, e: Event)
    requires
        fits(c, e),
        caught_up(c),
        c.phase is IdxShards || c.phase is S10Shards || c.phase is RenkoShards || c.phase is Vol,
    ensures
        caught_up(next_late(c, e)),
{
    let d = next_late(c, e);
    assert(d.steps.take(c.steps.len() as int) =~= c.steps);
    lemma_listed(c.steps, d.steps);
    if d.steps.len() > c.steps.len() {
        assert(d.steps[c.steps.len() as int] == d.steps.last());
    }
}

/// Every step that is wanted is taken or found complete: at no point of the way to a
/// good end is there a wanted step behind that has no report. So a ticker that ends
/// well has a report of each.
pub proof fn wanted_steps_are_reported(c: Course, e: Event)
    requires
        fits(c, e),
        in_range(c),
        caught_up(c),
    ensures
        caught_up(next(c, e)),
{
    match c.phase {
        Phase::CleanupFailed
        | Phase::CheckMerge
        | Phase::Merge
        | Phase::MergedShards
        | Phase::CleanupMerged => lemma_caught_up_merging(c, e),
        Phase::CheckS10 | Phase::S10 | Phase::CheckRenko | Phase::Renko => lemma_caught_up_bars(
            c,
            e,
        ),
        Phase::IdxShards | Phase::S10Shards | Phase::RenkoShards | Phase::Vol =>
            lemma_caught_up_checks(c, e),
        Phase::Done { .. } => {},
        _ => lemma_caught_up_early(c, e),
    }
}

/// A month's error names its exchange: an exchange whose folding failed is
/// blamed for it.
pub proof fn failing_exchanges_are_blamed(
    month: Seq<char>,
    exchanges: Seq<Seq<char>>,
    reports: Seq<Step>,
    n: int,
    i: int,
)
    requires
        0 <= i < n <= reports.len(),
        reports[i].exit_code != 0,
    ensures
        blamed(month_errors(month, exchanges, reports, n), exchanges[i]),
    decreases n,
{
    let all = month_errors(month, exchanges, reports, n);
    let head = month_errors(month, exchanges, reports, n - 1);
    if i < n - 1 {
        failing_exchanges_are_blamed(month, exchanges, reports, n - 1, i);
        let k = choose|k: int|
            0 <= k < head.len() && text::occurs(tag(exchanges[i]), #[trigger] head[k]);
        assert(all[k] == head[k]);
    } else {
        let m = fold_message(month, exchanges[i], reports[i].exit_code);
        let t = tag(exchanges[i]);
        assert(all[head.len() as int] == m);
        let from = month.len() as int + " "@.len();
        assert(m.subrange(from, from + t.len()) =~= t);
        assert(text::occurs(t, m));
    }
}

} // verus!
