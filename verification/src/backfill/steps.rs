//! Reports of backfill steps, and the commands they run.

use vstd::prelude::*;
use crate::tally;
use crate::text;

verus! {

/// Most heavy processes that may run at once.
pub const HEAVY_WORK_RAM_CAP: usize = 4;

/// Lines of a failed process that its report keeps.
pub const STDERR_TAIL: usize = 20;

/// Lines of a failed shard check that its report keeps.
pub const SHARD_TAIL: usize = 5;

/// Days that the largest archive file holds.
pub const PEAK_FILE_DAYS: u64 = 31;

/// What a step of a ticker came to.
#[derive(Debug)]
pub struct StepReport {
    pub name: String,
    pub duration_ms: u128,
    pub exit_code: i32,
    pub bytes: u64,
    pub skipped: bool,
    pub errors: Vec<String>,
}

/// A report, as mathematical values.
pub struct Step {
    pub name: Seq<char>,
    pub duration_ms: int,
    pub exit_code: int,
    pub bytes: int,
    pub skipped: bool,
    pub errors: Seq<Seq<char>>,
}

impl View for StepReport {
    type V = Step;

    open spec fn view(&self) -> Step {
        Step {
            name: self.name@,
            duration_ms: self.duration_ms as int,
            exit_code: self.exit_code as int,
            bytes: self.bytes as int,
            skipped: self.skipped,
            errors: text::texts(self.errors@),
        }
    }
}

pub open spec fn reports(v: Seq<StepReport>) -> Seq<Step> {
    Seq::new(v.len(), |i: int| v[i]@)
}

/// A step counts as failed when it ran and its exit code is not zero.
pub open spec fn failed(s: Step) -> bool {
    s.exit_code != 0 && !s.skipped
}

/// How a process ended.
#[derive(Debug)]
pub enum Ending {
    /// It ran; a process that a signal ended has no code.
    Exited { code: Option<i32>, stderr: Vec<String> },
    /// It could not be started.
    NotStarted { error: String },
}

/// The report of a process.
pub open spec fn step_of(name: Seq<char>, duration_ms: int, ending: Ending, bytes: int) -> Step {
    match ending {
        Ending::Exited { code, stderr } => Step {
            name,
            duration_ms,
            exit_code: match code {
                Some(c) => c as int,
                None => -1,
            },
            bytes,
            skipped: false,
            errors: if code == Some(0i32) {
                Seq::empty()
            } else {
                text::last_of(text::texts(stderr@), STDERR_TAIL as int)
            },
        },
        Ending::NotStarted { error } => Step {
            name,
            duration_ms,
            exit_code: -1,
            bytes: 0,
            skipped: false,
            errors: seq!["spawn failed: "@ + error@],
        },
    }
}

/// Reports a process: its exit code (-1 without one) and, where it failed, the
/// last lines of its standard error.
pub fn run_step(name: &str, duration_ms: u128, ending: &Ending, bytes: u64) -> (r: StepReport)
    ensures
        r@ == step_of(name@, duration_ms as int, *ending, bytes as int),
{
    match ending {
        Ending::Exited { code, stderr } => {
            let exit_code: i32 = match code {
                Some(c) => *c,
                None => -1,
            };
            let errors: Vec<String> = match code {
                Some(0) => Vec::new(),
                _ => text::tail(stderr, STDERR_TAIL),
            };
            assert(*code == Some(0i32) ==> text::texts(errors@) =~= Seq::<Seq<char>>::empty());
            StepReport {
                name: name.to_owned(),
                duration_ms,
                exit_code,
                bytes,
                skipped: false,
                errors,
            }
        },
        Ending::NotStarted { error } => {
            let mut line: String = "spawn failed: ".to_owned();
            line.append(error.as_str());
            let mut errors: Vec<String> = Vec::new();
            errors.push(line);
            assert(text::texts(errors@) =~= seq!["spawn failed: "@ + error@]);
            StepReport {
                name: name.to_owned(),
                duration_ms,
                exit_code: -1,
                bytes: 0,
                skipped: false,
                errors,
            }
        },
    }
}

/// A process failed exactly if it did not start or did not exit with code zero, and a
/// report is never that of a step passed over. One that succeeded has no errors; one that
/// failed has the last lines of its standard error, in their order.
pub proof fn reports_tell_whether_a_process_failed(
    name: Seq<char>,
    duration_ms: int,
    ending: Ending,
    bytes: int,
)
    ensures
        ({
            let s = step_of(name, duration_ms, ending, bytes);
            &&& failed(s) <==> !(ending matches Ending::Exited { code, .. } && code == Some(0i32))
            &&& !failed(s) ==> s.errors.len() == 0
            &&& !s.skipped && s.name == name && s.duration_ms == duration_ms
            &&& ending matches Ending::Exited { stderr, .. } ==> s.bytes == bytes && (failed(s) ==> {
                let n = stderr@.len();
                &&& s.errors.len() == if n < STDERR_TAIL {
                    n
                } else {
                    STDERR_TAIL as nat
                }
                &&& forall|i: int|
                    0 <= i < s.errors.len() ==> #[trigger] s.errors[i] == stderr@[n
                        - s.errors.len() + i]@
            })
            &&& ending is NotStarted ==> s.errors.len() == 1 && s.bytes == 0
        }),
{
}

/// Whether a check passed: clean, or with warnings only.
pub open spec fn passes(code: Option<i32>) -> bool {
    code == Some(0i32) || code == Some(1i32)
}

/// Whether a file exists and its check found no errors.
pub fn integrity_clean(exists: bool, code: Option<i32>) -> (b: bool)
    ensures
        b == (exists && passes(code)),
{
    exists && match code {
        Some(c) => c == 0 || c == 1,
        None => false,
    }
}

/// Whether a step is among the steps to run.
pub fn want_step(steps: &Vec<String>, step: &str) -> (b: bool)
    ensures
        b == text::texts(steps@).contains(step@),
{
    text::holds(steps, step)
}

/// A file name of a kind of shard.
pub open spec fn shard_name(name: Seq<char>, kind: Seq<char>) -> bool {
    text::ends(name, "."@ + kind)
}

pub open spec fn shard_at(names: Seq<String>, kind: Seq<char>) -> spec_fn(int) -> bool {
    |i: int| shard_name(names[i]@, kind)
}

fn dotted(kind: &str) -> (s: String)
    ensures
        s@ == "."@ + kind@,
{
    let mut s: String = ".".to_owned();
    s.append(kind);
    s
}

/// Positions of the file names that are shards of a kind.
pub fn select_shards(names: &Vec<String>, kind: &str) -> (at: Vec<usize>)
    ensures
        at@.map_values(|i: usize| i as int) == tally::hits(names.len() as int, shard_at(names@, kind@)),
{
    let suffix = dotted(kind);
    let mut at: Vec<usize> = Vec::new();
    let mut i: usize = 0;
    assert(at@.map_values(|i: usize| i as int) =~= Seq::<int>::empty());
    while i < names.len()
        invariant
            i <= names.len(),
            suffix@ == "."@ + kind@,
            at@.map_values(|i: usize| i as int) == tally::hits(i as int, shard_at(names@, kind@)),
        decreases names.len() - i,
    {
        let ghost was = at@.map_values(|i: usize| i as int);
        if text::ends_with(names[i].as_str(), suffix.as_str()) {
            at.push(i);
            assert(at@.map_values(|i: usize| i as int) =~= was.push(i as int));
        }
        i = i + 1;
    }
    at
}

/// Whether a step's output looks complete: a manifest is there, and a shard of
/// the kind.
pub fn manifest_ok(manifest: bool, names: &Vec<String>, kind: &str) -> (b: bool)
    ensures
        b == (manifest && exists|i: int|
            0 <= i < names.len() && #[trigger] shard_at(names@, kind@)(i)),
{
    if !manifest {
        return false;
    }
    let suffix = dotted(kind);
    let mut i: usize = 0;
    while i < names.len()
        invariant
            i <= names.len(),
            manifest,
            suffix@ == "."@ + kind@,
            forall|k: int| 0 <= k < i ==> !#[trigger] shard_at(names@, kind@)(k),
        decreases names.len() - i,
    {
        if text::ends_with(names[i].as_str(), suffix.as_str()) {
            assert(shard_at(names@, kind@)(i as int));
            return true;
        }
        i = i + 1;
    }
    false
}

/// The check of one shard.
#[derive(Debug)]
pub struct ShardCheck {
    pub path: String,
    pub bytes: u64,
    pub ending: Ending,
}

pub open spec fn line_of(path: Seq<char>, line: Seq<char>) -> Seq<char> {
    path + ": "@ + line
}

/// What a failed check adds to the errors: its last lines, the last one first.
pub open spec fn shard_errors(c: ShardCheck) -> Seq<Seq<char>> {
    match c.ending {
        Ending::Exited { code, stderr } => if passes(code) {
            Seq::empty()
        } else {
            let last = text::last_of(text::texts(stderr@), SHARD_TAIL as int);
            Seq::new(last.len(), |i: int| line_of(c.path@, last[last.len() - 1 - i]))
        },
        Ending::NotStarted { error } => seq![line_of(c.path@, "spawn "@ + error@)],
    }
}

pub open spec fn shard_failed(c: ShardCheck) -> bool {
    match c.ending {
        Ending::Exited { code, .. } => !passes(code),
        Ending::NotStarted { .. } => true,
    }
}

pub open spec fn shard_bytes(checks: Seq<ShardCheck>) -> spec_fn(int) -> int {
    |i: int| checks[i].bytes as int
}

/// The errors of the first `n` checks.
pub open spec fn all_errors(checks: Seq<ShardCheck>, n: int) -> Seq<Seq<char>>
    decreases n,
{
    if n <= 0 {
        Seq::empty()
    } else {
        all_errors(checks, n - 1) + shard_errors(checks[n - 1])
    }
}

pub open spec fn shards_name(kind: Seq<char>) -> Seq<char> {
    "integrity-check-shards["@ + kind + "]"@
}

/// The report of a kind's shards: without any it is skipped; one that fails
/// fails it.
pub open spec fn shards_step(kind: Seq<char>, checks: Seq<ShardCheck>, duration_ms: int) -> Step {
    let n = checks.len() as int;
    if n == 0 {
        Step {
            name: shards_name(kind),
            duration_ms,
            exit_code: 0,
            bytes: 0,
            skipped: true,
            errors: seq!["no shards present"@],
        }
    } else {
        Step {
            name: shards_name(kind),
            duration_ms,
            exit_code: if exists|i: int| 0 <= i < n && shard_failed(#[trigger] checks[i]) {
                1
            } else {
                0
            },
            bytes: tally::total(n, shard_bytes(checks)),
            skipped: false,
            errors: all_errors(checks, n),
        }
    }
}

/// The check of a kind's shards fails exactly if that of one shard does: it did not
/// start, or it ended with a code other than clean and warnings only. Without shards it
/// is passed over.
pub proof fn shard_checks_fail_with_any_shard(
    kind: Seq<char>,
    checks: Seq<ShardCheck>,
    duration_ms: int,
)
    ensures
        ({
            let s = shards_step(kind, checks, duration_ms);
            &&& s.skipped <==> checks.len() == 0
            &&& failed(s) <==> exists|i: int|
                0 <= i < checks.len() && !((#[trigger] checks[i]).ending matches Ending::Exited {
                    code,
                    ..
                } && (code == Some(0i32) || code == Some(1i32)))
            &&& s.bytes == tally::total(checks.len() as int, |i: int| checks[i].bytes as int)
        }),
{
    let f = |i: int| checks[i].bytes as int;
    tally::lemma_total_same(checks.len() as int, shard_bytes(checks), f);
    assert forall|i: int| 0 <= i < checks.len() implies shard_failed(#[trigger] checks[i]) == !(
    checks[i].ending matches Ending::Exited { code, .. } && (code == Some(0i32) || code == Some(
        1i32,
    ))) by {}
}

fn shard_line(path: &str, line: &str) -> (s: String)
    ensures
        s@ == line_of(path@, line@),
{
    let mut s: String = path.to_owned();
    s.append(": ");
    s.append(line);
    s
}

fn note_shard(errors: &mut Vec<String>, c: &ShardCheck) -> (bad: bool)
    ensures
        bad == shard_failed(*c),
        text::texts(final(errors)@) == text::texts(old(errors)@) + shard_errors(*c),
{
    let ghost was = text::texts(errors@);
    match &c.ending {
        Ending::Exited { code, stderr } => {
            let fine = match code {
                Some(k) => *k == 0 || *k == 1,
                None => false,
            };
            if fine {
                assert(was + Seq::<Seq<char>>::empty() =~= was);
                return false;
            }
            let last = text::tail(stderr, SHARD_TAIL);
            let n: usize = last.len();
            let ghost want = shard_errors(*c);
            let mut i: usize = 0;
            assert(want.take(0) =~= Seq::<Seq<char>>::empty());
            assert(was + Seq::<Seq<char>>::empty() =~= was);
            while i < n
                invariant
                    i <= n,
                    n == last.len(),
                    want.len() == n,
                    forall|k: int|
                        0 <= k < n ==> #[trigger] want[k] == line_of(c.path@, last@[n - 1 - k]@),
                    text::texts(errors@) == was + want.take(i as int),
                decreases n - i,
            {
                let line = shard_line(c.path.as_str(), last[n - 1 - i].as_str());
                let ghost so_far = text::texts(errors@);
                errors.push(line);
                assert(text::texts(errors@) =~= so_far.push(want[i as int]));
                assert(want.take(i + 1) =~= want.take(i as int).push(want[i as int]));
                i = i + 1;
            }
            assert(want.take(n as int) =~= want);
            true
        },
        Ending::NotStarted { error } => {
            let mut reason: String = "spawn ".to_owned();
            reason.append(error.as_str());
            errors.push(shard_line(c.path.as_str(), reason.as_str()));
            assert(text::texts(errors@) =~= was + shard_errors(*c));
            true
        },
    }
}

proof fn lemma_bytes_monotone(checks: Seq<ShardCheck>, i: int, n: int)
    requires
        0 <= i <= n <= checks.len(),
    ensures
        0 <= tally::total(i, shard_bytes(checks)) <= tally::total(n, shard_bytes(checks)),
    decreases n,
{
    if i < n {
        lemma_bytes_monotone(checks, i, n - 1);
    } else if i > 0 {
        lemma_bytes_monotone(checks, i - 1, i - 1);
    }
}

/// Reports the checks of a kind's shards.
pub fn validate_shards(kind: &str, checks: &Vec<ShardCheck>, duration_ms: u128) -> (r: StepReport)
    requires
        tally::total(checks.len() as int, shard_bytes(checks@)) <= u64::MAX,
    ensures
        r@ == shards_step(kind@, checks@, duration_ms as int),
{
    let mut name: String = "integrity-check-shards[".to_owned();
    name.append(kind);
    name.append("]");
    let mut errors: Vec<String> = Vec::new();
    if checks.len() == 0 {
        text::put(&mut errors, "no shards present");
        assert(text::texts(errors@) =~= seq!["no shards present"@]);
        return StepReport { name, duration_ms, exit_code: 0, bytes: 0, skipped: true, errors };
    }
    let mut bytes: u64 = 0;
    let mut bad = false;
    let mut i: usize = 0;
    assert(text::texts(errors@) =~= Seq::<Seq<char>>::empty());
    while i < checks.len()
        invariant
            i <= checks.len(),
            tally::total(checks.len() as int, shard_bytes(checks@)) <= u64::MAX,
            bytes == tally::total(i as int, shard_bytes(checks@)),
            text::texts(errors@) == all_errors(checks@, i as int),
            bad == exists|k: int| 0 <= k < i && shard_failed(#[trigger] checks@[k]),
        decreases checks.len() - i,
    {
        proof {
            lemma_bytes_monotone(checks@, i + 1, checks.len() as int);
        }
        let ghost bad_before = bad;
        bytes = bytes + checks[i].bytes;
        let one = note_shard(&mut errors, &checks[i]);
        if one {
            bad = true;
            assert(shard_failed(checks@[i as int]));
        }
        i = i + 1;
    }
    StepReport {
        name,
        duration_ms,
        exit_code: if bad {
            1
        } else {
            0
        },
        bytes,
        skipped: false,
        errors,
    }
}

/// Reports the removal of a ticker's staging: it fails with any error.
pub fn cleanup_ticker_staging(removed: u64, errors: &Vec<String>, duration_ms: u128) -> (r:
    StepReport)
    ensures
        r@ == (Step {
            name: "cleanup-staging"@,
            duration_ms: duration_ms as int,
            exit_code: if errors.len() == 0 {
                0
            } else {
                1
            },
            bytes: removed as int,
            skipped: false,
            errors: text::texts(errors@),
        }),
{
    StepReport {
        name: "cleanup-staging".to_owned(),
        duration_ms,
        exit_code: if errors.len() == 0 {
            0
        } else {
            1
        },
        bytes: removed,
        skipped: false,
        errors: text::copy_strings(errors),
    }
}

/// Raw ticks, whole or partly downloaded.
pub open spec fn raw_tick(name: Seq<char>) -> bool {
    (text::ends(name, ".ticks"@) && name.len() > 6) || partial_tick(name)
}

pub open spec fn partial_tick(name: Seq<char>) -> bool {
    text::ends(name, ".ticks.partial"@)
}

/// Whether a file name is that of raw ticks, whole or partly downloaded.
pub fn is_raw_tick(name: &str) -> (b: bool)
    ensures
        b == raw_tick(name@),
{
    (text::ends_with(name, ".ticks") && name.unicode_len() > 6) || is_partial_tick(name)
}

/// Whether a file name is that of partly downloaded ticks.
pub fn is_partial_tick(name: &str) -> (b: bool)
    ensures
        b == partial_tick(name@),
{
    text::ends_with(name, ".ticks.partial")
}

pub open spec fn times(a: int, b: int) -> int {
    if a * b > u64::MAX {
        u64::MAX as int
    } else {
        a * b
    }
}

fn product(a: u64, b: u64) -> (p: u64)
    ensures
        p == times(a as int, b as int),
{
    assert(0 <= a * b <= u64::MAX * u64::MAX) by (nonlinear_arith)
        requires
            0 <= a <= u64::MAX,
            0 <= b <= u64::MAX,
    ;
    let wide: u128 = (a as u128) * (b as u128);
    if wide > u64::MAX as u128 {
        u64::MAX
    } else {
        wide as u64
    }
}

/// Products that saturate on the way saturate as a whole: the result is the product, or
/// the greatest number if that is less.
pub proof fn saturated_products_compose(a: int, b: int, c: int)
    requires
        0 <= a,
        0 <= b,
        0 <= c,
    ensures
        times(times(a, b), c) == if a * b * c > u64::MAX {
            u64::MAX as int
        } else {
            a * b * c
        },
{
    if a * b > u64::MAX {
        let m = u64::MAX as int;
        if c >= 1 {
            assert(a * b * c > m && m * c >= m) by (nonlinear_arith)
                requires
                    a * b > m,
                    c >= 1,
                    m > 0,
            ;
        } else {
            assert(a * b * c == 0) by (nonlinear_arith)
                requires
                    c == 0,
            ;
        }
    }
}

/// The raw bytes that a backfill may hold at once: one archive of the largest
/// size per exchange and worker, as far as a number can say.
pub fn projected_peak(bytes_per_exchange_day: u64, n_exchanges: usize, parallel: usize) -> (p: u64)
    ensures
        p == times(
            times(
                times(bytes_per_exchange_day as int, n_exchanges as int),
                if parallel > 1 {
                    parallel as int
                } else {
                    1
                },
            ),
            PEAK_FILE_DAYS as int,
        ),
{
    let workers: u64 = if parallel > 1 {
        parallel as u64
    } else {
        1
    };
    product(product(product(bytes_per_exchange_day, n_exchanges as u64), workers), PEAK_FILE_DAYS)
}

/// Whether a backfill may start: what it may hold fits the budget, or the free
/// space is not known.
pub fn preflight_disk_guard(projected: u64, budget: Option<u64>) -> (b: bool)
    ensures
        b == (match budget {
            Some(bytes) => projected <= bytes,
            None => true,
        }),
{
    match budget {
        Some(bytes) => projected <= bytes,
        None => true,
    }
}

/// Heavy processes that may run at once: as many as the machine has cores, at
/// least one and never more than memory allows.
pub fn heavy_permits(cores: Option<usize>) -> (n: usize)
    ensures
        n == (match cores {
            Some(c) => if c == 0 {
                1
            } else if c < HEAVY_WORK_RAM_CAP {
                c
            } else {
                HEAVY_WORK_RAM_CAP
            },
            None => HEAVY_WORK_RAM_CAP,
        }),
{
    match cores {
        Some(c) => if c == 0 {
            1
        } else if c < HEAVY_WORK_RAM_CAP {
            c
        } else {
            HEAVY_WORK_RAM_CAP
        },
        None => HEAVY_WORK_RAM_CAP,
    }
}

/// One exchange's answer to the availability probe.
#[derive(Debug)]
pub struct Coverage {
    pub exchange: String,
    pub has_data: bool,
}

pub open spec fn covers(answers: Seq<Coverage>, exchanges: Seq<Seq<char>>) -> spec_fn(int) -> bool {
    |i: int| answers[i].has_data && exchanges.contains(answers[i].exchange@)
}

/// The exchanges to use: those that report data, or all of them when the probe
/// gave no answer.
pub open spec fn active(answers: Option<Vec<Coverage>>, exchanges: Seq<Seq<char>>) -> Seq<
    Seq<char>,
> {
    match answers {
        None => exchanges,
        Some(a) => tally::hits(a@.len() as int, covers(a@, exchanges)).map_values(
            |i: int| a@[i].exchange@,
        ),
    }
}

/// An exchange is used exactly if it was asked about and reports data; or, where the
/// probe gave no answer, if it was asked about.
pub proof fn exchanges_with_data_are_used(
    answers: Option<Vec<Coverage>>,
    exchanges: Seq<Seq<char>>,
    x: Seq<char>,
)
    ensures
        active(answers, exchanges).contains(x) <==> exchanges.contains(x) && (answers matches Some(
            a,
        ) ==> exists|i: int|
            0 <= i < a@.len() && (#[trigger] a@[i]).exchange@ == x && a@[i].has_data),
{
    if let Some(a) = answers {
        let n = a@.len() as int;
        let p = covers(a@, exchanges);
        let at = tally::hits(n, p);
        tally::lemma_hits(n, p);
        let used = active(answers, exchanges);
        if used.contains(x) {
            let k = choose|k: int| 0 <= k < used.len() && used[k] == x;
            assert(p(at[k]));
            assert(a@[at[k]].exchange@ == x);
        }
        if exchanges.contains(x) && exists|i: int|
            0 <= i < a@.len() && (#[trigger] a@[i]).exchange@ == x && a@[i].has_data {
            let i = choose|i: int|
                0 <= i < a@.len() && (#[trigger] a@[i]).exchange@ == x && a@[i].has_data;
            assert(p(i));
            assert(at.contains(i));
            let k = choose|k: int| 0 <= k < at.len() && at[k] == i;
            assert(used[k] == x);
        }
    }
}

/// The exchanges to use after a probe.
pub fn probe_availability(answers: &Option<Vec<Coverage>>, exchanges: &Vec<String>) -> (r: Vec<
    String,
>)
    ensures
        text::texts(r@) == active(*answers, text::texts(exchanges@)),
{
    match answers {
        None => text::copy_strings(exchanges),
        Some(a) => {
            let mut out: Vec<String> = Vec::new();
            let ghost names = |i: int| a@[i].exchange@;
            let ghost p = covers(a@, text::texts(exchanges@));
            let mut i: usize = 0;
            assert(text::texts(out@) =~= tally::hits(0, p).map_values(names));
            while i < a.len()
                invariant
                    i <= a.len(),
                    names == (|i: int| a@[i].exchange@),
                    p == covers(a@, text::texts(exchanges@)),
                    text::texts(out@) == tally::hits(i as int, p).map_values(names),
                decreases a.len() - i,
            {
                let ghost was = text::texts(out@);
                if a[i].has_data && text::holds(exchanges, a[i].exchange.as_str()) {
                    text::put(&mut out, a[i].exchange.as_str());
                    assert(tally::hits(i + 1, p).map_values(names) =~= was.push(a@[i as int].exchange@));
                }
                i = i + 1;
            }
            out
        },
    }
}

pub open spec fn blank(line: Seq<char>) -> bool {
    text::trimmed(line).len() == 0
}

/// The last line that is not blank; nothing when all are.
pub open spec fn last_line(lines: Seq<Seq<char>>) -> Seq<char>
    decreases lines.len(),
{
    if lines.len() == 0 {
        Seq::empty()
    } else if blank(lines.last()) {
        last_line(lines.drop_last())
    } else {
        lines.last()
    }
}

/// Only blank lines follow the last line; it is empty only if all are blank.
pub proof fn only_blank_lines_follow_the_last(lines: Seq<Seq<char>>)
    ensures
        (last_line(lines).len() == 0 && forall|i: int|
            0 <= i < lines.len() ==> blank(#[trigger] lines[i])) || (exists|i: int|
            0 <= i < lines.len() && (#[trigger] lines[i]) == last_line(lines) && !blank(lines[i])
                && forall|j: int| i < j < lines.len() ==> blank(#[trigger] lines[j])),
    decreases lines.len(),
{
    if lines.len() > 0 {
        let head = lines.drop_last();
        let n = lines.len() - 1;
        only_blank_lines_follow_the_last(head);
        if !blank(lines.last()) {
            assert(lines[n] == last_line(lines));
        } else if exists|i: int|
            0 <= i < head.len() && (#[trigger] head[i]) == last_line(head) && !blank(head[i])
                && forall|j: int| i < j < head.len() ==> blank(#[trigger] head[j]) {
            let i = choose|i: int|
                0 <= i < head.len() && (#[trigger] head[i]) == last_line(head) && !blank(head[i])
                    && forall|j: int| i < j < head.len() ==> blank(#[trigger] head[j]);
            assert(lines[i] == head[i]);
            assert forall|j: int| i < j < lines.len() implies blank(#[trigger] lines[j]) by {
                if j < n {
                    assert(head[j] == lines[j]);
                }
            }
        } else {
            assert forall|i: int| 0 <= i < lines.len() implies blank(#[trigger] lines[i]) by {
                if i < n {
                    assert(head[i] == lines[i]);
                }
            }
        }
    }
}

/// The last line that is not blank.
pub fn last_nonblank(lines: &Vec<String>) -> (s: String)
    ensures
        s@ == last_line(text::texts(lines@)),
{
    let mut n: usize = lines.len();
    assert(text::texts(lines@).take(n as int) =~= text::texts(lines@));
    while n > 0
        invariant
            n <= lines.len(),
            last_line(text::texts(lines@)) == last_line(text::texts(lines@).take(n as int)),
        decreases n,
    {
        let ghost head = text::texts(lines@).take(n as int);
        assert(head.last() == lines@[n - 1]@);
        assert(head.drop_last() =~= text::texts(lines@).take(n - 1));
        if text::trim(lines[n - 1].as_str()).as_str().unicode_len() > 0 {
            return lines[n - 1].clone();
        }
        n = n - 1;
    }
    proof {
        reveal_strlit("");
        assert(""@ =~= Seq::<char>::empty());
    }
    "".to_owned()
}

/// What the tickers came to.
#[derive(Clone, Copy, Debug, PartialEq, Eq, Structural)]
pub enum Status {
    Completed,
    Failed,
    Skipped,
}

impl Status {
    /// How reports write the status.
    pub fn label(self) -> (s: &'static str)
        ensures
            s@ == (match self {
                Status::Completed => "ok"@,
                Status::Failed => "failed"@,
                Status::Skipped => "skipped"@,
            }),
    {
        match self {
            Status::Completed => "ok",
            Status::Failed => "failed",
            Status::Skipped => "skipped",
        }
    }

    /// The suffix of the progress marker that a finished ticker leaves.
    pub fn marker(self) -> (s: &'static str)
        ensures
            s@ == (match self {
                Status::Failed => "failed"@,
                _ => "done"@,
            }),
    {
        match self {
            Status::Failed => "failed",
            _ => "done",
        }
    }
}

pub open spec fn status_is(results: Seq<Status>, s: Status) -> spec_fn(int) -> bool {
    |i: int| results[i] == s
}

/// Totals of a backfill.
#[derive(Clone, Copy, Debug)]
pub struct Summary {
    pub total: usize,
    pub completed: usize,
    pub failed: usize,
    pub skipped: usize,
}

/// Totals of the tickers' statuses.
pub fn summarize(results: &Vec<Status>) -> (s: Summary)
    ensures
        s.total == results.len(),
        s.completed == tally::count(results.len() as int, status_is(results@, Status::Completed)),
        s.failed == tally::count(results.len() as int, status_is(results@, Status::Failed)),
        s.skipped == tally::count(results.len() as int, status_is(results@, Status::Skipped)),
{
    let mut s = Summary { total: results.len(), completed: 0, failed: 0, skipped: 0 };
    let mut i: usize = 0;
    while i < results.len()
        invariant
            i <= results.len(),
            s.total == results.len(),
            s.completed <= i,
            s.failed <= i,
            s.skipped <= i,
            s.completed == tally::count(i as int, status_is(results@, Status::Completed)),
            s.failed == tally::count(i as int, status_is(results@, Status::Failed)),
            s.skipped == tally::count(i as int, status_is(results@, Status::Skipped)),
        decreases results.len() - i,
    {
        match results[i] {
            Status::Completed => {
                s.completed = s.completed + 1;
            },
            Status::Failed => {
                s.failed = s.failed + 1;
            },
            Status::Skipped => {
                s.skipped = s.skipped + 1;
            },
        }
        i = i + 1;
    }
    s
}

/// Every ticker is counted once: as completed, as failed or as skipped.
pub proof fn every_ticker_is_counted_once(results: Seq<Status>, n: int)
    requires
        0 <= n <= results.len(),
    ensures
        tally::count(n, status_is(results, Status::Completed)) + tally::count(
            n,
            status_is(results, Status::Failed),
        ) + tally::count(n, status_is(results, Status::Skipped)) == n,
    decreases n,
{
    if n > 0 {
        every_ticker_is_counted_once(results, n - 1);
    }
}

/// Exit code of a backfill: 1 when a ticker failed.
pub fn exit_code(s: &Summary) -> (c: i32)
    ensures
        c == if s.failed > 0 {
            1int
        } else {
            0
        },
{
    if s.failed > 0 {
        1
    } else {
        0
    }
}

} // verus!
