//! The commands that a backfill runs, and where its files are.

use vstd::prelude::*;
use crate::calendar;
use crate::calendar::Date;
use crate::text;
use crate::backfill::run::Wanted;
use crate::backfill::steps;
use crate::backfill::steps::{Step, StepReport};

verus! {

/// Which steps a list of step names asks for.
pub fn wanted(names: &Vec<String>) -> (w: Wanted)
    ensures
        w.fetch == text::texts(names@).contains("fetch"@),
        w.t2i == text::texts(names@).contains("t2i"@),
        w.merge == text::texts(names@).contains("merge"@),
        w.s10 == text::texts(names@).contains("s10"@),
        w.renko == text::texts(names@).contains("renko"@),
        w.validate == text::texts(names@).contains("validate"@),
{
    Wanted {
        fetch: steps::want_step(names, "fetch"),
        t2i: steps::want_step(names, "t2i"),
        merge: steps::want_step(names, "merge"),
        s10: steps::want_step(names, "s10"),
        renko: steps::want_step(names, "renko"),
        validate: steps::want_step(names, "validate"),
    }
}

/// The labels of windows' first days.
pub open spec fn starts(windows: Seq<(Date, Date)>) -> Seq<Seq<char>> {
    Seq::new(windows.len(), |i: int| calendar::label(windows[i].0))
}

/// The labels of windows' first days.
pub fn window_starts(windows: &Vec<(Date, Date)>) -> (labels: Vec<String>)
    requires
        forall|i: int| 0 <= i < windows.len() ==> (#[trigger] windows@[i]).0.valid(),
    ensures
        text::texts(labels@) == starts(windows@),
{
    let mut labels: Vec<String> = Vec::new();
    let mut i: usize = 0;
    while i < windows.len()
        invariant
            i <= windows.len(),
            labels.len() == i,
            forall|k: int| 0 <= k < windows.len() ==> (#[trigger] windows@[k]).0.valid(),
            forall|k: int|
                0 <= k < i ==> (#[trigger] labels@[k])@ == calendar::label(windows@[k].0),
        decreases windows.len() - i,
    {
        assert(windows@[i as int].0.valid());
        labels.push(windows[i].0.to_label());
        i = i + 1;
    }
    assert(text::texts(labels@) =~= starts(windows@));
    labels
}

/// A ticker's two halves.
#[derive(Clone, Copy, Debug)]
pub struct Pair<'a> {
    pub base: &'a str,
    pub quote: &'a str,
}

/// Days of history that a probe looks at: at least one.
pub open spec fn probe_days(from: Date, to: Date) -> int {
    if to.ordinal() - from.ordinal() > 1 {
        to.ordinal() - from.ordinal()
    } else {
        1
    }
}

/// Arguments that ask the exchanges whether they cover a pair.
pub fn probe_args(config: &str, pair: Pair, exchanges: &Vec<String>, from: Date, to: Date) -> (args:
    Vec<String>)
    requires
        from.valid(),
        to.valid(),
    ensures
        text::texts(args@) == seq![
            config@,
            "--pairs"@,
            pair.base@,
            "--exchanges"@,
            text::joined_with(text::texts(exchanges@), ","@),
            "--quote"@,
            pair.quote@,
            "--days"@,
            text::decimal(probe_days(from, to)),
            "--probe"@,
        ],
{
    let span: i64 = calendar::days_since(to, from);
    let days: u64 = if span > 1 {
        span as u64
    } else {
        1
    };
    let mut args: Vec<String> = Vec::new();
    text::put(&mut args, config);
    text::put(&mut args, "--pairs");
    text::put(&mut args, pair.base);
    text::put(&mut args, "--exchanges");
    text::put(&mut args, text::join(exchanges, ",").as_str());
    text::put(&mut args, "--quote");
    text::put(&mut args, pair.quote);
    text::put(&mut args, "--days");
    text::put(&mut args, text::decimal_string(days).as_str());
    text::put(&mut args, "--probe");
    assert(text::texts(args@) =~= seq![
        config@,
        "--pairs"@,
        pair.base@,
        "--exchanges"@,
        text::joined_with(text::texts(exchanges@), ","@),
        "--quote"@,
        pair.quote@,
        "--days"@,
        text::decimal(probe_days(from, to)),
        "--probe"@,
    ]);
    args
}

/// Arguments that fetch a window of raw ticks.
pub fn fetch_args(
    config: &str,
    pair: Pair,
    exchanges: &Vec<String>,
    from: Date,
    to: Date,
) -> (args: Vec<String>)
    requires
        from.valid(),
        to.valid(),
    ensures
        text::texts(args@) == seq![
            config@,
            "--pairs"@,
            pair.base@,
            "--exchanges"@,
            text::joined_with(text::texts(exchanges@), ","@),
            "--quote"@,
            pair.quote@,
            "--from-date"@,
            calendar::label(from),
            "--to-date"@,
            calendar::label(to),
        ],
{
    let mut args: Vec<String> = Vec::new();
    text::put(&mut args, config);
    text::put(&mut args, "--pairs");
    text::put(&mut args, pair.base);
    text::put(&mut args, "--exchanges");
    text::put(&mut args, text::join(exchanges, ",").as_str());
    text::put(&mut args, "--quote");
    text::put(&mut args, pair.quote);
    text::put(&mut args, "--from-date");
    text::put(&mut args, from.to_label().as_str());
    text::put(&mut args, "--to-date");
    text::put(&mut args, to.to_label().as_str());
    assert(text::texts(args@) =~= seq![
        config@,
        "--pairs"@,
        pair.base@,
        "--exchanges"@,
        text::joined_with(text::texts(exchanges@), ","@),
        "--quote"@,
        pair.quote@,
        "--from-date"@,
        calendar::label(from),
        "--to-date"@,
        calendar::label(to),
    ]);
    args
}

/// Arguments that fold raw ticks of one exchange. Unless staging is to be kept,
/// each file goes as soon as it is folded.
pub fn fold_args(exchange: &str, pair: Pair, cycle_ms: u64, keep_staging: bool) -> (args: Vec<
    String,
>)
    ensures
        text::texts(args@) == {
            let base = seq![
                exchange@,
                pair.base@,
                pair.quote@,
                "--cycle-ms"@,
                text::decimal(cycle_ms as int),
            ];
            if keep_staging {
                base
            } else {
                base.push("--delete-after-convert"@)
            }
        },
{
    let mut args: Vec<String> = Vec::new();
    text::put(&mut args, exchange);
    text::put(&mut args, pair.base);
    text::put(&mut args, pair.quote);
    text::put(&mut args, "--cycle-ms");
    text::put(&mut args, text::decimal_string(cycle_ms).as_str());
    assert(text::texts(args@) =~= seq![
        exchange@,
        pair.base@,
        pair.quote@,
        "--cycle-ms"@,
        text::decimal(cycle_ms as int),
    ]);
    if !keep_staging {
        text::put(&mut args, "--delete-after-convert");
    }
    args
}

/// Arguments that merge the per-exchange indexes.
pub fn merge_args(pair: Pair, cycle_ms: u64) -> (args: Vec<String>)
    ensures
        text::texts(args@) == seq![
            pair.base@,
            pair.quote@,
            "--cycle-ms"@,
            text::decimal(cycle_ms as int),
        ],
{
    let mut args: Vec<String> = Vec::new();
    text::put(&mut args, pair.base);
    text::put(&mut args, pair.quote);
    text::put(&mut args, "--cycle-ms");
    text::put(&mut args, text::decimal_string(cycle_ms).as_str());
    assert(text::texts(args@) =~= seq![
        pair.base@,
        pair.quote@,
        "--cycle-ms"@,
        text::decimal(cycle_ms as int),
    ]);
    args
}

/// Arguments that derive the ten-second bars.
pub fn s10_args(config: &str, pair: Pair) -> (args: Vec<String>)
    ensures
        text::texts(args@) == seq![config@, pair.base@ + "-"@ + pair.quote@],
{
    let mut args: Vec<String> = Vec::new();
    text::put(&mut args, config);
    text::put(&mut args, dashed(pair).as_str());
    assert(text::texts(args@) =~= seq![config@, pair.base@ + "-"@ + pair.quote@]);
    args
}

/// Arguments that derive the renko bars.
pub fn renko_args(config: &str, pair: Pair) -> (args: Vec<String>)
    ensures
        text::texts(args@) == seq![config@, pair.base@, pair.quote@],
{
    let mut args: Vec<String> = Vec::new();
    text::put(&mut args, config);
    text::put(&mut args, pair.base);
    text::put(&mut args, pair.quote);
    assert(text::texts(args@) =~= seq![config@, pair.base@, pair.quote@]);
    args
}

/// Arguments that check a file of a kind. The strict check is for files that no
/// later step can mend.
pub fn check_args(kind: &str, path: &str, strict: bool) -> (args: Vec<String>)
    ensures
        text::texts(args@) == if strict {
            seq![kind@, path@, "--strict"@, "--json"@]
        } else {
            seq![kind@, path@, "--json"@]
        },
{
    let mut args: Vec<String> = Vec::new();
    text::put(&mut args, kind);
    text::put(&mut args, path);
    if strict {
        text::put(&mut args, "--strict");
    }
    text::put(&mut args, "--json");
    assert(text::texts(args@) =~= if strict {
        seq![kind@, path@, "--strict"@, "--json"@]
    } else {
        seq![kind@, path@, "--json"@]
    });
    args
}

fn dashed(pair: Pair) -> (s: String)
    ensures
        s@ == pair.base@ + "-"@ + pair.quote@,
{
    let mut s: String = pair.base.to_owned();
    s.append("-");
    s.append(pair.quote);
    s
}

/// The directory of an exchange's raw ticks of a pair.
pub fn ticks_dir(root: &str, exchange: &str, pair: Pair) -> (p: String)
    ensures
        p@ == text::joined(
            text::joined(text::joined(root@, "ticks"@), exchange@),
            pair.base@ + pair.quote@,
        ),
{
    let ticks = text::join_path(root, "ticks");
    let dir = text::join_path(ticks.as_str(), exchange);
    let mut leaf: String = pair.base.to_owned();
    leaf.append(pair.quote);
    text::join_path(dir.as_str(), leaf.as_str())
}

/// The index of a pair on one exchange.
pub fn exchange_idx(root: &str, exchange: &str, pair: Pair) -> (p: String)
    ensures
        p@ == text::joined(
            text::joined(text::joined(root@, "indexes"@), exchange@),
            pair.base@ + "-"@ + pair.quote@ + ".idx"@,
        ),
{
    let indexes = text::join_path(root, "indexes");
    let dir = text::join_path(indexes.as_str(), exchange);
    let mut leaf = dashed(pair);
    leaf.append(".idx");
    text::join_path(dir.as_str(), leaf.as_str())
}

/// The volatility file of a pair.
pub fn vol_path(root: &str, pair: Pair) -> (p: String)
    ensures
        p@ == text::joined(
            text::joined(root@, "vol"@),
            pair.base@ + "-"@ + pair.quote@ + ".vol"@,
        ),
{
    let dir = text::join_path(root, "vol");
    let mut leaf = dashed(pair);
    leaf.append(".vol");
    text::join_path(dir.as_str(), leaf.as_str())
}

/// The directory of progress markers.
pub fn progress_dir(root: &str) -> (p: String)
    ensures
        p@ == text::joined(text::joined(root@, "backfill"@), "progress"@),
{
    let dir = text::join_path(root, "backfill");
    text::join_path(dir.as_str(), "progress")
}

fn failed_step(name: &str, error: String) -> (r: StepReport)
    ensures
        r@ == (Step {
            name: name@,
            duration_ms: 0,
            exit_code: -1,
            bytes: 0,
            skipped: false,
            errors: seq![error@],
        }),
{
    let mut errors: Vec<String> = Vec::new();
    let ghost line = error@;
    errors.push(error);
    assert(text::texts(errors@) =~= seq![line]);
    StepReport {
        name: name.to_owned(),
        duration_ms: 0,
        exit_code: -1,
        bytes: 0,
        skipped: false,
        errors,
    }
}

/// The only step of a ticker that is no pair.
pub fn bad_ticker(ticker: &str) -> (r: StepReport)
    ensures
        r@ == (Step {
            name: "parse"@,
            duration_ms: 0,
            exit_code: -1,
            bytes: 0,
            skipped: false,
            errors: seq!["bad ticker "@ + ticker@ + ": expected BASE-QUOTE"@],
        }),
{
    let mut error: String = "bad ticker ".to_owned();
    error.append(ticker);
    error.append(": expected BASE-QUOTE");
    failed_step("parse", error)
}

/// The only step of a ticker whose worker panicked.
pub fn panicked() -> (r: StepReport)
    ensures
        r@ == (Step {
            name: "panic"@,
            duration_ms: 0,
            exit_code: -1,
            bytes: 0,
            skipped: false,
            errors: seq!["worker panicked"@],
        }),
{
    failed_step("panic", "worker panicked".to_owned())
}

} // verus!
