//! Backfilling a ticker.

use series_factory::backfill::commands::{
    bad_ticker, check_args, exchange_idx, fetch_args, fold_args, merge_args, panicked, probe_args,
    progress_dir, renko_args, s10_args, ticks_dir, vol_path, wanted, window_starts, Pair,
};
use series_factory::backfill::run::{Event, Phase, Plan, Run, Wanted};
use series_factory::backfill::steps::{
    cleanup_ticker_staging, exit_code, heavy_permits, integrity_clean, is_partial_tick,
    is_raw_tick, last_nonblank, manifest_ok, preflight_disk_guard, probe_availability,
    projected_peak, run_step, select_shards, summarize, validate_shards, want_step, Coverage,
    Ending, ShardCheck, Status, StepReport,
};
use series_factory::calendar::{
    missing_dates, month_windows, next_month, next_month_start, prev_month, Date,
};

fn d(year: i32, month: u32, day: u32) -> Date {
    Date::new(year, month, day).unwrap()
}

fn strings(items: &[&str]) -> Vec<String> {
    items.iter().map(|s| s.to_string()).collect()
}

#[test]
fn month_windows_full_calendar_months() {
    let w = month_windows(d(2024, 1, 1), d(2024, 3, 31));
    assert_eq!(
        w,
        vec![
            (d(2024, 1, 1), d(2024, 1, 31)),
            (d(2024, 2, 1), d(2024, 2, 29)),
            (d(2024, 3, 1), d(2024, 3, 31)),
        ]
    );
}

#[test]
fn month_windows_partial_first_and_last() {
    let w = month_windows(d(2023, 1, 15), d(2023, 3, 10));
    assert_eq!(
        w,
        vec![
            (d(2023, 1, 15), d(2023, 1, 31)),
            (d(2023, 2, 1), d(2023, 2, 28)),
            (d(2023, 3, 1), d(2023, 3, 10)),
        ]
    );
}

#[test]
fn month_windows_single_partial_month() {
    let w = month_windows(d(2025, 6, 5), d(2025, 6, 9));
    assert_eq!(w, vec![(d(2025, 6, 5), d(2025, 6, 9))]);
}

#[test]
fn month_windows_year_boundary() {
    let w = month_windows(d(2023, 12, 1), d(2024, 1, 31));
    assert_eq!(
        w,
        vec![(d(2023, 12, 1), d(2023, 12, 31)), (d(2024, 1, 1), d(2024, 1, 31))]
    );
}

#[test]
fn windows_cover_range_contiguously_no_gap_no_overlap() {
    let w = month_windows(d(2022, 3, 17), d(2023, 5, 2));
    assert_eq!(w.first().unwrap().0, d(2022, 3, 17));
    assert_eq!(w.last().unwrap().1, d(2023, 5, 2));
    let chrono_date = |x: Date| chrono::NaiveDate::from_ymd_opt(x.year, x.month, x.day).unwrap();
    for pair in w.windows(2) {
        assert_eq!(
            chrono_date(pair[1].0),
            chrono_date(pair[0].1) + chrono::Duration::days(1)
        );
    }
}

#[test]
fn windows_of_an_empty_range_and_neighbouring_months() {
    assert!(month_windows(d(2024, 2, 2), d(2024, 2, 1)).is_empty());
    assert_eq!(next_month_start(d(2024, 12, 31)), d(2025, 1, 1));
    assert_eq!(next_month(d(2024, 1, 1)), d(2024, 2, 1));
    assert_eq!(prev_month(d(2024, 1, 1)), d(2023, 12, 1));
    assert_eq!(
        missing_dates(&vec![d(2024, 2, 29)], d(2024, 2, 28), d(2024, 3, 1)),
        vec![d(2024, 2, 28), d(2024, 3, 1)]
    );
}

fn exited(code: Option<i32>, stderr: &[&str]) -> Ending {
    Ending::Exited { code, stderr: strings(stderr) }
}

fn ran(name: &str, code: i32) -> Event {
    Event::Ran { report: run_step(name, 5, &exited(Some(code), &["boom"]), 0) }
}

#[test]
fn steps_report_how_a_process_ended() {
    let ok = run_step("merge-idx", 7, &exited(Some(0), &["note"]), 9);
    assert_eq!((ok.exit_code, ok.bytes, ok.skipped, ok.errors.len()), (0, 9, false, 0));
    let failed = run_step("merge-idx", 7, &exited(Some(3), &["a", "b"]), 9);
    assert_eq!((failed.exit_code, failed.errors), (3, strings(&["a", "b"])));
    let killed = run_step("merge-idx", 7, &exited(None, &[]), 9);
    assert_eq!((killed.exit_code, killed.errors.len()), (-1, 0));
    let lost = run_step("merge-idx", 7, &Ending::NotStarted { error: "gone".to_string() }, 9);
    assert_eq!((lost.exit_code, lost.bytes), (-1, 0));
    assert_eq!(lost.errors, strings(&["spawn failed: gone"]));
    let lines: Vec<String> = (0..25).map(|i| format!("e{i}")).collect();
    let long = run_step("x", 0, &Ending::Exited { code: Some(1), stderr: lines }, 0);
    assert_eq!(long.errors.len(), 20, "the last lines are kept");
    assert_eq!(long.errors[0], "e5");
}

#[test]
fn shards_are_selected_by_kind() {
    let names = strings(&["2024-01-02.idx", "notes.txt", "2024-01-03.idx", "2024-01-03.s10"]);
    assert_eq!(select_shards(&names, "idx"), vec![0, 2]);
    assert!(manifest_ok(true, &names, "s10"));
    assert!(!manifest_ok(false, &names, "s10"));
    assert!(!manifest_ok(true, &names, "renko"));
    assert!(integrity_clean(true, Some(0)));
    assert!(!integrity_clean(false, Some(0)));
    assert!(!integrity_clean(true, Some(2)));
    assert!(want_step(&strings(&["fetch", "merge"]), "merge"));
    assert!(!want_step(&strings(&["fetch", "merge"]), "s10"));
}

#[test]
fn shard_checks_add_up() {
    let none = validate_shards("idx", &vec![], 3);
    assert!(none.skipped);
    assert_eq!(none.errors, strings(&["no shards present"]));
    let check = |path: &str, ending: Ending| ShardCheck { path: path.to_string(), bytes: 10, ending };
    let good = validate_shards("idx", &vec![check("a", exited(Some(0), &[]))], 3);
    assert_eq!((good.exit_code, good.bytes, good.errors.len()), (0, 10, 0));
    let bad = validate_shards(
        "idx",
        &vec![check("a", exited(Some(0), &[])), check("b", exited(Some(2), &["x", "y"]))],
        3,
    );
    assert_eq!((bad.exit_code, bad.bytes), (1, 20));
    assert_eq!(bad.errors.len(), 2);
    assert!(bad.errors[0].contains('b') && bad.errors[0].contains('y'));
    assert_eq!(good.name, bad.name);
}

#[test]
fn raw_ticks_are_told_by_their_names() {
    assert!(is_raw_tick("2024-01-02.ticks"));
    assert!(!is_raw_tick(".ticks"));
    assert!(is_raw_tick("x.ticks.partial") && is_partial_tick("x.ticks.partial"));
    assert!(!is_partial_tick("2024-01-02.ticks"));
    assert!(!is_raw_tick("2024-01-02.idx"));
}

#[test]
fn disk_space_is_projected_and_guarded() {
    assert_eq!(projected_peak(10, 3, 2), 10 * 3 * 2 * 31);
    assert_eq!(projected_peak(10, 3, 0), 10 * 3 * 31);
    assert_eq!(projected_peak(u64::MAX, 2, 2), u64::MAX);
    assert!(preflight_disk_guard(100, None));
    assert!(preflight_disk_guard(100, Some(100)));
    assert!(!preflight_disk_guard(101, Some(100)));
    assert_eq!(heavy_permits(Some(2)), 2);
    assert_eq!(heavy_permits(Some(64)), 4);
    assert!(heavy_permits(None) >= 1);
}

#[test]
fn coverage_decides_on_the_exchanges() {
    let all = strings(&["binance", "kraken"]);
    assert_eq!(probe_availability(&None, &all), all);
    let cover = |exchange: &str, has_data: bool| Coverage { exchange: exchange.to_string(), has_data };
    let some = probe_availability(
        &Some(vec![cover("kraken", true), cover("binance", false), cover("okx", true)]),
        &all,
    );
    assert_eq!(some, strings(&["kraken"]));
    assert_eq!(last_nonblank(&strings(&["{}", "  ", ""])), "{}");
    assert_eq!(last_nonblank(&vec![]), "");
}

#[test]
fn results_are_summed_up() {
    let s = summarize(&vec![Status::Completed, Status::Failed, Status::Skipped, Status::Completed]);
    assert_eq!((s.total, s.completed, s.failed, s.skipped), (4, 2, 1, 1));
    assert_eq!(exit_code(&s), 1);
    assert_eq!(exit_code(&summarize(&vec![Status::Skipped])), 0);
    assert_eq!(Status::Failed.label(), "failed");
    assert_eq!(Status::Skipped.label(), "skipped");
}

fn plan() -> Plan {
    Plan {
        wanted: Wanted {
            fetch: true,
            t2i: true,
            merge: true,
            s10: true,
            renko: true,
            validate: true,
        },
        resume: false,
        keep_staging: false,
        skip_probe: false,
    }
}

fn start(plan: Plan) -> Run {
    Run::new(plan, strings(&["binance", "kraken"]), strings(&["2024-01-01", "2024-02-01"]))
}

fn fold(codes: [i32; 2]) -> Event {
    Event::FoldedMonth {
        reports: codes
            .iter()
            .map(|&c| run_step("t2i", 5, &exited(Some(c), &["boom"]), 0))
            .collect(),
    }
}

fn names(steps: &[StepReport]) -> Vec<&str> {
    steps.iter().map(|s| s.name.as_str()).collect()
}

#[test]
fn tickers_run_through_every_phase() {
    let mut r = start(plan());
    assert_eq!(r.phase, Phase::Probe);
    r.advance(Event::Probed { active: strings(&["binance", "kraken"]) });
    assert_eq!(r.phase, Phase::DropStale);
    r.advance(Event::Performed);
    for month in 0..2 {
        assert_eq!(r.phase, Phase::Fetch { month });
        r.advance(ran("fetch", 0));
        assert_eq!(r.phase, Phase::Fold { month });
        r.advance(fold([0, 0]));
        r.advance(Event::Freed { bytes: 4 });
    }
    assert_eq!(r.phase, Phase::SizeFolded { failed: false });
    r.advance(Event::Sized { sizes: vec![7, 8] });
    for phase in [Phase::Merge, Phase::MergedShards, Phase::CleanupMerged, Phase::S10, Phase::Renko] {
        assert_eq!(r.phase, phase);
        r.advance(ran("x", 0));
    }
    for phase in [Phase::S10Shards, Phase::RenkoShards] {
        assert_eq!(r.phase, phase);
        r.advance(ran("x", 0));
    }
    assert_eq!(r.phase, Phase::Vol);
    r.advance(Event::NoFile);
    assert_eq!(r.status(), Some(Status::Completed));
    assert_eq!(r.skip_reason(), None);
    assert_eq!(
        names(&r.steps)[..5],
        [
            "fetch-crypto-history[monthly]",
            "ticks-to-idx[binance]",
            "ticks-to-idx[kraken]",
            "merge-idx",
            "integrity-check-shards[idx]",
        ][..]
    );
    assert_eq!(r.steps[0].bytes, 8);
    assert_eq!(r.steps[2].bytes, 8);
}

#[test]
fn tickers_without_coverage_are_skipped() {
    let mut r = start(plan());
    r.advance(Event::Probed { active: vec![] });
    assert_eq!(r.status(), Some(Status::Skipped));
    assert_eq!(r.skip_reason(), Some("no archive coverage in any exchange"));
}

#[test]
fn failing_folds_blame_their_exchange_and_clean_up() {
    let mut p = plan();
    p.skip_probe = true;
    let mut r = start(p);
    r.advance(Event::Performed);
    r.advance(ran("fetch", 0));
    r.advance(fold([0, 3]));
    assert_eq!(r.phase, Phase::Sweep { month: 0, failed: true });
    r.advance(Event::Freed { bytes: 1 });
    r.advance(Event::Sized { sizes: vec![0, 0] });
    assert_eq!(r.phase, Phase::CleanupFailed);
    assert_eq!((r.steps[1].exit_code, r.steps[2].exit_code), (0, 1));
    assert_eq!(r.fold_errors, strings(&["2024-01-01 [kraken]: t2i exit 3", "boom"]));
    r.advance(ran("cleanup", 0));
    assert_eq!(r.status(), Some(Status::Failed));
}

#[test]
fn kept_staging_ends_a_failure_at_once() {
    let mut p = plan();
    p.skip_probe = true;
    p.keep_staging = true;
    let mut r = start(p);
    r.advance(Event::Performed);
    r.advance(Event::Ran {
        report: run_step("fetch", 1, &Ending::NotStarted { error: "gone".to_string() }, 0),
    });
    r.advance(Event::Sized { sizes: vec![0, 0] });
    assert_eq!(r.status(), Some(Status::Failed));
    assert_eq!(r.steps[0].exit_code, -1);
}

#[test]
fn months_that_an_exchange_lacks_are_only_noted() {
    let mut p = plan();
    p.skip_probe = true;
    let mut r = start(p);
    r.advance(Event::Performed);
    r.advance(ran("fetch", 1));
    assert_eq!(r.phase, Phase::Fold { month: 0 });
    assert_eq!(r.fetch_errors, strings(&["2024-01-01: monthly fetch exit 1"]));
}

#[test]
fn resumed_tickers_skip_what_is_complete() {
    let mut p = plan();
    p.skip_probe = true;
    p.resume = true;
    let mut r = start(p);
    assert_eq!(r.phase, Phase::CheckFolded);
    r.advance(Event::Folded { clean: true, sizes: vec![1, 2] });
    r.advance(Event::Performed);
    assert_eq!(r.phase, Phase::CheckMerge);
    assert!(r.steps[0].skipped && r.steps[1].skipped);
    r.advance(Event::Output { complete: true, bytes: 9 });
    assert_eq!(r.phase, Phase::MergedShards);
    r.advance(ran("x", 0));
    r.advance(ran("x", 0));
    assert_eq!(r.phase, Phase::CheckS10);
    r.advance(Event::Output { complete: false, bytes: 0 });
    assert_eq!(r.phase, Phase::S10);
}

#[test]
fn failing_merges_fail_the_ticker() {
    let mut p = plan();
    p.wanted = wanted(&strings(&["merge", "s10"]));
    let mut r = start(p);
    assert_eq!(r.phase, Phase::Merge);
    r.advance(ran("merge", 1));
    assert_eq!(r.phase, Phase::CleanupFailed);
    r.advance(ran("cleanup", 0));
    assert_eq!(r.status(), Some(Status::Failed));
}

#[test]
fn commands_are_spelled_out() {
    let pair = Pair { base: "BTC", quote: "USDT" };
    let two = strings(&["binance", "kraken"]);
    assert_eq!(
        fetch_args("c.yml", pair, &two, d(2024, 1, 1), d(2024, 1, 31)).join(" "),
        "c.yml --pairs BTC --exchanges binance,kraken --quote USDT --from-date 2024-01-01 \
         --to-date 2024-01-31"
    );
    let probe = probe_args("c.yml", pair, &two, d(2024, 1, 1), d(2024, 1, 31)).join(" ");
    assert!(probe.starts_with("c.yml --pairs BTC --exchanges binance,kraken --quote USDT --days 3"));
    assert!(probe.ends_with(" --probe"));
    assert_eq!(
        fold_args("kraken", pair, 100, false).join(" "),
        "kraken BTC USDT --cycle-ms 100 --delete-after-convert"
    );
    assert_eq!(fold_args("kraken", pair, 100, true).join(" "), "kraken BTC USDT --cycle-ms 100");
    assert_eq!(merge_args(pair, 100).join(" "), "BTC USDT --cycle-ms 100");
    assert_eq!(s10_args("c.yml", pair).join(" "), "c.yml BTC-USDT");
    assert_eq!(renko_args("c.yml", pair).join(" "), "c.yml BTC USDT");
    assert_eq!(check_args("idx", "p", true).join(" "), "idx p --strict --json");
    assert_eq!(check_args("idx", "p", false).join(" "), "idx p --json");
    assert_eq!(ticks_dir("/d", "kraken", pair), "/d/ticks/kraken/BTCUSDT");
    assert_eq!(exchange_idx("/d", "kraken", pair), "/d/indexes/kraken/BTC-USDT.idx");
    assert_eq!(vol_path("/d", pair), "/d/vol/BTC-USDT.vol");
    assert_eq!(progress_dir("/d"), "/d/backfill/progress");
    assert_eq!(window_starts(&vec![(d(2024, 1, 5), d(2024, 1, 31))]), strings(&["2024-01-05"]));
}

#[test]
fn tickers_that_cannot_start_say_why() {
    let bad = bad_ticker("BTC");
    assert_eq!((bad.name.as_str(), bad.exit_code), ("parse", -1));
    assert_eq!(bad.errors, strings(&["bad ticker BTC: expected BASE-QUOTE"]));
    assert_eq!(panicked().errors, strings(&["worker panicked"]));
    let swept = cleanup_ticker_staging(9, &vec![], 4);
    assert_eq!((swept.exit_code, swept.bytes), (0, 9));
    let stuck = cleanup_ticker_staging(9, &strings(&["busy"]), 4);
    assert_eq!(stuck.errors, strings(&["busy"]));
}
