//! Dates, text, numbers, and the smaller tools.

use series_factory::calendar::{pad, Date};
use series_factory::fetch::{
    archive_address, count_fetches, history_window, now_unix, plan_history, probe_step,
    probe_template, template_in, unix_seconds, HistoryPlan, ProbeStep,
};
use series_factory::glue::{
    check_sharded, count_severities, downcast_panic, exit_code, exit_code_for, note,
    scan_stream, severity, Severity, Status,
};
use series_factory::heal::{heal_mode, HealMode};
use series_factory::ieee::{clamp, max_of, min_of, Double, Single};
use series_factory::latency::{
    audit_pair, exit_status, idx_tip, lag, level_max, note_message, Level, Note, Tips,
};
use series_factory::merge::{
    configured_weights, find_weight, needs_rotation, refill_outcome, resolve_weight,
    resolve_weights, shard_entry_for_idx, sim_offset, split_weight, weighted_names, weights_in,
    CycleClock, HeapEntry, MergeQueue, ReadOutcome,
};
use series_factory::text;
use series_factory::yaml::{find, parse_yaml, Yaml};

fn d(x: f64) -> Double {
    Double::from_bits(x.to_bits())
}

fn f(x: Double) -> f64 {
    f64::from_bits(x.bits)
}

fn strings(items: &[&str]) -> Vec<String> {
    items.iter().map(|s| s.to_string()).collect()
}

fn date(year: i32, month: u32, day: u32) -> Date {
    Date::new(year, month, day).unwrap()
}

#[test]
fn doubles_compare_as_numbers() {
    let values = [
        f64::NEG_INFINITY,
        -1.5,
        -0.0,
        0.0,
        f64::MIN_POSITIVE / 2.0,
        1.0,
        f64::MAX,
        f64::INFINITY,
        f64::NAN,
    ];
    for &a in &values {
        assert_eq!(d(a).is_nan(), a.is_nan());
        assert_eq!(d(a).is_finite(), a.is_finite());
        assert_eq!(d(a).is_positive(), a > 0.0);
        for &b in &values {
            assert_eq!(d(a).lt(d(b)), a < b, "{a} < {b}");
            assert_eq!(d(a).le(d(b)), a <= b, "{a} <= {b}");
            assert_eq!(d(a).num_eq(d(b)), a == b, "{a} == {b}");
            if !a.is_nan() && !b.is_nan() {
                assert_eq!(f(max_of(d(a), d(b))), a.max(b));
                assert_eq!(f(min_of(d(a), d(b))), a.min(b));
            }
        }
    }
    assert_eq!(f(clamp(d(5.0), d(0.0), d(4.0))), 4.0);
    assert_eq!(f(clamp(d(-5.0), d(0.0), d(4.0))), 0.0);
    assert_eq!(f(clamp(d(2.0), d(0.0), d(4.0))), 2.0);
}

#[test]
fn singles_compare_as_numbers() {
    let s = |x: f32| Single::from_bits(x.to_bits());
    let values = [-2.0f32, -0.0, 0.0, 0.5, f32::INFINITY, f32::NAN];
    for &a in &values {
        assert_eq!(s(a).is_nan(), a.is_nan());
        assert_eq!(s(a).is_finite(), a.is_finite());
        assert_eq!(s(a).is_positive(), a > 0.0);
        for &b in &values {
            assert_eq!(s(a).lt(s(b)), a < b);
            assert_eq!(s(a).le(s(b)), a <= b);
        }
    }
}

#[test]
fn dates_follow_the_calendar() {
    assert!(Date::new(2023, 2, 29).is_none());
    assert!(Date::new(2024, 2, 29).is_some());
    assert!(Date::new(2024, 13, 1).is_none());
    assert!(Date::new(2024, 1, 0).is_none());
    assert!(Date::new(262_143, 1, 1).is_none());
    assert_eq!(Date::of_instant(0), Some(date(1970, 1, 1)));
    assert_eq!(Date::of_instant(-1), Some(date(1969, 12, 31)));
    assert_eq!(Date::of_instant(1_709_164_800_000), Some(date(2024, 2, 29)));
    assert_eq!(Date::of_instant(i64::MAX), None);
    assert_eq!(date(2024, 2, 9).to_label(), "2024-02-09");
    assert_eq!(date(7, 1, 1).to_label(), "0007-01-01");
    assert_eq!(date(-5, 1, 1).to_label(), "-0005-01-01");
    assert_eq!(date(12_345, 1, 1).to_label(), "+12345-01-01");
    assert!(date(2024, 1, 31).before(date(2024, 2, 1)));
    assert!(!date(2024, 2, 1).before(date(2024, 2, 1)));
    assert_eq!(date(2024, 1, 31).later(date(2024, 2, 1)), date(2024, 2, 1));
    assert_eq!(date(2024, 1, 31).earlier(date(2024, 2, 1)), date(2024, 1, 31));
}

#[test]
fn days_are_counted_back_and_forth() {
    let d = date(2024, 3, 1);
    assert_eq!(d.days_before(366), Some(date(2023, 3, 1)));
    assert_eq!(d.days_before(-1), Some(date(2024, 3, 2)));
    assert_eq!(d.days_before(i64::MIN), None);
    assert_eq!(d.days_after(date(2024, 2, 28)), 2);
    assert_eq!(date(2024, 2, 28).days_after(d), -2);
}

#[test]
fn labels_agree_with_the_calendar_crate() {
    for (y, m, day) in [(1970, 1, 1), (2024, 2, 29), (0, 12, 31), (-1, 3, 4), (9999, 10, 10), (10000, 1, 2)] {
        let theirs = chrono::NaiveDate::from_ymd_opt(y, m, day).unwrap();
        assert_eq!(date(y, m, day).to_label(), theirs.format("%Y-%m-%d").to_string());
    }
}

#[test]
fn text_is_split_trimmed_and_joined() {
    assert_eq!(text::split_csv(" a, b ,,c "), strings(&["a", "b", "c"]));
    assert_eq!(text::trim("\u{2003}\t x y \u{a0}\n"), "x y");
    assert_eq!(text::trim("  "), "");
    for c in ('\u{0}'..='\u{10ffff}').filter(|c| c.is_whitespace()) {
        assert_eq!(text::trim(&format!("{c}x{c}")), "x");
    }
    for c in ['\u{200b}', '\u{feff}', '\u{8}', '\u{e}', '\u{180e}'] {
        assert_eq!(text::trim(&format!("{c}")), format!("{c}"));
    }
    for n in [0, 7, 10, 99, 1_234_567_890, u64::MAX] {
        assert_eq!(text::decimal_string(n), format!("{n}"));
    }
    assert_eq!(text::parse_csv(None, &strings(&["z"])), strings(&["z"]));
    assert_eq!(text::parse_csv(Some("a,b"), &strings(&["z"])), strings(&["a", "b"]));
    assert_eq!(text::join(&strings(&["a", "b"]), ", "), "a, b");
    assert_eq!(text::join(&vec![], ", "), "");
    assert!(text::same("abc", "abc") && !text::same("abc", "abd"));
    assert!(text::holds(&strings(&["a", "b"]), "b"));
    assert!(text::contains("abcabd", "abd") && !text::contains("ab", "abc"));
    assert!(text::contains("ab", ""));
    assert!(text::ends_with("a.idx", ".idx") && !text::ends_with("idx", ".idx"));
    assert_eq!(text::tail(&strings(&["a", "b", "c"]), 2), strings(&["b", "c"]));
    assert_eq!(text::tail(&strings(&["a"]), 2), strings(&["a"]));
}

#[test]
fn numbers_are_read_and_written() {
    assert_eq!(text::parse_u64("18446744073709551615"), Some(u64::MAX));
    assert_eq!(text::parse_u64("18446744073709551616"), None);
    assert_eq!(text::parse_u64("+7"), Some(7));
    assert_eq!(text::parse_u64(""), None);
    assert_eq!(text::parse_u64("-1"), None);
    assert_eq!(text::parse_u64("1x"), None);
    assert_eq!(text::parse_ticker_filter(Some("1, x,3")), Some(vec![1, 3]));
    assert_eq!(text::parse_ticker_filter(None), None);
    assert_eq!(text::signed_string(-17), "-17");
    assert_eq!(text::signed_string(i32::MIN), "-2147483648");
    assert_eq!(text::signed_i64(i64::MIN), "-9223372036854775808");
    assert_eq!(text::signed_i64(0), "0");
    assert_eq!(text::decimal_wide(u128::MAX), format!("{}", u128::MAX));
    assert_eq!(text::signed_wide(-18_446_744_073_709_551_616), "-18446744073709551616");
    assert_eq!(pad(7, 2), "07");
    assert_eq!(pad(2_024, 2), "2024");
    assert_eq!(pad(0, 4), "0000");
}

#[test]
fn parts_of_a_text_are_replaced() {
    assert_eq!(text::replace("a{x}b{x}", "{x}", "1"), "a1b1");
    assert_eq!(text::replace("aaa", "aa", "b"), "ba", "from the left, without overlap");
    assert_eq!(text::replace("abc", "d", "e"), "abc");
    assert_eq!(text::replace("", "d", "e"), "");
    assert_eq!(text::replace("xx", "x", "xx"), "xxxx", "what was put in is not searched");
}

#[test]
fn archives_are_addressed_by_symbol_and_month() {
    let template = "https://host/{sym}/{sym}-{y:04}-{m:02}.zip";
    assert_eq!(
        archive_address(template, "BTCUSDT", date(2024, 3, 1)),
        "https://host/BTCUSDT/BTCUSDT-2024-03.zip"
    );
    assert_eq!(archive_address("{y:04}", "X", date(987, 12, 1)), "0987");
    assert_eq!(archive_address("{y:04}", "X", date(-7, 1, 1)), format!("{:04}", -7));
    assert_eq!(archive_address("{y:04}", "X", date(12_345, 1, 1)), "12345");
}

#[test]
fn paths_are_joined_like_the_system_does() {
    assert_eq!(text::join_path("/a", "b"), "/a/b");
    assert_eq!(text::join_path("/a/", "b"), "/a/b");
    assert_eq!(text::join_path("/a", "/b"), "/b");
    assert_eq!(text::join_path("", "b"), "b");
}

#[test]
fn probing_goes_forward_and_then_back() {
    let (from, to) = (date(2024, 1, 15), date(2024, 4, 2));
    let step = |answers: &[bool]| probe_step(from, to, true, &answers.to_vec());
    assert_eq!(step(&[]), ProbeStep::Ask { month: date(2024, 1, 1) });
    assert_eq!(step(&[false]), ProbeStep::Ask { month: date(2024, 2, 1) });
    assert_eq!(step(&[false, true]), ProbeStep::Ask { month: date(2024, 4, 1) });
    assert_eq!(step(&[false, true, false]), ProbeStep::Ask { month: date(2024, 3, 1) });
    assert_eq!(
        step(&[false, true, false, true]),
        ProbeStep::Done {
            has_data: true,
            first: Some(date(2024, 2, 1)),
            last: Some(date(2024, 3, 1)),
        }
    );
    assert_eq!(
        step(&[false, false, false, false]),
        ProbeStep::Done { has_data: false, first: None, last: None }
    );
    assert_eq!(
        probe_step(from, to, false, &vec![]),
        ProbeStep::Done { has_data: true, first: None, last: None }
    );
    let end = date(262_142, 12, 5);
    assert_eq!(
        probe_step(end, end, true, &vec![]),
        ProbeStep::Ask { month: date(262_142, 12, 1) }
    );
}

#[test]
fn histories_are_planned() {
    assert_eq!(history_window(None, None, 5_000_000), (2_408_000, 5_000_000));
    assert_eq!(history_window(Some(7), Some(9), 5_000_000), (7, 9));
    assert_eq!(history_window(Some(7), Some(i64::MIN), 0), (7, i64::MIN));
    assert_eq!(unix_seconds(Some(12)), 12);
    assert_eq!(unix_seconds(None), 0);
    assert!(now_unix() > 1_700_000_000);
    assert!(matches!(plan_history(false, &vec![1], &vec![d(1.0)]), HistoryPlan::BadStatus));
    assert!(matches!(plan_history(true, &vec![], &vec![]), HistoryPlan::Empty));
    assert!(matches!(plan_history(true, &vec![1], &vec![]), HistoryPlan::Mismatch));
    assert!(matches!(plan_history(true, &vec![1], &vec![d(0.0)]), HistoryPlan::AllCorrupt));
    match plan_history(true, &vec![1, 2, 3], &vec![d(1.0), d(f64::NAN), d(2.0)]) {
        HistoryPlan::Rows(rows) => assert_eq!(rows, vec![(0, 1000), (2, 3000)]),
        _ => panic!("two rows are usable"),
    }
    assert_eq!(count_fetches(&vec![true, false, true]), (2, 1));
}

#[test]
fn streams_are_scanned_up_to_the_first_step_back() {
    let s = scan_stream(&vec![0, 90_000, 180_001, 180_000, 999_999]);
    assert_eq!((s.records, s.max_gap_ms, s.gap_violations), (3, 90_001, 1));
    assert_eq!(s.monotone_violation_ix, Some(3));
    let clean = scan_stream(&vec![0, 0, 5]);
    assert_eq!((clean.records, clean.monotone_violation_ix), (3, None));
}

#[test]
fn glued_tickers_are_judged() {
    let days = vec![date(2024, 1, 1), date(2024, 1, 2)];
    let holed = vec![date(2024, 1, 1), date(2024, 1, 3)];
    assert_eq!(check_sharded(&days, &vec![0, 5]).status, Status::Clean);
    assert_eq!(check_sharded(&vec![], &vec![]).status, Status::MissingLive);
    assert_eq!(check_sharded(&days, &vec![]).status, Status::Empty);
    assert_eq!(check_sharded(&days, &vec![5, 0]).status, Status::MonotoneViolation);
    let r = check_sharded(&holed, &vec![0, 5]);
    assert_eq!((r.status, r.missing), (Status::MissingShards, vec![date(2024, 1, 2)]));
    assert_eq!(check_sharded(&days, &vec![0, 100_000]).status, Status::Gap);
    assert_eq!(severity("ok"), Severity::Pass);
    assert_eq!(severity("insufficient_samples"), Severity::Warn);
    assert_eq!(severity("panic"), Severity::Error);
    assert_eq!(exit_code(0, 1, false), 1);
    assert_eq!(exit_code(0, 1, true), 2);
    assert_eq!(exit_code(1, 0, false), 2);
    assert_eq!(exit_code(0, 0, true), 0);
    assert_eq!(exit_code_for("gap", true), 2);
    assert_eq!(exit_code_for("ok", true), 0);
    let c = count_severities(&strings(&["ok", "gap", "monotone_violation", "ok"]));
    assert_eq!((c.passed, c.warned, c.errored), (2, 1, 1));
    assert_eq!(downcast_panic(Some("a"), None), "a");
    assert_eq!(downcast_panic(None, Some("b")), "b");
    assert_eq!(downcast_panic(None, None), "unknown panic");
}

#[test]
fn glued_tickers_are_remarked_on() {
    let days = vec![date(2024, 1, 1), date(2024, 1, 2)];
    let holed = vec![date(2024, 1, 1), date(2024, 1, 4)];
    let said = |dates: &Vec<Date>, ts: &Vec<i64>| {
        note(&check_sharded(dates, ts), "/data/indexes/7", dates).unwrap_or_default()
    };
    assert_eq!(note(&check_sharded(&days, &vec![0, 5]), "/d", &days), None);
    assert_eq!(said(&vec![], &vec![]), "no shards under /data/indexes/7");
    assert_eq!(said(&days, &vec![]), "0 records across all shards");
    assert_eq!(said(&days, &vec![5, 9, 0]), "ts decreased at global record index 2");
    assert_eq!(
        said(&holed, &vec![0, 5]),
        "2 missing date-shards between 2024-01-01 and 2024-01-04 (first missing: 2024-01-02)"
    );
    assert_eq!(
        said(&days, &vec![0, 100_000]),
        "1 inter-record gaps > 90000ms (max gap = 100000ms)"
    );
}

#[test]
fn latency_notes_are_told_with_their_values() {
    let mut t = tips();
    t.s10_close_ms = Some(980_000);
    let said = |n: Note| note_message(n, &t, "-1", "61.0");
    assert_eq!(said(Note::NoIdx), "no idx tip today");
    assert_eq!(said(Note::IdxLagFail), "idx lag 1000ms > fail 10000ms");
    assert_eq!(said(Note::IdxLagWarn), "idx lag 1000ms > warn 2000ms");
    assert_eq!(said(Note::NoS10), "no s10 tip today");
    assert_eq!(said(Note::S10LagFail), "s10 lag 20000ms > fail 30000ms");
    assert_eq!(said(Note::S10LagWarn), "s10 lag 20000ms > warn 15000ms");
    assert_eq!(said(Note::S10Spread), "s10 avg_spread_bps invalid (-1)");
    assert_eq!(said(Note::NoRenko), "no renko tip today");
    assert_eq!(said(Note::RenkoStaleFail), "renko tip stale 100000ms > fail 600000ms");
    assert_eq!(said(Note::RenkoStaleWarn), "renko tip stale 100000ms > warn 300000ms");
    assert_eq!(
        said(Note::PriceDrift),
        "mid vs last renko close 61.0bps > 50bps (awaiting brick cross)"
    );
    assert_eq!(said(Note::AheadFail), "idx ahead of s10 by 19000ms (>20s)");
    assert_eq!(said(Note::AheadWarn), "idx ahead of s10 by 19000ms (>12s)");
}

fn tips() -> Tips {
    Tips {
        now_ms: 1_000_000,
        idx_tip_ms: Some(999_000),
        s10_close_ms: Some(995_000),
        s10_spread_bps: Some(Single::from_bits(1.0f32.to_bits())),
        renko_close_ms: Some(900_000),
        drift_bps: Some(d(10.0)),
    }
}

#[test]
fn latency_is_judged_by_its_worst_note() {
    assert_eq!(audit_pair(&tips()).0, Level::Good);
    assert!(audit_pair(&tips()).1.is_empty());
    let one = |change: fn(&mut Tips)| -> (Level, Vec<Note>) {
        let mut t = tips();
        change(&mut t);
        audit_pair(&t)
    };
    assert_eq!(one(|t| t.idx_tip_ms = None).0, Level::Fail);
    assert_eq!(one(|t| t.idx_tip_ms = Some(997_000)), (Level::Warn, vec![Note::IdxLagWarn]));
    assert_eq!(one(|t| t.idx_tip_ms = Some(989_999)).1[0], Note::IdxLagFail);
    assert_eq!(one(|t| t.s10_close_ms = Some(984_000)).1[0], Note::S10LagWarn);
    assert_eq!(one(|t| t.renko_close_ms = Some(699_000)), (Level::Warn, vec![Note::RenkoStaleWarn]));
    assert_eq!(one(|t| t.renko_close_ms = Some(399_000)), (Level::Fail, vec![Note::RenkoStaleFail]));
    assert!(one(|t| t.drift_bps = Some(d(51.0))).1.contains(&Note::PriceDrift));
    assert_eq!(level_max(Level::Warn, Level::Good), Level::Warn);
    assert_eq!(level_max(Level::Warn, Level::Fail), Level::Fail);
    assert_eq!(exit_status(Level::Good), 0);
    assert_eq!(exit_status(Level::Warn), 1);
    assert_eq!(exit_status(Level::Fail), 2);
    assert_eq!(lag(i64::MAX, -1), i64::MAX);
    assert_eq!(lag(3, 5), -2);
    assert!(idx_tip(5, true, d(1.0)).is_none());
    assert!(idx_tip(5, false, d(0.0)).is_none());
    assert_eq!(idx_tip(5, false, d(1.0)).unwrap().0, 5);
}

#[test]
fn sources_are_merged_by_time_and_number() {
    let mut q = MergeQueue::new();
    for (ts, source) in [(5, 0), (3, 2), (3, 1), (9, 3)] {
        q.push(HeapEntry::new(ts, source));
    }
    let mut order = Vec::new();
    while let Some(e) = q.pop() {
        order.push((e.ts_ms, e.source_idx));
    }
    assert_eq!(order, vec![(3, 1), (3, 2), (5, 0), (9, 3)]);
}

#[test]
fn composites_fall_due_at_boundaries() {
    let mut c = CycleClock::new(100);
    assert_eq!(c.finish(), None);
    assert_eq!(c.on_record(1_000), None);
    assert_eq!(c.on_record(1_099), None);
    assert_eq!(c.on_record(1_450), Some(1_100));
    assert_eq!(c.next_ms, Some(1_500));
    assert_eq!(c.finish(), Some(1_500));
}

#[test]
fn merging_reads_and_rotates() {
    assert_eq!(sim_offset(150, 100), 50);
    assert_eq!(sim_offset(50, 100), 0);
    assert_eq!(refill_outcome(0, 560, 56), ReadOutcome::End);
    assert_eq!(refill_outcome(57, 560, 56), ReadOutcome::Misaligned);
    assert_eq!(refill_outcome(560, 560, 56), ReadOutcome::Records { n: 10, last: false });
    assert_eq!(refill_outcome(112, 560, 56), ReadOutcome::Records { n: 2, last: true });
    assert!(needs_rotation(None, 0));
    assert!(!needs_rotation(Some(0), 86_399_999));
    assert!(needs_rotation(Some(0), 86_400_000));
    assert!(needs_rotation(Some(0), -1));
    let s = shard_entry_for_idx(56 * 3, 56, &vec![(7, 9), (2, 5)]);
    assert_eq!((s.n_records, s.first_ts, s.last_ts), (3, 2, 9));
    let s = shard_entry_for_idx(55, 56, &vec![]);
    assert_eq!((s.n_records, s.first_ts, s.last_ts), (0, 0, 0));
}

#[test]
fn weights_come_from_overrides_then_configuration() {
    assert_eq!(
        split_weight(" kraken = 0.5 "),
        Some(("kraken".to_string(), "0.5".to_string()))
    );
    assert_eq!(split_weight("a=b=c"), Some(("a".to_string(), "b=c".to_string())));
    assert_eq!(split_weight("kraken"), None);
    let w = |x: f64| vec![("kraken".to_string(), d(x))];
    let two = strings(&["kraken", "okx"]);
    assert_eq!(resolve_weight(&w(0.3), &two, &w(0.5), "kraken").map(f), Some(0.5));
    assert_eq!(resolve_weight(&w(0.3), &two, &vec![], "kraken").map(f), Some(0.3));
    assert!(resolve_weight(&w(0.3), &two, &vec![], "okx").is_none());
    assert_eq!(resolve_weight(&vec![], &two, &vec![], "okx").map(f), Some(1.0));
    assert!(resolve_weight(&vec![], &two, &vec![], "lmax").is_none());
}

const CONFIG: &str = "\
cexs:
  exchanges:
    okx: { weight: 2 }
    binance:
      weight: 0.75
      archive_url_template: { probe: 'https://a/{sym}-{y:04}-{m:02}.zip' }
    bitget: { weight: heavy }
    bybit: !venue
      weight: 1e3
      archive_url_template: { probe: '' }
    kraken: { archive_url_template: { probe: 'https://k' } }
series: {}
";

fn listed(w: &[(String, Double)]) -> Vec<(&str, f64)> {
    w.iter().map(|(n, x)| (n.as_str(), f(*x))).collect()
}

fn table(entries: Vec<(&str, Yaml)>) -> Yaml {
    Yaml::Table(entries.into_iter().map(|(k, y)| (k.to_string(), y)).collect())
}

#[test]
fn documents_are_read_as_plain_values() {
    let doc = parse_yaml("a: [1, -2.5, true, ~, x]\nb: !t { c: d }\n").unwrap();
    match find(&doc, "a").unwrap() {
        Yaml::List(v) => {
            assert!(matches!(v[0], Yaml::Number(x) if f(x) == 1.0));
            assert!(matches!(v[1], Yaml::Number(x) if f(x) == -2.5));
            assert!(matches!(v[2], Yaml::Bool(true)));
            assert!(matches!(v[3], Yaml::Null));
            assert!(matches!(&v[4], Yaml::Text(s) if s == "x"));
            assert_eq!(v.len(), 5);
        }
        other => panic!("{other:?}"),
    }
    match find(&doc, "b").unwrap() {
        Yaml::Tagged(tag, inner) => {
            assert!(tag.ends_with('t'), "{tag}");
            assert!(matches!(**inner, Yaml::Table(_)));
        }
        other => panic!("{other:?}"),
    }
    let through = find(find(&doc, "b").unwrap(), "c").unwrap();
    assert!(matches!(through, Yaml::Text(s) if s == "d"), "the search passes through tags");
    assert!(find(&doc, "c").is_none());
    assert!(find(find(&doc, "a").unwrap(), "a").is_none());
    assert!(parse_yaml("a: [1").is_none());
    assert!(matches!(parse_yaml("n: .nan"), Some(y)
        if matches!(find(&y, "n"), Some(Yaml::Number(x)) if f(*x).is_nan())));
}

#[test]
fn weights_are_listed_in_the_order_of_the_configuration() {
    let want = vec![("okx", 2.0), ("binance", 0.75), ("bybit", 1_000.0)];
    assert_eq!(listed(&configured_weights(CONFIG)), want);
    assert!(configured_weights("cexs: [").is_empty());
    assert!(configured_weights("cexs: {}").is_empty());
    assert!(configured_weights("cexs: { exchanges: !all { a: { weight: 1 } } }").is_empty());
    assert_eq!(
        listed(&configured_weights("cexs: !x { exchanges: { a: { weight: 1 } } }")),
        vec![("a", 1.0)]
    );
    let own = table(vec![("weight", Yaml::Number(d(4.0)))]);
    let exchanges = table(vec![("b", own), ("a", Yaml::Null)]);
    let doc = table(vec![("cexs", table(vec![("exchanges", exchanges)]))]);
    assert_eq!(listed(&weights_in(&doc)), vec![("b", 4.0)]);
    assert!(weights_in(&Yaml::Null).is_empty());
}

#[test]
fn every_exchange_with_a_weight_is_named_once() {
    let configured = configured_weights(CONFIG);
    let none: Vec<(String, Double)> = vec![];
    let overrides = vec![("okx".to_string(), d(9.0)), ("Zaif".to_string(), d(5.0))];
    let asked = strings(&["okx", "gate", "okx"]);
    assert_eq!(weighted_names(&configured, &asked, &none), ["binance", "bybit", "okx"]);
    assert_eq!(weighted_names(&configured, &asked, &overrides), ["Zaif", "binance", "bybit", "okx"]);
    assert_eq!(weighted_names(&none, &asked, &none), ["gate", "okx"]);
    assert!(weighted_names(&none, &vec![], &none).is_empty());
    assert_eq!(
        listed(&resolve_weights(Some(CONFIG), &asked, &overrides)),
        vec![("Zaif", 5.0), ("binance", 0.75), ("bybit", 1_000.0), ("okx", 9.0)]
    );
    assert_eq!(
        listed(&resolve_weights(None, &asked, &overrides)),
        vec![("Zaif", 5.0), ("gate", 1.0), ("okx", 9.0)]
    );
    assert_eq!(
        listed(&resolve_weights(Some("series: {}"), &asked, &none)),
        vec![("gate", 1.0), ("okx", 1.0)]
    );
    let w = resolve_weights(Some(CONFIG), &asked, &none);
    assert_eq!(find_weight(&w, "bybit").map(f), Some(1_000.0));
    assert!(find_weight(&w, "gate").is_none());
}

#[test]
fn texts_sort_by_code_point() {
    let mut words = strings(&["b", "", "ä", "B", "ba", "a", "𝄞", "\u{ffff}"]);
    let mut out: Vec<String> = vec![];
    for w in words.iter().chain(words.iter()) {
        text::insert_sorted(&mut out, w);
    }
    words.sort();
    assert_eq!(out, words);
}

#[test]
fn probes_ask_where_the_configuration_says() {
    assert_eq!(
        probe_template(CONFIG, "binance").as_deref(),
        Some("https://a/{sym}-{y:04}-{m:02}.zip")
    );
    assert_eq!(probe_template(CONFIG, "bybit"), None, "an empty template");
    assert_eq!(probe_template(CONFIG, "kraken"), None, "no monthly archive");
    assert_eq!(probe_template("cexs: [", "binance"), None);
    let own = table(vec![("archive_url_template", table(vec![("probe", Yaml::Number(d(1.0)))]))]);
    let exchanges = table(vec![("binance", own)]);
    let doc = table(vec![("cexs", table(vec![("exchanges", exchanges)]))]);
    assert_eq!(template_in(&doc, "binance"), None, "a number is no template");
}

#[test]
fn healing_stages_unless_told_otherwise() {
    assert!(matches!(heal_mode(false, false), Ok(HealMode::Stage)));
    assert!(matches!(heal_mode(true, false), Ok(HealMode::Commit)));
    assert!(matches!(heal_mode(false, true), Ok(HealMode::DryRun)));
    assert!(heal_mode(true, true).is_err());
}
