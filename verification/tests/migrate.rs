//! Moving stored series to another id.

use series_factory::calendar::Date;
use series_factory::ieee::Double;
use series_factory::migrate::phantom;
use series_factory::migrate::phantom::SymbolIds;
use series_factory::migrate::quote_basis;
use series_factory::migrate::quote_basis::{
    candidates, collides, park_path, plan_candidate, quote_of, rebase_to_usd, symbol_for,
    written_within, Action, CollisionMode, QuoteFilter, SourcePath, StoredTicker,
    RECENT_WRITE_SECS, USDC_QUOTE, USDT_QUOTE, USD_QUOTE_CLASS, USD_QUOTE_ID,
};
use series_factory::migrate::sharded::{
    allowed, clears_first, flat_id, glue_count, idx_action, idx_watermark, is_legacy_bars, is_legacy_idx,
    pair_quote, place_bar_shard, rows_to_feed, union_ids, BarShardAction, IdxAction, MarketRow, Window,
};
use series_factory::migrate::shards::{
    count_deferred, journal_after, journal_key, moved_state, place_shard, plan_tree, tree_dir,
    tree_action, tree_unit, unit_action, verify_move, wanted, Fingerprint, OnExisting,
    ShardAction, TreeAction, TreePlan, UnitAction, UnitOutcome, UnitState,
};

fn d(x: f64) -> Double {
    Double::from_bits(x.to_bits())
}

fn date(year: i32, month: u32, day: u32) -> Date {
    Date::new(year, month, day).unwrap()
}

fn mk(itype: u64, bclass: u64, bid: u64, qclass: u64, qid: u64, sub: u64) -> u64 {
    (itype << 60) | (bclass << 56) | (bid << 40) | (qclass << 36) | (qid << 20) | sub
}

#[test]
fn usdc_and_usdt_rebase_to_usd_preserving_base_bits() {
    for (qclass, qid) in [USDC_QUOTE, USDT_QUOTE] {
        let old = mk(1, 6, 20701, qclass, qid, 0x3_F00F);
        assert_eq!(quote_of(old), (qclass, qid));
        let new = rebase_to_usd(old);
        assert_eq!(quote_of(new), (USD_QUOTE_CLASS, USD_QUOTE_ID));
        assert_eq!(new >> 60, old >> 60, "instrument_type");
        assert_eq!((new >> 56) & 0xF, 6, "base_class");
        assert_eq!((new >> 40) & 0xFFFF, 20701, "base_id");
        assert_eq!(new & 0xFFFFF, 0x3_F00F, "sub_type");
        assert_ne!(new, old);
        assert_eq!(rebase_to_usd(new), new);
    }
}

fn dir(files: u64, bytes: u64) -> SourcePath {
    SourcePath { is_dir: true, files, bytes }
}

#[test]
fn candidate_scan_classifies_quote_and_collision() {
    let usdc = mk(1, 6, 999, USDC_QUOTE.0, USDC_QUOTE.1, 0);
    let usdt = mk(1, 6, 998, USDT_QUOTE.0, USDT_QUOTE.1, 0);
    let usd = mk(1, 6, 997, USD_QUOTE_CLASS, USD_QUOTE_ID, 0);
    // The twin of the first is an empty directory, that of the second holds bytes.
    let usdc_twin = collides(&vec![dir(0, 0)]);
    let usdt_twin = collides(&vec![dir(1, 96)]);
    assert!(!usdc_twin, "an empty destination is no collision");
    let stored: Vec<StoredTicker> = [(usdc, usdc_twin), (usdt, usdt_twin), (usd, false)]
        .iter()
        .map(|&(id, twin_holds_bytes)| StoredTicker { id, files: 1, bytes: 56, twin_holds_bytes })
        .collect();

    let all = candidates(&stored, QuoteFilter::All);
    assert_eq!(all.len(), 2, "a tree in the storage quote is no candidate");
    let c_usdc = all.iter().find(|c| c.old_id == usdc).unwrap();
    assert_eq!(c_usdc.quote, QuoteFilter::Usdc);
    assert!(!c_usdc.collides);
    let c_usdt = all.iter().find(|c| c.old_id == usdt).unwrap();
    assert_eq!(c_usdt.quote, QuoteFilter::Usdt);
    assert!(c_usdt.collides);

    let only_usdc = candidates(&stored, QuoteFilter::Usdc);
    assert_eq!(only_usdc.len(), 1);
    assert_eq!(only_usdc[0].old_id, usdc);
}

#[test]
fn recent_write_is_refused() {
    let second: u128 = 1_000_000_000;
    let now = 1_700_000_000 * second;
    let window = RECENT_WRITE_SECS as u128 * second;
    let just_written = vec![now - second];
    assert!(written_within(&just_written, now, window));
    assert!(!written_within(&just_written, now, 0));
    assert!(!written_within(&vec![], now, window));
    assert_eq!(plan_candidate(false, true, false, CollisionMode::Skip), Action::Refuse);
}

#[test]
fn dry_run_moves_nothing() {
    let plan = plan_tree(&vec![date(2024, 1, 1)], date(2024, 1, 3));
    assert!(matches!(
        tree_action(plan, false),
        TreeAction::Report { movable, held: 0 } if movable.len() == 1
    ));
    assert_eq!(unit_action(true, false), UnitAction::Report);
    assert_eq!(journal_after(None, UnitOutcome::Nothing, false), None);
    assert_eq!(journal_after(None, UnitOutcome::Reached(UnitState::Done), false), None);
    assert_eq!(
        journal_after(None, UnitOutcome::Reached(UnitState::Done), true),
        Some(UnitState::Done)
    );
}

#[test]
fn park_moves_whole_trees_never_half() {
    let old = mk(1, 6, 777, USDC_QUOTE.0, USDC_QUOTE.1, 0);
    let new = rebase_to_usd(old);
    assert!(collides(&vec![dir(1, 56)]));
    assert_eq!(plan_candidate(false, false, true, CollisionMode::KeepDestination), Action::Park);
    assert_eq!(
        journal_after(None, UnitOutcome::Reached(UnitState::Parked), true),
        Some(UnitState::Parked)
    );
    for (tree, name) in [
        ("indexes", format!("{old}")),
        ("bars", format!("{old}")),
        ("vol", format!("{old}.vol")),
    ] {
        assert_eq!(
            park_path("/data", "TS", old, tree, &name),
            format!("/data/migrations/superseded/TS/{old}/{tree}/{name}")
        );
    }
    assert_eq!(quote_basis::tree_dir("/data", "indexes", new), format!("/data/indexes/{new}"));
}

#[test]
fn candidates_are_planned_by_what_is_there() {
    let keep = CollisionMode::KeepDestination;
    let skip = CollisionMode::Skip;
    assert_eq!(plan_candidate(true, true, true, keep), Action::AlreadyParked);
    assert_eq!(plan_candidate(false, true, true, keep), Action::Refuse);
    assert_eq!(plan_candidate(false, false, true, skip), Action::Skip);
    assert_eq!(plan_candidate(false, false, false, skip), Action::Migrate);
    assert!(!collides(&vec![]));
    assert!(collides(&vec![SourcePath { is_dir: false, files: 0, bytes: 1 }]));
}

#[test]
fn symbols_are_found_or_made_from_the_id() {
    assert_eq!(symbol_for(&vec!["BTC/USD".to_string()], 7), "BTC/USD");
    assert!(symbol_for(&vec![], 7).contains('7'));
    assert_eq!(quote_basis::journal_path("/data"), "/data/migrations/quote-basis.json");
}

#[test]
fn trees_keep_their_live_shard() {
    let (a, b, today) = (date(2024, 1, 1), date(2024, 1, 2), date(2024, 1, 3));
    assert!(matches!(plan_tree(&vec![], today), TreePlan::Nothing));
    assert!(matches!(plan_tree(&vec![today], today), TreePlan::Defer));
    match plan_tree(&vec![a, b, today], today) {
        TreePlan::Move { movable, held } => {
            assert_eq!(movable, vec![0, 1]);
            assert_eq!(held, 1);
        }
        _ => panic!("shards of the past move"),
    }
    assert_eq!(moved_state(0), UnitState::Done);
    assert_eq!(moved_state(1), UnitState::PartialToday);
    assert_eq!(
        count_deferred(&vec![UnitState::Done, UnitState::PartialToday, UnitState::PartialToday]),
        2
    );
}

#[test]
fn moves_are_verified_shard_by_shard() {
    let print = |day: u32, records: u64| Fingerprint {
        date: date(2024, 1, day),
        records,
        first_ts: 5,
        last_ts: 9,
    };
    let before = vec![print(1, 10), print(2, 20)];
    assert_eq!(verify_move(&before, &vec![print(1, 10), print(2, 20), print(3, 1)]), None);
    assert_eq!(verify_move(&before, &vec![print(1, 10)]), None, "a parked shard is not held");
    assert_eq!(verify_move(&before, &vec![print(1, 10), print(2, 21)]), Some(1));
    assert_eq!(verify_move(&before, &vec![print(1, 11), print(2, 20)]), Some(0));
}

#[test]
fn journals_hold_what_was_reached() {
    assert_eq!(tree_dir("/d", "bars", 42), "/d/bars/42");
    assert_eq!(tree_unit("bars", "s10"), "bars.s10");
    assert_eq!(journal_key("A/B", "bars.s10"), "A/B|bars.s10");
    assert!(wanted(None));
    assert!(wanted(Some(UnitState::PartialToday)));
    assert!(!wanted(Some(UnitState::Done)));
    assert_eq!(
        journal_after(Some(UnitState::PartialToday), UnitOutcome::Failed, true),
        Some(UnitState::PartialToday)
    );
    assert_eq!(place_shard(false, OnExisting::Abort), ShardAction::Move);
    assert_eq!(place_shard(true, OnExisting::Abort), ShardAction::Abort);
    assert_eq!(place_shard(true, OnExisting::Park), ShardAction::Park);
}

#[test]
fn phantom_ids_are_those_that_resolve_elsewhere() {
    let ids = vec![
        SymbolIds { fallback: 1, resolved: Some(2) },
        SymbolIds { fallback: 3, resolved: Some(3) },
        SymbolIds { fallback: 4, resolved: None },
    ];
    assert_eq!(phantom::candidates(&ids), vec![(0, 1, 2)]);
    assert_eq!(phantom::tree_dir("/d", "bars", 42), "/d/bars/42");
    assert_eq!(phantom::park_dir("/d", "bars", 42), "/d/migrations/superseded/bars/42");
    assert_eq!(phantom::journal_path("/d"), "/d/migrations/phantom-ids.json");
}

fn market(ts_ms: i64, bid: f64) -> MarketRow {
    MarketRow { ts_ms, bid: d(bid), ask: d(bid + 1.0), vbid: 1, vask: 1, ci: 1 }
}

#[test]
fn glued_streams_drop_repeats_and_old_rows() {
    let day = 86_400_000;
    let backfill = vec![market(5, 1.0), market(20, 1.0), market(30, 1.0), market(40, 2.0)];
    let live = vec![market(day + 5, 2.0)];
    let w = Window { cutoff_ms: 10, watermark: i64::MIN };
    let c = glue_count(&backfill, &live, w);
    assert_eq!((c.seen, c.written), (4, 3));
    let later = Window { cutoff_ms: 10, watermark: 30 };
    let c = glue_count(&backfill, &live, later);
    assert_eq!((c.seen, c.written), (2, 2));
    assert_eq!(rows_to_feed(&backfill, &live, w), vec![1, 2, 3, 4]);
    assert_eq!(rows_to_feed(&backfill, &live, later), vec![3, 4]);
}

#[test]
fn glued_rows_are_sorted_by_time() {
    let backfill = vec![market(30, 1.0), market(10, 2.0), market(60, 3.0), market(30, 4.0)];
    let live = vec![market(50, 5.0), market(45, 6.0)];
    let w = Window { cutoff_ms: 0, watermark: i64::MIN };
    assert_eq!(rows_to_feed(&backfill, &live, w), vec![1, 0, 3, 5, 4]);
    let c = glue_count(&backfill, &live, w);
    assert_eq!((c.seen, c.written), (5, 5));
    let calm = vec![market(20, 1.0), market(10, 2.0), market(30, 1.0)];
    let c = glue_count(&calm, &vec![], w);
    assert_eq!((c.seen, c.written), (3, 2));
}

#[test]
fn watermarks_are_the_newest_record_of_any_shard() {
    assert_eq!(idx_watermark(&vec![Some(7)]), 7);
    assert_eq!(idx_watermark(&vec![Some(3), Some(9), Some(5)]), 9);
    assert_eq!(idx_watermark(&vec![Some(7), None]), 7, "the newest shard may be empty");
    assert_eq!(idx_watermark(&vec![None, None]), i64::MIN);
    assert_eq!(idx_watermark(&vec![]), i64::MIN);
}

#[test]
fn repeating_a_migration_feeds_nothing() {
    let backfill = vec![market(20, 1.0), market(30, 2.0)];
    let live = vec![market(40, 3.0)];
    let watermark = idx_watermark(&vec![Some(30), Some(40), None]);
    let w = Window { cutoff_ms: 0, watermark };
    assert!(rows_to_feed(&backfill, &live, w).is_empty());
    assert_eq!(glue_count(&backfill, &live, w).written, 0);
}

#[test]
fn reports_clear_nothing() {
    assert!(clears_first(true, true, false));
    assert!(!clears_first(true, true, true));
    assert!(!clears_first(true, false, false));
    assert!(!clears_first(false, true, false));
}

#[test]
fn nothing_moves_unless_a_plan_is_applied() {
    let dates = || vec![date(2024, 1, 1), date(2024, 1, 2), date(2024, 1, 3)];
    let plan = || plan_tree(&dates(), date(2024, 1, 3));
    assert!(matches!(
        tree_action(plan(), false),
        TreeAction::Report { movable, held: 1 } if movable.len() == 2
    ));
    match tree_action(plan(), true) {
        TreeAction::Move { movable, held } => assert_eq!((movable, held), (vec![0, 1], 1)),
        other => panic!("{other:?}"),
    }
    let live = || plan_tree(&vec![date(2024, 1, 3)], date(2024, 1, 3));
    assert!(matches!(tree_action(live(), true), TreeAction::Defer));
    assert!(matches!(tree_action(plan_tree(&vec![], date(2024, 1, 3)), true), TreeAction::Nothing));
    assert_eq!(unit_action(true, false), UnitAction::Report);
    assert_eq!(unit_action(true, true), UnitAction::Perform);
    assert_eq!(unit_action(false, true), UnitAction::Nothing);
}

#[test]
fn flat_files_name_their_id() {
    assert_eq!(flat_id("42.idx"), Some(42));
    assert_eq!(flat_id("x.idx"), None);
    assert!(is_legacy_idx("42.idx"));
    assert!(!is_legacy_idx("42.bars"));
    assert!(is_legacy_bars("2024-01-02.bars"));
    assert!(!is_legacy_bars("42"));
    assert_eq!(pair_quote("BTC", "BTCUSDT"), Some("USDT".to_string()));
    assert_eq!(pair_quote("BTC", "ETHUSDT"), None);
    assert_eq!(pair_quote("BTC", "BTC"), None);
    assert_eq!(union_ids(&vec![1, 3], &vec![2, 3]), vec![1, 2, 3]);
    assert!(allowed(&None, 7));
    assert!(allowed(&Some(vec![7]), 7));
    assert!(!allowed(&Some(vec![8]), 7));
}

#[test]
fn bar_shards_are_copied_once() {
    let (old, cut) = (date(2024, 1, 1), date(2024, 1, 2));
    assert_eq!(place_bar_shard(old, cut, false, false, 5, false), BarShardAction::Skip);
    assert_eq!(place_bar_shard(cut, cut, true, false, 5, false), BarShardAction::Skip);
    assert_eq!(place_bar_shard(cut, cut, true, true, 5, false), BarShardAction::Copy);
    assert_eq!(place_bar_shard(cut, cut, false, false, 5, true), BarShardAction::Report);
}

#[test]
fn forced_runs_start_over_and_reports_only_count() {
    let shards = vec![None, Some(7), Some(5)];
    assert_eq!(idx_action(true, false, &shards), IdxAction::Report { watermark: 7 });
    assert_eq!(idx_action(false, false, &shards), IdxAction::Write { watermark: 7 });
    assert_eq!(idx_action(true, true, &shards), IdxAction::Report { watermark: i64::MIN });
    assert_eq!(idx_action(false, true, &shards), IdxAction::Write { watermark: i64::MIN });
    assert_eq!(idx_action(false, false, &vec![]), IdxAction::Write { watermark: i64::MIN });
}
