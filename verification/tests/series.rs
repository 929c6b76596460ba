//! Bars, ranges, volatility and the tools around them.

use series_factory::aggregation;
use series_factory::aggregation::{Aggregator, Mode};
use series_factory::bucket::{bucket_start, look, put};
use series_factory::calendar::Date;
use series_factory::candles::{is_priced, is_seed, s10_series, LAST_TICK};
use series_factory::hlc::{
    downsample, gather_quotes, gather_ticks, hourly_ranges, is_usable, retained_mids, Quote, Tick,
    MS_PER_HOUR,
};
use series_factory::ieee::{Double, Single};
use series_factory::parkinson::{
    find_index_for_ts, is_weighable, settle, winsorize, winsorize_evenly, Blend,
    MtfParkinsonCalculator, VolSeries, VolSource,
};
use series_factory::pipeline::{
    add_burst, bootstrap_end, calibration_window, count_bars_from_prices, is_old_format,
    is_tick_file, read_old_ticks, ticks_to_feed, EnrichedBar, Enrichment, Trial, WindowSearch,
};
use series_factory::renko::{
    Answer, Ask, ConfigError, RenkoBar, RenkoConfig, RenkoGenerator, MAX_BRICKS_PER_TICK,
};
use series_factory::sweep::{
    count_out_of_band, day_slice, distinct, effective_k, is_scorable, parse_candidates,
    retention_days, sample_days, sweep_window, upper_median,
};

const DAY: i64 = 86_400_000;

fn d(x: f64) -> Double {
    Double::from_bits(x.to_bits())
}

fn f(x: Double) -> f64 {
    f64::from_bits(x.bits)
}

fn s(x: f32) -> Single {
    Single::from_bits(x.to_bits())
}

fn date(year: i32, month: u32, day: u32) -> Date {
    Date::new(year, month, day).unwrap()
}

fn zero_multiplier() -> RenkoConfig {
    RenkoConfig { multiplier: s(0.0), ..RenkoConfig::default() }
}

fn units(multiplier: f32, min_pct: f32) -> String {
    RenkoConfig::id((multiplier * 10000.0) as u16, (min_pct * 1_000_000.0) as u16)
}

#[test]
fn config_validation() {
    assert!(RenkoConfig::default().validate().is_ok());
    assert!(zero_multiplier().validate().is_err());
}

#[test]
fn config_id() {
    assert_eq!(units(0.075, 0.000830), "m0750_mp0830");
}

#[test]
fn test_config_validation() {
    assert!(RenkoConfig::default().validate().is_ok());
    assert!(zero_multiplier().validate().is_err());
}

#[test]
fn test_config_id() {
    assert_eq!(units(0.075, 0.000830), "m0750_mp0830");
}

#[test]
fn configurations_name_their_fault() {
    let c = RenkoConfig::default();
    assert_eq!(c.multiplier, s(0.075));
    assert_eq!(c.min_pct, s(0.001));
    assert_eq!(c.max_pct, s(0.10));
    assert_eq!(
        zero_multiplier().validate(),
        Err(ConfigError::Multiplier { multiplier: s(0.0) })
    );
    let wide = RenkoConfig { multiplier: s(1.1), ..c };
    assert!(matches!(wide.validate(), Err(ConfigError::Multiplier { .. })));
    let nan = RenkoConfig { multiplier: s(f32::NAN), ..c };
    assert!(nan.validate().is_err());
    let upside_down = RenkoConfig { min_pct: c.max_pct, ..c };
    assert_eq!(upside_down.validate(), Err(ConfigError::Limits));
    assert!(RenkoGenerator::new(upside_down).is_err());
    assert_eq!(RenkoConfig::id(12345, 7), "m12345_mp0007");
}

/// Feeds a tick with bricks of size 1 on a grid of 1.
fn feed(gen: &mut RenkoGenerator, ts: i64, price: f64) -> Vec<RenkoBar> {
    let mut out = Vec::new();
    gen.feed_tick(ts, d(price));
    loop {
        let answer = match gen.ask() {
            Ask::Nothing => break,
            Ask::Brick { price, .. } => Answer::Sized {
                size: d(1.0),
                grid: d(1.0),
                snapped: d(f(price).round()),
            },
            Ask::Rung { from, price, up } => {
                let step = if up { 1.0 } else { -1.0 };
                Answer::Stepped {
                    reached: (f(price) - f(from)) * step >= 1.0,
                    close: d(f(from) + step),
                }
            }
        };
        if let Some(bar) = gen.answer(answer) {
            out.push(bar);
        }
    }
    out
}

#[test]
fn bars_are_drawn_one_brick_apart() {
    let mut gen = RenkoGenerator::new(RenkoConfig::default()).unwrap();
    assert!(feed(&mut gen, 1_000, 100.0).is_empty());
    assert!(feed(&mut gen, 2_000, 99.5).is_empty());
    let up = feed(&mut gen, 3_000, 102.4);
    assert_eq!(up.len(), 2);
    assert_eq!((f(up[0].open), f(up[0].high), f(up[0].low), f(up[0].close)), (100.0, 101.0, 99.5, 101.0));
    assert_eq!((f(up[1].open), f(up[1].low), f(up[1].close)), (101.0, 101.0, 102.0));
    assert_eq!((up[0].tick_count, up[1].tick_count), (3, 0));
    assert_eq!((up[0].duration_ms, up[1].duration_ms), (2_000, 0));
    assert_eq!((up[0].direction, up[0].open_ts, up[0].timestamp), (1, 1_000, 3_000));
    let down = feed(&mut gen, 4_000, 100.9);
    assert_eq!(down.len(), 1);
    assert_eq!((f(down[0].open), f(down[0].close), down[0].direction), (102.0, 101.0, -1));
    assert_eq!(f(down[0].high), 102.0);
    assert_eq!(gen.stats(), (3, 3_000));
}

#[test]
fn wicks_end_where_bricks_were_refused() {
    let mut gen = RenkoGenerator::new(RenkoConfig::default()).unwrap();
    feed(&mut gen, 0, 100.0);
    feed(&mut gen, 1, 99.3);
    feed(&mut gen, 2, 100.6);
    let up = feed(&mut gen, 3, 101.0);
    assert_eq!((f(up[0].low), f(up[0].high)), (99.3, 101.0));
    feed(&mut gen, 4, 101.8);
    let down = feed(&mut gen, 5, 99.9);
    assert_eq!((f(down[0].high), f(down[0].low), f(down[0].close)), (101.8, 100.0, 100.0));
}

#[test]
fn ticks_that_are_no_prices_draw_nothing() {
    let mut gen = RenkoGenerator::new(RenkoConfig::default()).unwrap();
    feed(&mut gen, 0, 100.0);
    assert!(feed(&mut gen, 1, f64::NAN).is_empty());
    assert!(feed(&mut gen, 2, -5.0).is_empty());
    assert!(feed(&mut gen, 3, f64::INFINITY).is_empty());
    assert_eq!(gen.tick_count, 4);
    assert_eq!(feed(&mut gen, 4, 101.0)[0].tick_count, 5);
}

#[test]
fn one_tick_draws_only_so_many_bars() {
    let mut gen = RenkoGenerator::new(RenkoConfig::default()).unwrap();
    feed(&mut gen, 0, 1.0);
    assert_eq!(feed(&mut gen, 1, 50_000.0).len(), MAX_BRICKS_PER_TICK);
}

#[test]
fn bricks_are_sized_anew_every_half_hour() {
    let mut gen = RenkoGenerator::new(RenkoConfig::default()).unwrap();
    feed(&mut gen, 0, 100.0);
    gen.feed_tick(1_799_999, d(100.2));
    assert!(matches!(gen.ask(), Ask::Rung { .. }));
    gen.answer(Answer::Stepped { reached: false, close: d(101.0) });
    gen.answer(Answer::Stepped { reached: false, close: d(99.0) });
    gen.feed_tick(1_800_000, d(100.3));
    assert!(matches!(gen.ask(), Ask::Brick { price, ts } if f(price) == 100.3 && ts == 1_800_000));
}

#[test]
fn bars_connect_across_sizings_of_the_brick() {
    let mut gen = RenkoGenerator::new(RenkoConfig::default()).unwrap();
    feed(&mut gen, 0, 100.0);
    let mut bars = feed(&mut gen, 1, 101.0);
    gen.feed_tick(1_800_000, d(104.0));
    gen.answer(Answer::Sized { size: d(1.5), grid: d(0.4), snapped: d(104.0) });
    assert_eq!(f(gen.last_close), 101.0, "a new brick leaves the last close");
    assert!(matches!(gen.ask(), Ask::Rung { from, .. } if f(from) == 101.0));
    bars.push(gen.answer(Answer::Stepped { reached: true, close: d(102.4) }).unwrap());
    bars.push(gen.answer(Answer::Stepped { reached: true, close: d(104.0) }).unwrap());
    assert_eq!(bars.len(), 3);
    for pair in bars.windows(2) {
        assert_eq!(pair[0].close, pair[1].open);
    }
}

#[test]
fn batches_give_what_their_concatenation_gives() {
    let ticks: Vec<(i64, f64)> =
        (0..400i64).map(|i| (i * 60_000, 100.0 + ((i * 37) % 23) as f64 * 0.7)).collect();
    let run = |gen: &mut RenkoGenerator, ticks: &[(i64, f64)]| {
        let mut bars = Vec::new();
        for &(ts, price) in ticks {
            bars.extend(feed(gen, ts, price));
        }
        bars
    };
    let mut whole = RenkoGenerator::new(RenkoConfig::default()).unwrap();
    let all = run(&mut whole, &ticks);
    assert!(all.len() > 100);
    let mut parts = RenkoGenerator::new(RenkoConfig::default()).unwrap();
    let mut bars = run(&mut parts, &ticks[..137]);
    let (n1, d1) = parts.stats();
    bars.extend(run(&mut parts, &ticks[137..]));
    assert_eq!(bars, all);
    assert_eq!(parts.stats(), whole.stats());
    assert_eq!(n1 + (parts.stats().0 - n1), all.len());
    let spans: i64 = all.iter().map(|b| b.timestamp - b.open_ts).sum();
    assert_eq!(d1 + (parts.stats().1 - d1), spans as u64);
}

#[test]
fn one_tick_draws_one_way() {
    let mut gen = RenkoGenerator::new(RenkoConfig::default()).unwrap();
    for i in 0..200i64 {
        let bars = feed(&mut gen, i * 1_000, 100.0 + ((i * 53) % 31) as f64 * 0.9);
        assert!(bars.iter().all(|b| b.direction == bars[0].direction));
    }
    assert!(gen.stats().0 > 100);
}

#[test]
fn durations_add_up_beyond_thirty_two_bits() {
    let mut gen = RenkoGenerator::new(RenkoConfig::default()).unwrap();
    feed(&mut gen, 0, 100.0);
    let bar = feed(&mut gen, 5_000_000_000, 101.0)[0];
    assert_eq!(bar.duration_ms, (5_000_000_000u64 % (1 << 32)) as u32);
    assert_eq!(gen.stats(), (1, 5_000_000_000));
}

fn twenty_with_an_outlier() -> Vec<Double> {
    (1..=20).map(|i| d(if i == 20 { 1000.0 } else { i as f64 })).collect()
}

fn winsorized_mean(values: &Vec<Double>) -> f64 {
    let n = values.len();
    let lo = (n as f64 * 0.05) as usize;
    let hi = ((n as f64 * 0.95) as usize).saturating_sub(1).min(n - 1);
    let clipped = winsorize(values, 5, lo, hi);
    clipped.iter().map(|&v| f(v)).sum::<f64>() / n as f64
}

#[test]
fn winsorized_mean_suppresses_outlier() {
    let mean = winsorized_mean(&twenty_with_an_outlier());
    assert!(mean < 12.0, "got {mean}");
}

#[test]
fn test_winsorized_mean() {
    let values = twenty_with_an_outlier();
    let lo = (values.len() as f64 * 0.05) as usize;
    let clipped = winsorize_evenly(&values, 5, lo);
    let mean = clipped.iter().map(|&v| f(v)).sum::<f64>() / values.len() as f64;
    assert!(mean < 20.0, "got {mean}");
    assert!(mean < 12.0, "got {mean}");
    assert_eq!(mean, 10.5);
}

#[test]
fn small_samples_are_left_alone() {
    let few = vec![d(3.0), d(1.0)];
    let same: Vec<f64> = winsorize(&few, 5, 0, 0).iter().map(|&v| f(v)).collect();
    assert_eq!(same, vec![3.0, 1.0]);
    let clipped = winsorize(&vec![d(9.0), d(1.0), d(2.0), d(3.0)], 1, 1, 2);
    let clipped: Vec<f64> = clipped.iter().map(|&v| f(v)).collect();
    assert_eq!(clipped, vec![2.0, 2.0, 3.0, 3.0]);
    let even = winsorize_evenly(&vec![d(9.0), d(1.0), d(2.0), d(3.0), d(4.0)], 5, 1);
    let even: Vec<f64> = even.iter().map(|&v| f(v)).collect();
    assert_eq!(even, vec![2.0, 2.0, 3.0, 4.0, 4.0]);
    assert_eq!(winsorize_evenly(&few, 5, 7).len(), 2);
}

#[test]
fn calc_returns_fallback_on_small_source() {
    let source = VolSeries::new(vec![0], vec![d(0.02)]).unwrap();
    let calc = MtfParkinsonCalculator::new(&source, vec![1, 7, 30]);
    let sigma = match calc.compute_sigma(0) {
        Blend::Windows { samples } => {
            assert!(samples.is_empty());
            settle(d(0.0), d(f64::NAN), Some(source.sigma_pct(0)))
        }
        Blend::Missing => panic!("the bin is there"),
    };
    assert!((f(sigma) - 0.02).abs() < 1e-9);
}

#[test]
fn volatility_is_blended_from_long_enough_lookbacks() {
    let n = 100usize;
    let source =
        VolSeries::new((0..n as u64).collect(), (0..n).map(|i| d(i as f64)).collect()).unwrap();
    let calc = MtfParkinsonCalculator::new(&source, vec![1, 2]);
    match calc.compute_sigma(60) {
        Blend::Windows { samples } => {
            assert_eq!(samples.len(), 2);
            assert_eq!((samples[0].len(), f(samples[0][0])), (49, 12.0));
            assert_eq!((samples[1].len(), f(samples[1][0])), (61, 0.0));
        }
        Blend::Missing => panic!("the bin is there"),
    }
    assert!(matches!(calc.compute_sigma(n), Blend::Missing));
    assert!(matches!(calc.compute_sigma(47), Blend::Windows { samples } if samples.is_empty()));
    assert_eq!(f(settle(d(0.0), d(0.5), None)), 0.01);
    assert_eq!(f(settle(d(2.0), d(0.5), Some(d(0.3)))), 0.5);
    assert!(is_weighable(d(1.0), d(0.1)));
    assert!(!is_weighable(d(1.0), d(0.0)));
    assert!(!is_weighable(d(0.0), d(0.1)));
    assert!(VolSeries::new(vec![1, 2], vec![d(1.0)]).is_none());
    assert_eq!((source.len(), source.is_empty()), (n, false));
}

#[test]
fn instants_find_their_bin() {
    let half = 1_800_000;
    let stamps = vec![0, half, 3 * half];
    assert_eq!(find_index_for_ts(&stamps, 5), 0);
    assert_eq!(find_index_for_ts(&stamps, half + 5), 1);
    assert_eq!(find_index_for_ts(&stamps, 2 * half), 2);
    assert_eq!(find_index_for_ts(&stamps, 99 * half), 2);
    assert_eq!(find_index_for_ts(&vec![], 5), 0);
    let source = VolSeries::new(vec![10, 20, 30], vec![d(1.0), d(2.0), d(3.0)]).unwrap();
    let calc = MtfParkinsonCalculator::new(&source, vec![]);
    assert_eq!(calc.find_index_for_mts(10), 0);
    assert_eq!(calc.find_index_for_mts(11), 0);
    assert_eq!(calc.find_index_for_mts(19), 0);
    assert_eq!(calc.find_index_for_mts(20), 1);
    assert_eq!(calc.find_index_for_mts(99), 2);
    assert_eq!(calc.find_index_for_mts(3), 0);
}

#[test]
fn buckets_start_on_their_width() {
    assert_eq!(bucket_start(25, 10), 20);
    assert_eq!(bucket_start(-5, 10), 0, "towards zero");
    assert_eq!(bucket_start(-15, 10), -10);
    let mut rows: Vec<(i64, u8)> = Vec::new();
    put(&mut rows, 5, 1);
    put(&mut rows, 2, 2);
    put(&mut rows, 5, 3);
    assert_eq!(rows, vec![(2, 2), (5, 3)]);
    assert_eq!(look(&rows, 5), Some(3));
    assert_eq!(look(&rows, 4), None);
}

fn tick(ts: i64, mid: f64) -> Tick {
    Tick { ts, mid: d(mid) }
}

#[test]
fn ticks_are_gathered_by_bucket() {
    let ticks = vec![tick(5, 2.0), tick(7, 3.0), tick(12, 9.0), tick(9, 1.0)];
    let rows = gather_ticks(&ticks, 10);
    assert_eq!(rows.len(), 2);
    let (hi, lo, close) = rows[0].1;
    assert_eq!((rows[0].0, f(hi), f(lo), f(close)), (0, 3.0, 1.0, 1.0));
    let last = downsample(&vec![tick(7, 3.0), tick(5, 2.0), tick(7, 4.0)], 10);
    assert_eq!((last[0].0, last[0].1 .0, f(last[0].1 .1)), (0, 7, 4.0));
}

#[test]
fn hours_come_out_in_order() {
    let ticks = vec![
        tick(2 * MS_PER_HOUR + 1, 5.0),
        tick(10, 2.0),
        tick(MS_PER_HOUR, 7.0),
        tick(20, 4.0),
    ];
    let hours = hourly_ranges(&ticks);
    let got: Vec<(i64, f64, f64)> =
        hours.iter().map(|h| (h.timestamp, f(h.high), f(h.low))).collect();
    assert_eq!(
        got,
        vec![(0, 4.0, 2.0), (MS_PER_HOUR, 7.0, 7.0), (2 * MS_PER_HOUR, 5.0, 5.0)]
    );
    let many: Vec<Tick> = (0..3_000).rev().map(|i| tick(i * MS_PER_HOUR, i as f64)).collect();
    let sorted = hourly_ranges(&many);
    assert_eq!(sorted.len(), 3_000);
    assert!(sorted.windows(2).all(|w| w[0].timestamp < w[1].timestamp));
}

#[test]
fn quotes_widen_their_bucket() {
    let quote = |ts: i64, bid: f64, ask: f64| Quote {
        ts,
        bid: d(bid),
        ask: d(ask),
        mid: d((bid + ask) * 0.5),
    };
    let quotes = vec![quote(1, 9.0, 11.0), quote(2, 8.0, 10.0), quote(3, f64::NAN, 1.0)];
    let rows = gather_quotes(&quotes, 10);
    assert_eq!(rows.len(), 1);
    assert_eq!((f(rows[0].1 .0), f(rows[0].1 .1)), (11.0, 8.0));
    let kept = retained_mids(&quotes, 2);
    assert_eq!(kept.len(), 1);
    assert_eq!((kept[0].0, f(kept[0].1)), (2, 9.0));
    assert!(is_usable(d(1.0)) && !is_usable(d(0.0)) && !is_usable(d(f64::NAN)));
}

#[test]
fn candles_leave_no_gap() {
    let series = s10_series(&vec![
        tick(1, 2.0),
        tick(2, 5.0),
        tick(3, 3.0),
        tick(9, f64::NAN),
        tick(35_000, 4.0),
    ]);
    assert_eq!(series.len(), 4);
    let c = &series[0];
    assert_eq!((f(c.open), f(c.high), f(c.low), f(c.close)), (2.0, 5.0, 2.0, 3.0));
    assert_eq!((c.ts, c.close_ts, c.tick_count), (0, 9_999, 3));
    assert_eq!((series[1].ts, f(series[1].open), series[1].tick_count), (10_000, 3.0, 0));
    assert_eq!((series[3].ts, f(series[3].close)), (30_000, 4.0));
    assert!(s10_series(&vec![]).is_empty());
    assert!(is_priced(c));
    assert!(is_seed(0, 0) && is_seed(3, 4) && !is_seed(4, 4));
}

#[test]
fn candles_reach_to_the_end_of_time() {
    let candles = s10_series(&vec![tick(LAST_TICK - 25_000, 1.0), tick(LAST_TICK, 2.0)]);
    assert_eq!(candles.len(), 3);
    assert_eq!(candles[2].close_ts, LAST_TICK);
    assert!(LAST_TICK.checked_add(10_000).is_none(), "the next candle would end too late");
}

#[test]
fn sweeps_know_their_candidates() {
    let all = parse_candidates(None);
    assert_eq!(all.len(), 7);
    assert_eq!((all[0].name, all[0].windows.clone()), ("baseline_30_60_120", vec![30, 60, 120]));
    let some = parse_candidates(Some("two_14_60, nothing"));
    assert_eq!(some.len(), 1);
    assert_eq!(retention_days(&some), 60);
    assert_eq!(retention_days(&all), 120);
    assert_eq!(retention_days(&vec![]), 120);
}

#[test]
fn sweeps_cover_closed_days() {
    let (first, stored, today) = (date(2024, 1, 1), date(2024, 3, 1), date(2024, 2, 20));
    assert_eq!(sweep_window(first, stored, today, None, 0), (first, date(2024, 2, 19)));
    assert_eq!(
        sweep_window(first, stored, today, None, 10),
        (date(2024, 2, 10), date(2024, 2, 19))
    );
    assert_eq!(
        sweep_window(first, stored, today, Some(date(2024, 1, 5)), 0),
        (first, date(2024, 1, 5))
    );
    assert_eq!(
        sample_days(date(2024, 2, 27), date(2024, 3, 3), 2),
        vec![date(2024, 2, 27), date(2024, 2, 29), date(2024, 3, 2)]
    );
    assert_eq!(day_slice(&vec![0, DAY, DAY + 1, 2 * DAY], DAY), (1, 3));
    assert!(is_scorable((2, 3)) && !is_scorable((1, 3)) && !is_scorable((2, 2)));
    assert_eq!(effective_k(d(0.01), d(0.05)).map(f), Some(0.05));
    assert!(effective_k(d(0.0), d(0.05)).is_none());
    assert_eq!(count_out_of_band(&vec![d(1.0), d(5.0), d(9.0)], d(2.0), d(8.0)), 2);
    assert_eq!(upper_median(&vec![4, 1, 3, 2]), 3);
    assert_eq!(upper_median(&vec![]), 0);
    let keys: Vec<String> = ["a", "b", "a"].iter().map(|k| k.to_string()).collect();
    assert_eq!(distinct(&keys), vec![0, 1]);
}

#[test]
fn old_tick_files_are_read() {
    assert!(is_tick_file("BTCUSDT.ticks"));
    assert!(!is_tick_file("._BTCUSDT.ticks"));
    assert!(!is_tick_file(".ticks"));
    assert!(is_old_format(64, 56));
    assert!(!is_old_format(112, 56));
    assert!(!is_old_format(33, 56));
    let mut bytes: Vec<u8> = Vec::new();
    bytes.extend_from_slice(&(-5i64).to_le_bytes());
    bytes.extend_from_slice(&1.5f64.to_le_bytes());
    bytes.extend_from_slice(&1.75f64.to_le_bytes());
    bytes.extend_from_slice(&7u32.to_le_bytes());
    bytes.extend_from_slice(&0xdead_beefu32.to_le_bytes());
    let ticks = read_old_ticks(&bytes);
    assert_eq!(ticks.len(), 1);
    assert_eq!((ticks[0].epoch_ms, f(ticks[0].bid), f(ticks[0].ask)), (-5, 1.5, 1.75));
    assert_eq!((ticks[0].bid_vol, ticks[0].ask_vol), (7, 0xdead_beef));
}

fn extra(tick_count: u32) -> Enrichment {
    Enrichment {
        vbid: 0,
        vask: 0,
        tick_count,
        realized_var: d(0.0),
        bipower_var: d(0.0),
        drift: d(0.0),
        vol_imbalance: d(0.0),
        avg_spread_bps: d(0.0),
        max_abs_return: d(0.0),
        avg_ci_ubp: 0,
        reject_rate: d(0.0),
    }
}

#[test]
fn bursts_enrich_their_first_bar() {
    let bar = EnrichedBar {
        open_ts: 0,
        close_ts: 1,
        open: d(1.0),
        high: d(1.0),
        low: d(1.0),
        close: d(1.0),
        renko: false,
        extra: extra(0),
    };
    let mut bars = Vec::new();
    assert!(add_burst(&mut bars, &vec![bar, bar], Some(extra(9)), 3).is_ok());
    assert_eq!((bars[0].extra.tick_count, bars[1].extra.tick_count), (9, 0));
    assert!(bars[0].renko);
    let over = add_burst(&mut bars, &vec![bar, bar], None, 3).err().unwrap();
    assert_eq!(over.message(), "Bar count exceeds 3 safety limit");
    assert_eq!(bars.len(), 4);
}

#[test]
fn windows_of_a_calibration() {
    assert_eq!(ticks_to_feed(&vec![1, 5, 6, 9, 7], 5, 8), vec![1, 2]);
    assert_eq!(count_bars_from_prices(&vec![3, 4]), 7);
    assert_eq!(count_bars_from_prices(&vec![1_000_001, 5]), 1_000_001);
    assert_eq!(bootstrap_end(Some(5), 2), 5 + 2 * DAY);
    assert_eq!(bootstrap_end(None, 2), 2 * DAY);
    assert_eq!(calibration_window(0, 10 * DAY, 3, 2), Some(7 * DAY));
    assert_eq!(calibration_window(0, 10 * DAY, 30, 2), Some(0));
    assert_eq!(calibration_window(0, DAY, 30, 2), None);
}

#[test]
fn searches_keep_their_best_trial() {
    let mut search = WindowSearch {
        target: d(100.0),
        tolerance: d(0.01),
        lo: d(-2.0),
        hi: d(2.0),
        best: d(0.0),
        best_err: d(f64::INFINITY),
        left: 5,
    };
    search.take_trial(Trial { ln: d(0.0), mult: d(1.0), bpd: d(150.0), err: d(0.5) });
    assert_eq!((f(search.best), f(search.lo), search.left), (1.0, 0.0, 4));
    search.take_trial(Trial { ln: d(1.0), mult: d(2.7), bpd: d(40.0), err: d(0.6) });
    assert_eq!((f(search.best), f(search.hi), search.left), (1.0, 1.0, 3));
    search.take_trial(Trial { ln: d(0.5), mult: d(1.6), bpd: d(100.0), err: d(0.0) });
    assert_eq!((f(search.best), search.left), (1.6, 0));
}

/// Plays providers whose every tick is taken and every composite valid.
struct Market {
    mid: f64,
    observed: bool,
    kept: Vec<Option<(i64, i64)>>,
}

impl Market {
    fn settle(&mut self, a: &mut Aggregator) {
        loop {
            let answer = match a.ask() {
                aggregation::Ask::Nothing => break,
                aggregation::Ask::FlushSlots { .. } => aggregation::Answer::Flushed { any: true },
                aggregation::Ask::Compose { .. } => {
                    aggregation::Answer::Composed { mid: Some(d(self.mid)) }
                }
                aggregation::Ask::Measure { mid, last_close } => aggregation::Answer::Measured {
                    left_band: self.observed && (f(mid) / f(last_close) - 1.0).abs() > 0.1,
                },
                aggregation::Ask::CutBar => {
                    let close = if self.observed { Some(d(self.mid)) } else { None };
                    self.observed = false;
                    aggregation::Answer::Cut { close }
                }
                aggregation::Ask::Ingest { .. } => {
                    self.observed = true;
                    aggregation::Answer::Ingested
                }
                aggregation::Ask::Gate { .. } => aggregation::Answer::Gated { taken: true },
            };
            let v = a.answer(answer);
            if v.keep {
                self.kept.push(v.span);
            }
        }
    }
}

#[test]
fn time_bars_lie_on_the_grid() {
    let mut a = Aggregator::new(Mode::Time { step: 1_000 }, 100);
    let mut m = Market { mid: 5.0, observed: false, kept: vec![] };
    for ts in [1_230, 1_400, 2_100, 3_900] {
        a.process_ticks(true, ts, 7);
        m.settle(&mut a);
    }
    a.finalize();
    m.settle(&mut a);
    assert_eq!(a.providers().len(), 1);
    for span in &m.kept {
        let (from, to) = span.unwrap();
        assert_eq!((from % 1_000, to - from), (0, 1_000));
    }
    assert_eq!(m.kept[0], Some((1_000, 2_000)));
}

#[test]
fn invalid_ticks_leave_batches_as_they_are() {
    let ticks: Vec<(bool, i64, u16)> = (0..60i64)
        .map(|i| (i % 4 != 3, 1_000 + i * 130, (i % 3) as u16))
        .collect();
    let run = |batches: &[&[(bool, i64, u16)]]| {
        let mut a = Aggregator::new(Mode::Time { step: 1_000 }, 100);
        let mut m = Market { mid: 5.0, observed: false, kept: vec![] };
        for batch in batches {
            for &(valid, ts, provider) in *batch {
                a.process_ticks(valid, ts, provider);
                m.settle(&mut a);
            }
        }
        (a.providers(), m.kept)
    };
    let whole = run(&[&ticks]);
    assert!(whole.1.len() > 3);
    assert_eq!(run(&[&ticks[..23], &ticks[23..]]), whole);
    let valid: Vec<(bool, i64, u16)> = ticks.iter().copied().filter(|t| t.0).collect();
    assert_eq!(run(&[&valid]), whole);
}

#[test]
fn band_bars_end_where_the_price_leaves() {
    let mut a = Aggregator::new(Mode::Band, 100);
    let mut m = Market { mid: 100.0, observed: false, kept: vec![] };
    a.process_ticks(true, 1_000, 2);
    m.settle(&mut a);
    a.process_ticks(true, 1_150, 1);
    m.settle(&mut a);
    assert_eq!(a.providers().iter().map(|p| p.0).collect::<Vec<u16>>(), vec![1, 2]);
    m.mid = 120.0;
    a.process_ticks(true, 1_300, 1);
    m.settle(&mut a);
    assert_eq!(m.kept, vec![None]);
    a.process_ticks(false, 1_400, 9);
    m.settle(&mut a);
    assert_eq!(a.providers().len(), 2, "an invalid tick adds no provider");
}

#[test]
fn ticks_are_admitted_up_to_the_last_instant() {
    let mut a = Aggregator::new(Mode::Time { step: 1_000 }, 100);
    let last = i64::MAX - i64::MAX % 1_000;
    assert!(a.admits(last - 1));
    assert!(!a.admits(last), "the bucket would end too late");
    assert!(a.admits(-4_000_000_000_000_000_000));
    let mut m = Market { mid: 5.0, observed: false, kept: vec![] };
    a.process_ticks(true, last - 2_500, 7);
    m.settle(&mut a);
    a.process_ticks(true, last - 1, 7);
    m.settle(&mut a);
    assert!(m.kept.iter().all(|span| span.unwrap().1 <= last));
    let band = Aggregator::new(Mode::Band, 100);
    assert!(band.admits(i64::MAX - 100));
    assert!(!band.admits(i64::MAX - 99), "the cycle would end too late");
}
